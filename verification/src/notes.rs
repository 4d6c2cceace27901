use vstd::prelude::*;

use crate::store::{StoreView, WalletStore};
use crate::types::{NoteId, clone_bytes};

verus! {

/// A note ready to be spent: its stable identifier, the data the proof
/// builder needs, and the witness path at the chosen anchor.
pub struct SpendableNote {
    pub id: usize,
    pub diversifier: Vec<u8>,
    pub value: u64,
    pub rcm: Vec<u8>,
    pub witness: Vec<u8>,
}

/// Spec-level image of a spendable note.
pub ghost struct SpendableV {
    pub id: int,
    pub diversifier: Seq<u8>,
    pub value: int,
    pub rcm: Seq<u8>,
    pub witness: Seq<u8>,
}

impl View for SpendableNote {
    type V = SpendableV;

    open spec fn view(&self) -> SpendableV {
        SpendableV {
            id: self.id as int,
            diversifier: self.diversifier@,
            value: self.value as int,
            rcm: self.rcm@,
            witness: self.witness@,
        }
    }
}

pub open spec fn spendables_seq_view(s: Seq<SpendableNote>) -> Seq<SpendableV> {
    s.map_values(|n: SpendableNote| n@)
}

/// The witness for `note` recorded at the greatest height at or below `anchor`,
/// scanning only the first `n` witness rows; the row inserted last wins a tie.
pub open spec fn best_wit_upto(wits: Seq<crate::types::WitV>, note: int, anchor: int, n: int) -> Option<
    crate::types::WitV,
>
    decreases n,
{
    if n <= 0 {
        None
    } else {
        let prev = best_wit_upto(wits, note, anchor, n - 1);
        let w = wits[n - 1];
        if w.note == note && w.block <= anchor {
            match prev {
                None => Some(w),
                Some(p) => if w.block >= p.block {
                    Some(w)
                } else {
                    Some(p)
                },
            }
        } else {
            prev
        }
    }
}

/// The witness used to spend `note` against an anchor at `anchor`.
pub open spec fn best_wit(v: StoreView, note: int, anchor: int) -> Option<crate::types::WitV> {
    best_wit_upto(v.wits, note, anchor, v.wits.len() as int)
}

/// An unspent note of `account` confirmed by `anchor`: a witness for it exists
/// at or before that height.
pub open spec fn note_spendable(v: StoreView, i: int, account: int, anchor: int) -> bool {
    &&& 0 <= i < v.notes.len()
    &&& v.notes[i].account == account
    &&& v.notes[i].spent is None
    &&& best_wit(v, i, anchor) is Some
}

/// What `get_spendable_notes` reports for note `i`.
pub open spec fn spendable_of(v: StoreView, i: int, anchor: int) -> SpendableV {
    SpendableV {
        id: i,
        diversifier: v.notes[i].diversifier,
        value: v.notes[i].value,
        rcm: v.notes[i].rcm,
        witness: best_wit(v, i, anchor)->Some_0.witness,
    }
}

/// The spendable notes among the first `n` notes, ascending by note identifier.
pub open spec fn spendables_upto(v: StoreView, account: int, anchor: int, n: int) -> Seq<SpendableV>
    decreases n,
{
    if n <= 0 {
        Seq::empty()
    } else {
        let rest = spendables_upto(v, account, anchor, n - 1);
        if note_spendable(v, n - 1, account, anchor) {
            rest.push(spendable_of(v, n - 1, anchor))
        } else {
            rest
        }
    }
}

/// All spendable notes of `account` at `anchor`, ascending by note identifier.
pub open spec fn spendables(v: StoreView, account: int, anchor: int) -> Seq<SpendableV> {
    spendables_upto(v, account, anchor, v.notes.len() as int)
}

/// Sum of the values of the first `n` entries.
pub open spec fn sum_upto(s: Seq<SpendableV>, n: int) -> int
    decreases n,
{
    if n <= 0 {
        0
    } else {
        sum_upto(s, n - 1) + s[n - 1].value
    }
}

/// Sum of all the entries' values.
pub open spec fn sum_values(s: Seq<SpendableV>) -> int {
    sum_upto(s, s.len() as int)
}

/// How many entries, taken in order starting at `k`, selection adds before the
/// running sum first reaches `target` (all of them if it never does).
pub open spec fn select_count_from(s: Seq<SpendableV>, target: int, k: int) -> int
    decreases s.len() - k,
{
    if k >= s.len() {
        k
    } else if sum_upto(s, k) >= target {
        k
    } else {
        select_count_from(s, target, k + 1)
    }
}

/// Length of the selected prefix: the shortest whose sum reaches `target`, or
/// everything if the total falls short.
pub open spec fn select_count(s: Seq<SpendableV>, target: int) -> int {
    select_count_from(s, target, 0)
}

/// What `select_spendable_notes` returns: a prefix of the spendable notes.
pub open spec fn selection(v: StoreView, account: int, target: int, anchor: int) -> Seq<
    SpendableV,
> {
    let s = spendables(v, account, anchor);
    s.take(select_count(s, target))
}

impl WalletStore {
    /// Index of the witness row `best_wit` picks for `note` at `anchor`.
    fn find_best_witness(&self, note: usize, anchor: u32) -> (r: Option<usize>)
        ensures
            match r {
                Some(j) => j < self@.wits.len() && best_wit(self@, note as int, anchor as int)
                    == Some(self@.wits[j as int]),
                None => best_wit(self@, note as int, anchor as int) is None,
            },
    {
        let mut best: Option<usize> = None;
        let mut i: usize = 0;
        while i < self.wits.len()
            invariant
                0 <= i <= self.wits.len(),
                self@.wits.len() == self.wits@.len(),
                match best {
                    Some(j) => j < i && best_wit_upto(self@.wits, note as int, anchor as int, i as int)
                        == Some(self@.wits[j as int]),
                    None => best_wit_upto(self@.wits, note as int, anchor as int, i as int) is None,
                },
            decreases self.wits.len() - i,
        {
            let w = &self.wits[i];
            if w.note == note && w.block <= anchor {
                match best {
                    Some(j) => {
                        if w.block >= self.wits[j].block {
                            best = Some(i);
                        }
                    },
                    None => {
                        best = Some(i);
                    },
                }
            }
            i += 1;
        }
        best
    }

    /// All unspent notes of `account` whose witness exists at or before
    /// `anchor_height`, ascending by note identifier.
    pub fn get_spendable_notes(&self, account: u32, anchor_height: u32) -> (r: Vec<SpendableNote>)
        ensures
            spendables_seq_view(r@) == spendables(self@, account as int, anchor_height as int),
    {
        let ghost v = self@;
        let mut r: Vec<SpendableNote> = Vec::new();
        let mut i: usize = 0;
        while i < self.notes.len()
            invariant
                0 <= i <= self.notes.len(),
                v == self@,
                v.notes.len() == self.notes@.len(),
                spendables_seq_view(r@) =~= spendables_upto(
                    v,
                    account as int,
                    anchor_height as int,
                    i as int,
                ),
            decreases self.notes.len() - i,
        {
            let n = &self.notes[i];
            if n.account == account && n.spent.is_none() {
                match self.find_best_witness(i, anchor_height) {
                    Some(j) => {
                        let sn = SpendableNote {
                            id: i,
                            diversifier: clone_bytes(&n.diversifier),
                            value: n.value,
                            rcm: clone_bytes(&n.rcm),
                            witness: clone_bytes(&self.wits[j].witness),
                        };
                        assert(sn@ == spendable_of(v, i as int, anchor_height as int));
                        r.push(sn);
                    },
                    None => {
                        assert(!note_spendable(v, i as int, account as int, anchor_height as int));
                    },
                }
            } else {
                assert(!note_spendable(v, i as int, account as int, anchor_height as int));
            }
            i += 1;
        }
        r
    }

    /// A deterministic subset of the spendable notes whose values sum to at
    /// least `target_value`: notes are taken ascending by note identifier until
    /// the running sum reaches the target. If the total spendable value falls
    /// short, every spendable note is returned and the caller detects the
    /// insufficiency by comparing the returned sum.
    pub fn select_spendable_notes(&self, account: u32, target_value: u64, anchor_height: u32) -> (r:
        Vec<SpendableNote>)
        ensures
            spendables_seq_view(r@) == selection(
                self@,
                account as int,
                target_value as int,
                anchor_height as int,
            ),
    {
        let mut notes = self.get_spendable_notes(account, anchor_height);
        let ghost s = spendables(self@, account as int, anchor_height as int);
        let mut k: usize = 0;
        let mut sum: u128 = 0;
        while k < notes.len() && sum < target_value as u128
            invariant
                0 <= k <= notes.len(),
                spendables_seq_view(notes@) == s,
                notes@.len() == s.len(),
                sum == sum_upto(s, k as int),
                sum <= u128::MAX - u64::MAX,
                select_count(s, target_value as int) == select_count_from(
                    s,
                    target_value as int,
                    k as int,
                ),
                k < notes.len() || sum >= target_value as u128 || select_count(
                    s,
                    target_value as int,
                ) == k as int,
            decreases notes.len() - k,
        {
            assert(s[k as int] == notes@[k as int]@);
            assert(s[k as int].value == notes@[k as int].value as int);
            proof {
                lemma_sum_upto_bound(s, k as int + 1);
            }
            sum = sum + notes[k].value as u128;
            k += 1;
        }
        if k == notes.len() && sum < target_value as u128 {
            assert(select_count(s, target_value as int) == k as int);
        }
        assert(select_count(s, target_value as int) == k as int);
        notes.truncate(k);
        assert(spendables_seq_view(notes@) =~= s.take(k as int));
        notes
    }
}

/// The running sum of at most `n` entries stays below `n * u64::MAX`.
pub proof fn lemma_sum_upto_bound(s: Seq<SpendableV>, n: int)
    requires
        0 <= n <= s.len(),
        forall|i: int| 0 <= i < s.len() ==> 0 <= #[trigger] s[i].value <= u64::MAX,
    ensures
        0 <= sum_upto(s, n) <= n * (u64::MAX as int),
    decreases n,
{
    if n > 0 {
        lemma_sum_upto_bound(s, n - 1);
        assert(n * (u64::MAX as int) == (n - 1) * (u64::MAX as int) + u64::MAX) by (nonlinear_arith);
    }
}

} // verus!
