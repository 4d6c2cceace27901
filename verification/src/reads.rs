use vstd::prelude::*;

use crate::store::{ANCHOR_OFFSET, StoreView, WalletStore};
use crate::types::{NoteId, NoteV, TxV, WitV, clone_bytes};

verus! {

/// Witness rows recorded exactly at height `h`, among the first `n`, as
/// `(note row, path bytes)` pairs in stored order.
pub open spec fn wits_at_upto(wits: Seq<WitV>, h: int, n: int) -> Seq<(int, Seq<u8>)>
    decreases n,
{
    if n <= 0 {
        Seq::empty()
    } else {
        let rest = wits_at_upto(wits, h, n - 1);
        if wits[n - 1].block == h {
            rest.push((wits[n - 1].note, wits[n - 1].witness))
        } else {
            rest
        }
    }
}

/// All witness rows recorded exactly at height `h`.
pub open spec fn wits_at(wits: Seq<WitV>, h: int) -> Seq<(int, Seq<u8>)> {
    wits_at_upto(wits, h, wits.len() as int)
}

/// A note whose nullifier the chain scan must watch for: its nullifier is
/// known and it is not yet spent by a mined transaction.
pub open spec fn nullifier_watched(n: NoteV, txs: Seq<TxV>) -> bool {
    n.nf is Some && (match n.spent {
        None => true,
        Some(t) => 0 <= t < txs.len() && txs[t].block is None,
    })
}

/// Watched `(account, nullifier)` pairs among the first `n` notes, in order.
pub open spec fn nullifiers_upto(notes: Seq<NoteV>, txs: Seq<TxV>, n: int) -> Seq<(int, Seq<u8>)>
    decreases n,
{
    if n <= 0 {
        Seq::empty()
    } else {
        let rest = nullifiers_upto(notes, txs, n - 1);
        if nullifier_watched(notes[n - 1], txs) {
            rest.push((notes[n - 1].account, notes[n - 1].nf->Some_0))
        } else {
            rest
        }
    }
}

/// A note counted by the balance at `anchor`: owned by the account, unspent,
/// and mined at or below the anchor.
pub open spec fn balance_counts(v: StoreView, i: int, account: int, anchor: int) -> bool {
    &&& 0 <= i < v.notes.len()
    &&& v.notes[i].account == account
    &&& v.notes[i].spent is None
    &&& 0 <= v.notes[i].tx < v.txs.len()
    &&& (v.txs[v.notes[i].tx].block matches Some(b) && b <= anchor)
}

/// Total value of the counted notes among the first `n`.
pub open spec fn balance_upto(v: StoreView, account: int, anchor: int, n: int) -> int
    decreases n,
{
    if n <= 0 {
        0
    } else {
        balance_upto(v, account, anchor, n - 1) + if balance_counts(v, n - 1, account, anchor) {
            v.notes[n - 1].value
        } else {
            0
        }
    }
}

/// The account's balance at `anchor`: the summed value of its unspent notes
/// mined at or below that height.
pub open spec fn balance_spec(v: StoreView, account: int, anchor: int) -> int {
    balance_upto(v, account, anchor, v.notes.len() as int)
}

/// A partial balance of at most `n` notes stays below `n` times the largest
/// note value.
pub proof fn lemma_balance_bound(v: StoreView, account: int, anchor: int, n: int)
    requires
        0 <= n <= v.notes.len(),
        forall|i: int| 0 <= i < v.notes.len() ==> 0 <= #[trigger] v.notes[i].value <= u64::MAX,
    ensures
        0 <= balance_upto(v, account, anchor, n) <= n * (u64::MAX as int),
    decreases n,
{
    if n > 0 {
        lemma_balance_bound(v, account, anchor, n - 1);
        assert(n * (u64::MAX as int) == (n - 1) * (u64::MAX as int) + u64::MAX) by (nonlinear_arith);
    }
}

/// A partial balance never exceeds a later one when all values are nonnegative.
pub proof fn lemma_balance_mono(v: StoreView, account: int, anchor: int, n: int, m: int)
    requires
        0 <= n <= m <= v.notes.len(),
        forall|i: int| 0 <= i < v.notes.len() ==> #[trigger] v.notes[i].value >= 0,
    ensures
        balance_upto(v, account, anchor, n) <= balance_upto(v, account, anchor, m),
        balance_upto(v, account, anchor, n) >= 0,
    decreases m - n, n,
{
    if n > 0 && n == m {
        lemma_balance_mono(v, account, anchor, n - 1, n - 1);
    }
    if n < m {
        lemma_balance_mono(v, account, anchor, n, m - 1);
    }
}

/// The target height for a new spend (one past the tip) and the anchor height
/// it is proven against (a stable height `ANCHOR_OFFSET` back, never before
/// the oldest scanned block).
pub open spec fn target_anchor_spec(v: StoreView) -> Option<(int, int)> {
    match v.extrema() {
        None => None,
        Some((lo, hi)) => {
            let target = hi + 1;
            let back = if target >= ANCHOR_OFFSET as int {
                target - ANCHOR_OFFSET as int
            } else {
                0
            };
            Some((target, if back >= lo { back } else { lo }))
        },
    }
}

impl WalletStore {
    /// All witnesses recorded at exactly `block_height`, in stored order.
    pub fn get_witnesses(&self, block_height: u32) -> (r: Vec<(NoteId, Vec<u8>)>)
        ensures
            crate::advance::uw_view(r@) == wits_at(self@.wits, block_height as int),
            crate::advance::uw_all_received(r@, self@.notes.len() as int) || !self@.wf(),
    {
        let ghost v = self@;
        let mut r: Vec<(NoteId, Vec<u8>)> = Vec::new();
        let mut i: usize = 0;
        while i < self.wits.len()
            invariant
                0 <= i <= self.wits.len(),
                v == self@,
                v.wits.len() == self.wits@.len(),
                crate::advance::uw_view(r@) =~= wits_at_upto(v.wits, block_height as int, i as int),
                forall|t: int|
                    0 <= t < r@.len() ==> (#[trigger] r@[t].0 matches NoteId::ReceivedNoteId(m)
                        && exists|w: int|
                        0 <= w < v.wits.len() && #[trigger] v.wits[w].note == m as int),
            decreases self.wits.len() - i,
        {
            if self.wits[i].block == block_height {
                let id = NoteId::ReceivedNoteId(self.wits[i].note);
                r.push((id, clone_bytes(&self.wits[i].witness)));
                assert(crate::advance::uw_view(r@) =~= wits_at_upto(
                    v.wits,
                    block_height as int,
                    i + 1,
                ));
            }
            i += 1;
        }
        assert(crate::advance::uw_view(r@) =~= wits_at(v.wits, block_height as int));
        proof {
            if self@.wf() {
                assert(crate::advance::uw_all_received(r@, self@.notes.len() as int));
            }
        }
        r
    }

    /// The `(account, nullifier)` pairs the chain scan must watch: nullifiers
    /// of notes not currently spent by any mined transaction.
    pub fn get_nullifiers(&self) -> (r: Vec<(u32, Vec<u8>)>)
        ensures
            r@.map_values(|p: (u32, Vec<u8>)| (p.0 as int, p.1@)) == nullifiers_upto(
                self@.notes,
                self@.txs,
                self@.notes.len() as int,
            ),
    {
        let ghost v = self@;
        let mut r: Vec<(u32, Vec<u8>)> = Vec::new();
        let mut i: usize = 0;
        while i < self.notes.len()
            invariant
                0 <= i <= self.notes.len(),
                v == self@,
                v.notes.len() == self.notes@.len(),
                v.txs.len() == self.txs@.len(),
                r@.map_values(|p: (u32, Vec<u8>)| (p.0 as int, p.1@)) =~= nullifiers_upto(
                    v.notes,
                    v.txs,
                    i as int,
                ),
            decreases self.notes.len() - i,
        {
            let watched = match &self.notes[i].nf {
                Some(_) => match self.notes[i].spent {
                    None => true,
                    Some(t) => t < self.txs.len() && self.txs[t].block.is_none(),
                },
                None => false,
            };
            if watched {
                assert(nullifier_watched(v.notes[i as int], v.txs));
                let nf = match &self.notes[i].nf {
                    Some(n) => clone_bytes(n),
                    None => Vec::new(),
                };
                r.push((self.notes[i].account, nf));
                assert(r@.map_values(|p: (u32, Vec<u8>)| (p.0 as int, p.1@)) =~= nullifiers_upto(
                    v.notes,
                    v.txs,
                    i + 1,
                ));
            } else {
                assert(!nullifier_watched(v.notes[i as int], v.txs));
            }
            i += 1;
        }
        r
    }

    /// The account's balance at `anchor_height`: the summed value of its
    /// unspent notes mined at or below that height.
    pub fn get_balance_at(&self, account: u32, anchor_height: u32) -> (r: u64)
        requires
            balance_spec(self@, account as int, anchor_height as int) <= u64::MAX,
        ensures
            r as int == balance_spec(self@, account as int, anchor_height as int),
    {
        let ghost v = self@;
        proof {
            assert(forall|i: int| 0 <= i < v.notes.len() ==> #[trigger] v.notes[i].value >= 0);
        }
        let mut sum: u64 = 0;
        let mut i: usize = 0;
        while i < self.notes.len()
            invariant
                0 <= i <= self.notes.len(),
                v == self@,
                v.notes.len() == self.notes@.len(),
                v.txs.len() == self.txs@.len(),
                sum as int == balance_upto(v, account as int, anchor_height as int, i as int),
                balance_spec(v, account as int, anchor_height as int) <= u64::MAX,
                forall|t: int| 0 <= t < v.notes.len() ==> #[trigger] v.notes[t].value >= 0,
            decreases self.notes.len() - i,
        {
            let counts = self.notes[i].account == account && self.notes[i].spent.is_none()
                && self.notes[i].tx < self.txs.len() && (match self.txs[self.notes[i].tx].block {
                Some(b) => b <= anchor_height,
                None => false,
            });
            if counts {
                assert(balance_counts(v, i as int, account as int, anchor_height as int));
                proof {
                    lemma_balance_mono(
                        v,
                        account as int,
                        anchor_height as int,
                        i + 1,
                        v.notes.len() as int,
                    );
                    lemma_balance_mono(v, account as int, anchor_height as int, 0, i as int);
                }
                sum = sum + self.notes[i].value;
            } else {
                assert(!balance_counts(v, i as int, account as int, anchor_height as int));
            }
            i += 1;
        }
        sum
    }

    /// The account's balance at `anchor_height`, or `None` when the sum does
    /// not fit the amount type. Callers that can bound the balance themselves
    /// may use `get_balance_at` instead.
    pub fn checked_balance_at(&self, account: u32, anchor_height: u32) -> (r: Option<u64>)
        ensures
            match r {
                Some(b) => b as int == balance_spec(self@, account as int, anchor_height as int),
                None => balance_spec(self@, account as int, anchor_height as int) > u64::MAX,
            },
    {
        let ghost v = self@;
        proof {
            assert(forall|i: int| 0 <= i < v.notes.len() ==> #[trigger] v.notes[i].value >= 0);
        }
        let mut sum: u128 = 0;
        let mut i: usize = 0;
        while i < self.notes.len()
            invariant
                0 <= i <= self.notes.len(),
                v == self@,
                v.notes.len() == self.notes@.len(),
                v.txs.len() == self.txs@.len(),
                sum == balance_upto(v, account as int, anchor_height as int, i as int),
                sum <= (i as int) * (u64::MAX as int),
            decreases self.notes.len() - i,
        {
            let counts = self.notes[i].account == account && self.notes[i].spent.is_none()
                && self.notes[i].tx < self.txs.len() && (match self.txs[self.notes[i].tx].block {
                Some(b) => b <= anchor_height,
                None => false,
            });
            proof {
                lemma_balance_bound(v, account as int, anchor_height as int, i + 1);
                assert((i as int + 1) * (u64::MAX as int) <= (usize::MAX as int) * (
                u64::MAX as int)) by (nonlinear_arith)
                    requires
                        0 <= i as int + 1 <= usize::MAX as int,
                ;
            }
            if counts {
                assert(balance_counts(v, i as int, account as int, anchor_height as int));
                sum = sum + self.notes[i].value as u128;
            } else {
                assert(!balance_counts(v, i as int, account as int, anchor_height as int));
            }
            i += 1;
        }
        if sum <= u64::MAX as u128 {
            Some(sum as u64)
        } else {
            None
        }
    }

    /// The target height for a new spend (one past the tip) and the anchor it
    /// is proven against, or `None` before any block has been scanned.
    pub fn get_target_and_anchor_heights(&self) -> (r: Option<(u32, u32)>)
        requires
            self@.tip() matches Some(t) ==> t < u32::MAX,
        ensures
            match r {
                Some((t, a)) => target_anchor_spec(self@) == Some((t as int, a as int)),
                None => target_anchor_spec(self@) is None,
            },
    {
        if self.blocks.len() == 0 {
            return None;
        }
        let lo = self.blocks[0].height;
        let hi = self.blocks[self.blocks.len() - 1].height;
        let target = hi + 1;
        let back = if target >= ANCHOR_OFFSET {
            target - ANCHOR_OFFSET
        } else {
            0
        };
        let anchor = if back >= lo {
            back
        } else {
            lo
        };
        Some((target, anchor))
    }
}

} // verus!
