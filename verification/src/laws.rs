use vstd::prelude::*;

use crate::advance::{
    BlockInV, lemma_mark_spent_index, lemma_update_expired_index, mark_spent_spec, prune_spec,
    prune_upto, update_expired_spec,
};
use crate::notes::selection;
use crate::rewind::{rewind_blocks_upto, rewind_spec, rewind_wits_upto};
use crate::scan::{add_witnesses, advance_spec, block_row_of, height_ok, prune_floor};
use crate::store::StoreView;
use crate::types::{NoteV, TxV, WitV};

verus! {

/// The store after a chain of `n` block advances, none carrying caller-updated
/// witnesses.
pub open spec fn chain_of(v: StoreView, bs: Seq<BlockInV>, n: int) -> StoreView
    decreases n,
{
    if n <= 0 {
        v
    } else {
        advance_spec(chain_of(v, bs, n - 1), bs[n - 1], Seq::empty())
    }
}

/// A chain of advances only appends to the block table: after them it holds
/// the old rows followed by one row per advanced block, in order.
pub proof fn lemma_chain_blocks(v: StoreView, bs: Seq<BlockInV>, n: int)
    requires
        0 <= n <= bs.len(),
    ensures
        chain_of(v, bs, n).blocks =~= v.blocks + bs.take(n).map_values(
            |b: BlockInV| block_row_of(b),
        ),
        chain_of(v, bs, n).accounts == v.accounts,
        chain_of(v, bs, n).sent == v.sent,
    decreases n,
{
    if n > 0 {
        lemma_chain_blocks(v, bs, n - 1);
    }
}

/// Advancing blocks at strictly increasing heights, each above the starting
/// tip, leaves the height extrema at the first and last advanced heights (or
/// keeps the starting minimum, where the wallet already held blocks); and each
/// advance in the chain finds the store at a lower tip, so each one succeeds.
pub proof fn lemma_extrema_after_advances(v: StoreView, bs: Seq<BlockInV>)
    requires
        bs.len() > 0,
        forall|i: int, j: int| 0 <= i < j < bs.len() ==> bs[i].height < bs[j].height,
        v.blocks.len() == 0 || v.tip()->Some_0 < bs.first().height,
    ensures
        chain_of(v, bs, bs.len() as int).extrema() == Some(
            (
                if v.blocks.len() == 0 {
                    bs.first().height
                } else {
                    v.blocks.first().height
                },
                bs.last().height,
            ),
        ),
        forall|k: int|
            0 <= k < bs.len() ==> height_ok(#[trigger] chain_of(v, bs, k), bs[k].height),
    decreases bs.len(),
{
    lemma_chain_blocks(v, bs, bs.len() as int);
    assert forall|k: int| 0 <= k < bs.len() implies height_ok(
        #[trigger] chain_of(v, bs, k),
        bs[k].height,
    ) by {
        lemma_chain_blocks(v, bs, k);
        if k > 0 {
            assert(chain_of(v, bs, k).blocks.last() == block_row_of(bs[k - 1]));
        }
    }
}

/// Note selection is a function of the store state alone: two calls against
/// equal states return identical note lists, in identical order.
pub proof fn lemma_select_deterministic(
    v1: StoreView,
    v2: StoreView,
    account: int,
    target: int,
    anchor: int,
)
    requires
        v1 == v2,
    ensures
        selection(v1, account, target, anchor) == selection(v2, account, target, anchor),
{
}

/// Observing a spend flips the spent-by of every note carrying that nullifier
/// from whatever it was to exactly the spending transaction, touching no other
/// note and no other field.
pub proof fn lemma_mark_spent_flips(notes: Seq<NoteV>, nf: Seq<u8>, tx: int)
    ensures
        mark_spent_spec(notes, nf, tx).len() == notes.len(),
        forall|j: int|
            0 <= j < notes.len() && notes[j].nf == Some(nf)
                ==> #[trigger] mark_spent_spec(notes, nf, tx)[j] == (NoteV {
                spent: Some(tx),
                ..notes[j]
            }),
        forall|j: int|
            0 <= j < notes.len() && notes[j].nf != Some(nf)
                ==> #[trigger] mark_spent_spec(notes, nf, tx)[j] == notes[j],
{
    lemma_mark_spent_index(notes, nf, tx, notes.len() as int);
}

/// A duplicate spend observation is idempotent: marking the same nullifier
/// spent by the same transaction twice leaves exactly the state of marking it
/// once; no duplicate marking exists to be seen.
pub proof fn lemma_mark_spent_idempotent(notes: Seq<NoteV>, nf: Seq<u8>, tx: int)
    ensures
        mark_spent_spec(mark_spent_spec(notes, nf, tx), nf, tx) == mark_spent_spec(notes, nf, tx),
{
    let once = mark_spent_spec(notes, nf, tx);
    lemma_mark_spent_index(notes, nf, tx, notes.len() as int);
    lemma_mark_spent_index(once, nf, tx, once.len() as int);
    assert(mark_spent_spec(once, nf, tx) =~= once);
}

/// The kept prefix of a table depends only on that prefix.
pub proof fn lemma_rewind_wits_prefix(s1: Seq<WitV>, s2: Seq<WitV>, h: int, n: int)
    requires
        0 <= n,
        forall|j: int| 0 <= j < n ==> s1[j] == s2[j],
    ensures
        rewind_wits_upto(s1, h, n) == rewind_wits_upto(s2, h, n),
    decreases n,
{
    if n > 0 {
        lemma_rewind_wits_prefix(s1, s2, h, n - 1);
    }
}

/// The kept prefix of a block table depends only on that prefix.
pub proof fn lemma_rewind_blocks_prefix(
    s1: Seq<crate::types::BlockV>,
    s2: Seq<crate::types::BlockV>,
    h: int,
    n: int,
)
    requires
        0 <= n,
        forall|j: int| 0 <= j < n ==> s1[j] == s2[j],
    ensures
        rewind_blocks_upto(s1, h, n) == rewind_blocks_upto(s2, h, n),
    decreases n,
{
    if n > 0 {
        lemma_rewind_blocks_prefix(s1, s2, h, n - 1);
    }
}

/// The pruned prefix of a witness table depends only on that prefix.
pub proof fn lemma_prune_prefix(s1: Seq<WitV>, s2: Seq<WitV>, below: int, n: int)
    requires
        0 <= n,
        forall|j: int| 0 <= j < n ==> s1[j] == s2[j],
    ensures
        prune_upto(s1, below, n) == prune_upto(s2, below, n),
    decreases n,
{
    if n > 0 {
        lemma_prune_prefix(s1, s2, below, n - 1);
    }
}

/// Rewinding a block table whose every row sits at or below `h` keeps it all.
pub proof fn lemma_rewind_blocks_keep(blocks: Seq<crate::types::BlockV>, h: int, n: int)
    requires
        0 <= n <= blocks.len(),
        forall|i: int| 0 <= i < blocks.len() ==> #[trigger] blocks[i].height <= h,
    ensures
        rewind_blocks_upto(blocks, h, n) =~= blocks.take(n),
    decreases n,
{
    if n > 0 {
        lemma_rewind_blocks_keep(blocks, h, n - 1);
    }
}

/// Keeping the witnesses at or below `h` of a pruned table whose rows all sit
/// at or below `h` gives the pruned table back.
pub proof fn lemma_rewind_wits_prune(wits: Seq<WitV>, below: int, h: int, n: int)
    requires
        0 <= n <= wits.len(),
        forall|i: int| 0 <= i < wits.len() ==> #[trigger] wits[i].block <= h,
    ensures
        rewind_wits_upto(prune_upto(wits, below, n), h, prune_upto(wits, below, n).len() as int)
            =~= prune_upto(wits, below, n),
    decreases n,
{
    if n > 0 {
        lemma_rewind_wits_prune(wits, below, h, n - 1);
        let prev = prune_upto(wits, below, n - 1);
        if wits[n - 1].block >= below {
            lemma_rewind_wits_prefix(
                prev.push(wits[n - 1]),
                prev,
                h,
                prev.len() as int,
            );
        }
    }
}

/// Un-mining above the tip changes nothing when every mined height is at or
/// below it.
pub proof fn lemma_rewind_txs_id(txs: Seq<crate::types::TxV>, h: int, n: int)
    requires
        0 <= n <= txs.len(),
        forall|i: int| 0 <= i < txs.len() ==> (#[trigger] txs[i].block matches Some(b) ==> b <= h),
    ensures
        crate::rewind::rewind_txs_upto(txs, h, n) =~= txs.take(n),
    decreases n,
{
    if n > 0 {
        lemma_rewind_txs_id(txs, h, n - 1);
    }
}

/// Restoring spent flags changes nothing when no spending transaction was
/// mined above the tip; the sweep only clears spent-by, so the bound carries
/// over to the swept table.
pub proof fn lemma_rewind_notes_id(notes: Seq<NoteV>, v: StoreView, bh: int, h: int, n: int)
    requires
        0 <= n <= notes.len(),
        notes == update_expired_spec(v.notes, v.txs, bh),
        v.wf(),
        forall|i: int|
            0 <= i < v.txs.len() ==> (#[trigger] v.txs[i].block matches Some(b) ==> b <= h),
    ensures
        crate::rewind::rewind_notes_upto(notes, v.txs, h, n) =~= notes.take(n),
    decreases n,
{
    lemma_update_expired_index(v.notes, v.txs, bh, v.notes.len() as int);
    if n > 0 {
        lemma_rewind_notes_id(notes, v, bh, h, n - 1);
        assert(crate::rewind::rewound_note(notes[n - 1], v.txs, h) == notes[n - 1]);
    }
}

/// Pruning an already-pruned witness table changes nothing.
pub proof fn lemma_prune_idempotent(wits: Seq<WitV>, below: int, n: int)
    requires
        0 <= n <= wits.len(),
    ensures
        prune_upto(prune_upto(wits, below, n), below, prune_upto(wits, below, n).len() as int)
            =~= prune_upto(wits, below, n),
    decreases n,
{
    if n > 0 {
        lemma_prune_idempotent(wits, below, n - 1);
        let prev = prune_upto(wits, below, n - 1);
        if wits[n - 1].block >= below {
            lemma_prune_prefix(prev.push(wits[n - 1]), prev, below, prev.len() as int);
        }
    }
}

/// The first-match transaction scan depends only on the scanned prefix.
pub proof fn lemma_find_tx_prefix(s1: Seq<TxV>, s2: Seq<TxV>, txid: Seq<u8>, n: int)
    requires
        0 <= n,
        forall|j: int| 0 <= j < n ==> s1[j].txid == s2[j].txid,
    ensures
        crate::advance::find_tx_upto(s1, txid, n) == crate::advance::find_tx_upto(s2, txid, n),
    decreases n,
{
    if n > 0 {
        lemma_find_tx_prefix(s1, s2, txid, n - 1);
    }
}

/// What a rewind does to each single note.
pub proof fn lemma_rewind_notes_index(notes: Seq<NoteV>, txs: Seq<TxV>, h: int, n: int)
    requires
        0 <= n <= notes.len(),
    ensures
        crate::rewind::rewind_notes_upto(notes, txs, h, n).len() == n,
        forall|i: int|
            0 <= i < n ==> #[trigger] crate::rewind::rewind_notes_upto(notes, txs, h, n)[i]
                == crate::rewind::rewound_note(notes[i], txs, h),
    decreases n,
{
    if n > 0 {
        lemma_rewind_notes_index(notes, txs, h, n - 1);
    }
}

/// What a rewind does to each single transaction.
pub proof fn lemma_rewind_txs_index(txs: Seq<TxV>, h: int, n: int)
    requires
        0 <= n <= txs.len(),
    ensures
        crate::rewind::rewind_txs_upto(txs, h, n).len() == n,
        forall|i: int|
            0 <= i < n ==> #[trigger] crate::rewind::rewind_txs_upto(txs, h, n)[i]
                == crate::rewind::unmined_tx(txs[i], h),
    decreases n,
{
    if n > 0 {
        lemma_rewind_txs_index(txs, h, n - 1);
    }
}

/// Two note tables that differ at most in their spent-by fields stay in step
/// under the same spend observations: a marked note ends identical on both
/// sides, an unmarked one keeps its own side's value.
pub proof fn lemma_apply_spends_agree(
    stx: crate::scan::ScanState,
    sty: crate::scan::ScanState,
    spends: Seq<Seq<u8>>,
    r: int,
    n: int,
)
    requires
        0 <= n,
        stx.notes.len() == sty.notes.len(),
        forall|i: int|
            0 <= i < stx.notes.len() ==> (NoteV { spent: None, ..#[trigger] stx.notes[i] })
                == (NoteV { spent: None, ..sty.notes[i] }),
    ensures
        crate::scan::apply_spends(stx, spends, r, n).notes.len() == stx.notes.len(),
        crate::scan::apply_spends(sty, spends, r, n).notes.len() == stx.notes.len(),
        forall|i: int|
            0 <= i < stx.notes.len() ==> ((#[trigger] crate::scan::apply_spends(
                stx,
                spends,
                r,
                n,
            ).notes[i] == stx.notes[i] && crate::scan::apply_spends(sty, spends, r, n).notes[i]
                == sty.notes[i]) || (crate::scan::apply_spends(stx, spends, r, n).notes[i]
                == (NoteV { spent: Some(r), ..stx.notes[i] }) && crate::scan::apply_spends(
                sty,
                spends,
                r,
                n,
            ).notes[i] == crate::scan::apply_spends(stx, spends, r, n).notes[i])),
    decreases n,
{
    if n > 0 {
        lemma_apply_spends_agree(stx, sty, spends, r, n - 1);
        let px = crate::scan::apply_spends(stx, spends, r, n - 1);
        let py = crate::scan::apply_spends(sty, spends, r, n - 1);
        lemma_mark_spent_index(px.notes, spends[n - 1], r, px.notes.len() as int);
        lemma_mark_spent_index(py.notes, spends[n - 1], r, py.notes.len() as int);
    }
}


/// The received-note row a scanned output inserts for transaction row `r`.
pub open spec fn fresh_note_row(o: crate::advance::OutV, r: int) -> NoteV {
    NoteV {
        tx: r,
        output_index: o.output_index,
        account: o.account,
        diversifier: o.diversifier,
        value: o.value,
        rcm: o.rcm,
        memo: None,
        nf: o.nf,
        is_change: o.is_change,
        spent: None,
    }
}

/// A table with no row owned by `(tx, oi)` scans to `-1`.
pub proof fn lemma_find_note_absent(notes: Seq<NoteV>, tx: int, oi: int, n: int)
    requires
        0 <= n <= notes.len(),
        forall|i: int|
            0 <= i < n ==> !(#[trigger] notes[i].tx == tx && notes[i].output_index == oi),
    ensures
        crate::advance::find_note_upto(notes, tx, oi, n) == -1,
    decreases n,
{
    if n > 0 {
        lemma_find_note_absent(notes, tx, oi, n - 1);
    }
}

/// Scanning outputs of a transaction the note table has never seen appends one
/// fresh row per output and queues its witness: no existing row is touched.
pub proof fn lemma_apply_outputs_fresh(
    st: crate::scan::ScanState,
    outs: Seq<crate::advance::OutV>,
    r: int,
    n: int,
)
    requires
        0 <= n <= outs.len(),
        forall|i: int| 0 <= i < st.notes.len() ==> #[trigger] st.notes[i].tx < r,
        forall|k1: int, k2: int|
            0 <= k1 < k2 < outs.len() ==> outs[k1].output_index != outs[k2].output_index,
    ensures
        crate::scan::apply_outputs(st, outs, r, n).notes =~= st.notes + Seq::new(
            n as nat,
            |k: int| fresh_note_row(outs[k], r),
        ),
        crate::scan::apply_outputs(st, outs, r, n).neww =~= st.neww + Seq::new(
            n as nat,
            |k: int| (st.notes.len() + k, outs[k].witness),
        ),
    decreases n,
{
    if n > 0 {
        lemma_apply_outputs_fresh(st, outs, r, n - 1);
        let prev = crate::scan::apply_outputs(st, outs, r, n - 1);
        let o = outs[n - 1];
        assert forall|i: int|
            0 <= i < prev.notes.len() implies !(#[trigger] prev.notes[i].tx == r
            && prev.notes[i].output_index == o.output_index) by {
            if i >= st.notes.len() {
                assert(prev.notes[i] == fresh_note_row(outs[i - st.notes.len()], r));
            }
        }
        lemma_find_note_absent(prev.notes, r, o.output_index, prev.notes.len() as int);
    }
}

/// Re-scanning outputs whose fresh rows already sit in the table leaves every
/// note untouched and queues the same witnesses for the same rows.
pub proof fn lemma_apply_outputs_replay(
    st: crate::scan::ScanState,
    outs: Seq<crate::advance::OutV>,
    r: int,
    n: int,
    base: int,
)
    requires
        0 <= n <= outs.len(),
        0 <= base,
        st.notes.len() == base + outs.len(),
        forall|i: int| 0 <= i < base ==> #[trigger] st.notes[i].tx < r,
        forall|k: int| 0 <= k < outs.len() ==> st.notes[base + k] == fresh_note_row(#[trigger] outs[k], r),
        forall|k1: int, k2: int|
            0 <= k1 < k2 < outs.len() ==> outs[k1].output_index != outs[k2].output_index,
    ensures
        crate::scan::apply_outputs(st, outs, r, n).notes =~= st.notes,
        crate::scan::apply_outputs(st, outs, r, n).neww =~= st.neww + Seq::new(
            n as nat,
            |k: int| (base + k, outs[k].witness),
        ),
    decreases n,
{
    if n > 0 {
        lemma_apply_outputs_replay(st, outs, r, n - 1, base);
        let prev = crate::scan::apply_outputs(st, outs, r, n - 1);
        let o = outs[n - 1];
        assert(prev.notes =~= st.notes);
        assert forall|i: int|
            0 <= i < base + n - 1 implies !(#[trigger] prev.notes[i].tx == r
            && prev.notes[i].output_index == o.output_index) by {
            if i >= base {
                assert(prev.notes[i] == fresh_note_row(outs[i - base], r));
            }
        }
        lemma_find_note_absent(prev.notes, r, o.output_index, base + n - 1);
        assert(prev.notes[base + n - 1] == fresh_note_row(o, r));
        assert(crate::advance::find_note_upto(prev.notes, r, o.output_index, base + n)
            == base + n - 1);
        crate::advance::lemma_find_note_stable(
            prev.notes,
            r,
            o.output_index,
            base + n,
            prev.notes.len() as int,
        );
        let upd = crate::advance::put_received_note_spec(
            prev.notes,
            r,
            o.output_index,
            o.account,
            o.diversifier,
            o.value,
            o.rcm,
            None,
            o.nf,
            Some(o.is_change),
        );
        assert(upd =~= prev.notes);
    }
}

/// Persisting queued witnesses appends one row per entry.
pub proof fn lemma_add_witnesses_rows(
    wits: Seq<WitV>,
    items: Seq<(int, Seq<u8>)>,
    height: int,
    n: int,
)
    requires
        0 <= n <= items.len(),
    ensures
        add_witnesses(wits, items, height, n) =~= wits + Seq::new(
            n as nat,
            |k: int| crate::advance::add_note_witness(items[k], height),
        ),
    decreases n,
{
    if n > 0 {
        lemma_add_witnesses_rows(wits, items, height, n - 1);
    }
}

/// Pruning splits over the two parts of a table.
pub proof fn lemma_prune_split(a: Seq<WitV>, b: Seq<WitV>, below: int, n: int)
    requires
        0 <= n <= b.len(),
    ensures
        prune_upto(a + b, below, a.len() as int + n) =~= prune_upto(a, below, a.len() as int)
            + prune_upto(b, below, n),
    decreases n,
{
    if n > 0 {
        lemma_prune_split(a, b, below, n - 1);
        assert((a + b)[a.len() as int + n - 1] == b[n - 1]);
    } else {
        lemma_prune_prefix(a + b, a, below, a.len() as int);
    }
}

/// Keeping rows at or below a height splits over the two parts of a table.
pub proof fn lemma_rewind_wits_split(a: Seq<WitV>, b: Seq<WitV>, h: int, n: int)
    requires
        0 <= n <= b.len(),
    ensures
        rewind_wits_upto(a + b, h, a.len() as int + n) =~= rewind_wits_upto(a, h, a.len() as int)
            + rewind_wits_upto(b, h, n),
    decreases n,
{
    if n > 0 {
        lemma_rewind_wits_split(a, b, h, n - 1);
        assert((a + b)[a.len() as int + n - 1] == b[n - 1]);
    } else {
        lemma_rewind_wits_prefix(a + b, a, h, a.len() as int);
    }
}

/// Pruning keeps a table whose every row sits at or above the floor.
pub proof fn lemma_prune_keeps_all(wits: Seq<WitV>, below: int, n: int)
    requires
        0 <= n <= wits.len(),
        forall|i: int| 0 <= i < wits.len() ==> #[trigger] wits[i].block >= below,
    ensures
        prune_upto(wits, below, n) =~= wits.take(n),
    decreases n,
{
    if n > 0 {
        lemma_prune_keeps_all(wits, below, n - 1);
    }
}

/// A rewind drops a table whose every row sits above the kept height.
pub proof fn lemma_rewind_wits_drops_all(wits: Seq<WitV>, h: int, n: int)
    requires
        0 <= n <= wits.len(),
        forall|i: int| 0 <= i < wits.len() ==> #[trigger] wits[i].block > h,
    ensures
        rewind_wits_upto(wits, h, n) =~= Seq::<WitV>::empty(),
    decreases n,
{
    if n > 0 {
        lemma_rewind_wits_drops_all(wits, h, n - 1);
    }
}


/// A note table extended with rows no observed nullifier touches stays in
/// step with the original under the same spend observations: marked notes end
/// identical on both sides, unmarked notes keep their own side's value, and
/// the extension rows are untouched.
pub proof fn lemma_apply_spends_extend(
    stx: crate::scan::ScanState,
    sty: crate::scan::ScanState,
    spends: Seq<Seq<u8>>,
    r: int,
    n: int,
)
    requires
        0 <= n <= spends.len(),
        sty.notes.len() >= stx.notes.len(),
        forall|i: int|
            0 <= i < stx.notes.len() ==> (NoteV { spent: None, ..#[trigger] stx.notes[i] })
                == (NoteV { spent: None, ..sty.notes[i] }),
        forall|j: int, k: int|
            stx.notes.len() <= j < sty.notes.len() && 0 <= k < n ==> #[trigger] sty.notes[j].nf
                != Some(#[trigger] spends[k]),
    ensures
        crate::scan::apply_spends(stx, spends, r, n).notes.len() == stx.notes.len(),
        crate::scan::apply_spends(sty, spends, r, n).notes.len() == sty.notes.len(),
        forall|i: int|
            0 <= i < stx.notes.len() ==> ((#[trigger] crate::scan::apply_spends(
                stx,
                spends,
                r,
                n,
            ).notes[i] == stx.notes[i] && crate::scan::apply_spends(sty, spends, r, n).notes[i]
                == sty.notes[i]) || (crate::scan::apply_spends(stx, spends, r, n).notes[i]
                == (NoteV { spent: Some(r), ..stx.notes[i] }) && crate::scan::apply_spends(
                sty,
                spends,
                r,
                n,
            ).notes[i] == crate::scan::apply_spends(stx, spends, r, n).notes[i])),
        forall|j: int|
            stx.notes.len() <= j < sty.notes.len() ==> #[trigger] crate::scan::apply_spends(
                sty,
                spends,
                r,
                n,
            ).notes[j] == sty.notes[j],
    decreases n,
{
    if n > 0 {
        lemma_apply_spends_extend(stx, sty, spends, r, n - 1);
        let px = crate::scan::apply_spends(stx, spends, r, n - 1);
        let py = crate::scan::apply_spends(sty, spends, r, n - 1);
        lemma_mark_spent_index(px.notes, spends[n - 1], r, px.notes.len() as int);
        lemma_mark_spent_index(py.notes, spends[n - 1], r, py.notes.len() as int);
    }
}

/// Rewinding a block of the chain and replaying it reproduces the same state.
/// Shown for a chain-extending block holding one transaction of interest, new
/// to the wallet, that both spends tracked nullifiers and delivers outputs at
/// distinct positions (none of which carries a nullifier the same transaction
/// spends): after `advance(b)`, `rewind_to` the previous tip, and `advance(b)`
/// again, every table equals its state after the first advance.
pub proof fn lemma_rewind_replay_tx(v: StoreView, b: BlockInV, h0: int)
    requires
        v.wf(),
        v.blocks.len() > 0,
        h0 == v.tip()->Some_0,
        b.height > h0,
        b.height >= 0,
        b.txs.len() == 1,
        crate::advance::find_tx(v.txs, b.txs[0].txid) == -1,
        forall|k1: int, k2: int|
            0 <= k1 < k2 < b.txs[0].outputs.len() ==> b.txs[0].outputs[k1].output_index
                != b.txs[0].outputs[k2].output_index,
        forall|j: int, k: int|
            0 <= j < b.txs[0].outputs.len() && 0 <= k < b.txs[0].spends.len()
                ==> b.txs[0].outputs[j].nf != Some(b.txs[0].spends[k]),
        forall|i: int| 0 <= i < v.wits.len() ==> #[trigger] v.wits[i].block <= h0,
        forall|i: int| 0 <= i < v.blocks.len() ==> #[trigger] v.blocks[i].height <= h0,
        forall|i: int|
            0 <= i < v.txs.len() ==> (#[trigger] v.txs[i].block matches Some(hb) ==> hb <= h0),
    ensures
        advance_spec(rewind_spec(advance_spec(v, b, Seq::empty()), h0), b, Seq::empty())
            == advance_spec(v, b, Seq::empty()),
{
    let s1 = advance_spec(v, b, Seq::empty());
    let s2 = rewind_spec(s1, h0);
    let s3 = advance_spec(s2, b, Seq::empty());
    let tx = b.txs[0];
    let outs = tx.outputs;
    let ns = tx.spends.len() as int;
    let row = block_row_of(b);
    let floor = prune_floor(b.height);
    let h = b.height;
    let r = crate::advance::put_tx_meta_ref(v.txs, tx.txid);
    assert(r == v.txs.len() as int);
    let newrow = TxV {
        txid: tx.txid,
        block: Some(h),
        tx_index: Some(tx.index),
        created: None,
        expiry_height: None,
        raw: None,
    };
    let pendrow = TxV { block: None, tx_index: None, ..newrow };
    let fresh = Seq::new(outs.len(), |k: int| fresh_note_row(outs[k], r));
    let queued = Seq::new(outs.len(), |k: int| (v.notes.len() + k, outs[k].witness));
    let newwits = Seq::new(
        queued.len(),
        |k: int| crate::advance::add_note_witness(queued[k], h),
    );

    // First scan: append the transaction row, mark the observed spends over
    // the old notes, append one fresh note per output, queue their witnesses.
    let st0 = crate::scan::scan_start(v);
    assert(crate::scan::apply_txs(st0, b.txs, h, 0) == st0);
    assert(crate::scan::apply_txs(st0, b.txs, h, 1) == crate::scan::apply_tx(st0, tx, h));
    let st1 = crate::scan::ScanState { txs: v.txs.push(newrow), ..st0 };
    assert(crate::advance::put_tx_meta_spec(v.txs, tx.txid, h, tx.index) == st1.txs);
    lemma_apply_spends_agree(st1, st1, tx.spends, r, ns);
    crate::scan::lemma_apply_spends_frame(st1, tx.spends, r, ns);
    let sts = crate::scan::apply_spends(st1, tx.spends, r, ns);
    assert forall|i: int| 0 <= i < sts.notes.len() implies #[trigger] sts.notes[i].tx < r by {
        assert(st1.notes[i] == v.notes[i]);
    }
    lemma_apply_outputs_fresh(sts, outs, r, outs.len() as int);
    crate::scan::lemma_apply_outputs_frame(sts, outs, r, outs.len() as int);
    let st = crate::scan::apply_outputs(sts, outs, r, outs.len() as int);
    assert(crate::scan::apply_tx(st0, tx, h) == st);
    assert(st.notes =~= sts.notes + fresh);
    assert(st.neww =~= queued) by {
        assert(st.neww.len() == outs.len());
        assert forall|k: int| 0 <= k < outs.len() implies #[trigger] st.neww[k] == queued[k] by {
            assert(st.neww[k] == (sts.notes.len() + k, outs[k].witness));
            assert(sts.notes.len() == v.notes.len());
            assert(queued[k] == (v.notes.len() + k, outs[k].witness));
        }
    }
    assert(s1.txs == st1.txs);
    assert(s1.blocks == v.blocks.push(row));
    lemma_update_expired_index(st.notes, st1.txs, h, st.notes.len() as int);
    assert(s1.notes == update_expired_spec(st.notes, st1.txs, h));
    assert(s1.notes.len() == v.notes.len() + outs.len());

    // Witness rows after the first advance: the old table pruned, then one row
    // per queued witness (the block's height clears the retention floor).
    lemma_add_witnesses_rows(v.wits, Seq::empty() + st.neww, h, st.neww.len() as int);
    let wits1 = add_witnesses(v.wits, Seq::empty() + st.neww, h, (Seq::empty() + st.neww).len() as int);
    assert(wits1 =~= v.wits + newwits) by {
        assert(Seq::empty() + st.neww =~= queued);
        assert forall|k: int| 0 <= k < queued.len() implies crate::advance::add_note_witness(
            (Seq::empty() + st.neww)[k],
            h,
        ) == newwits[k] by {
            assert((Seq::empty() + st.neww)[k] == queued[k]);
        }
    }
    lemma_prune_split(v.wits, newwits, floor, newwits.len() as int);
    assert forall|k: int| 0 <= k < newwits.len() implies #[trigger] newwits[k].block >= floor by {
        assert(newwits[k].block == h);
    }
    assert(prune_upto(newwits, floor, newwits.len() as int) =~= newwits) by {
        lemma_prune_keeps_all(newwits, floor, newwits.len() as int);
    }
    assert(s1.wits == prune_spec(wits1, floor));
    assert(s1.wits =~= prune_spec(v.wits, floor) + newwits);

    // The rewind keeps the blocks, returns the one transaction to pending,
    // restores exactly the notes this block marked, and drops exactly the new
    // witness rows.
    lemma_rewind_blocks_keep(v.blocks, h0, v.blocks.len() as int);
    lemma_rewind_blocks_prefix(v.blocks.push(row), v.blocks, h0, v.blocks.len() as int);
    assert(s2.blocks =~= v.blocks);
    lemma_rewind_txs_index(s1.txs, h0, s1.txs.len() as int);
    assert forall|i: int| 0 <= i < v.txs.len() implies #[trigger] s2.txs[i] == v.txs[i] by {
        assert(s1.txs[i] == v.txs[i]);
        assert(crate::rewind::unmined_tx(v.txs[i], h0) == v.txs[i]);
    }
    assert(s2.txs[v.txs.len() as int] == pendrow);
    assert(s2.txs =~= v.txs.push(pendrow));
    lemma_rewind_notes_index(s1.notes, s1.txs, h0, s1.notes.len() as int);
    lemma_rewind_wits_split(prune_spec(v.wits, floor), newwits, h0, newwits.len() as int);
    lemma_rewind_wits_prefix(s1.wits, prune_spec(v.wits, floor) + newwits, h0, s1.wits.len() as int);
    lemma_rewind_wits_prune(v.wits, floor, h0, v.wits.len() as int);
    assert(rewind_wits_upto(newwits, h0, newwits.len() as int) =~= Seq::<WitV>::empty()) by {
        lemma_rewind_wits_drops_all(newwits, h0, newwits.len() as int);
    }
    assert(s2.wits =~= prune_spec(v.wits, floor));

    // The replay mines the pending row again; the marks land on the same notes
    // (the fresh ones carry no spent nullifier), the outputs find their rows
    // already present, and the sweep and pruning have nothing left to do.
    let st0b = crate::scan::scan_start(s2);
    lemma_find_tx_prefix(s2.txs, v.txs, tx.txid, v.txs.len() as int);
    assert(crate::advance::find_tx(s2.txs, tx.txid) == v.txs.len() as int);
    let st1b = crate::scan::ScanState { txs: s2.txs.update(r, newrow), ..st0b };
    assert(crate::advance::put_tx_meta_spec(s2.txs, tx.txid, h, tx.index) == st1b.txs);
    assert(st1b.txs =~= st1.txs);
    assert(st1b.notes == s2.notes);
    assert(s2.notes.len() == v.notes.len() + outs.len());
    assert forall|i: int|
        0 <= i < v.notes.len() implies (NoteV { spent: None, ..#[trigger] st1.notes[i] })
        == (NoteV { spent: None, ..st1b.notes[i] }) by {
        assert(st1.notes[i] == v.notes[i]);
        assert(st.notes[i] == sts.notes[i]);
        assert(st1b.notes[i] == crate::rewind::rewound_note(s1.notes[i], s1.txs, h0));
    }
    assert forall|j: int, k: int|
        v.notes.len() <= j < s2.notes.len() && 0 <= k < ns implies #[trigger] st1b.notes[j].nf
        != Some(#[trigger] tx.spends[k]) by {
        let x = j - v.notes.len();
        assert(st.notes[j] == fresh[x]);
        assert(s1.notes[j] == fresh[x]);
        assert(st1b.notes[j] == crate::rewind::rewound_note(fresh[x], s1.txs, h0));
        assert(st1b.notes[j] == fresh[x]);
        assert(fresh[x].nf == outs[x].nf);
    }
    lemma_apply_spends_extend(st1, st1b, tx.spends, r, ns);
    crate::scan::lemma_apply_spends_frame(st1b, tx.spends, r, ns);
    let stsb = crate::scan::apply_spends(st1b, tx.spends, r, ns);

    // After the replay marks, the old part agrees with the first scan's marks
    // and the fresh part is intact.
    assert forall|i: int| 0 <= i < v.notes.len() implies #[trigger] stsb.notes[i].tx < r by {
        if !(stsb.notes[i] == st1b.notes[i]) {
            assert(stsb.notes[i] == sts.notes[i]);
        }
        assert(st1b.notes[i] == crate::rewind::rewound_note(s1.notes[i], s1.txs, h0));
        assert(st.notes[i] == sts.notes[i]);
    }
    assert forall|k: int|
        0 <= k < outs.len() implies stsb.notes[v.notes.len() + k] == fresh_note_row(
        #[trigger] outs[k],
        r,
    ) by {
        assert(stsb.notes[v.notes.len() + k] == st1b.notes[v.notes.len() + k]);
        assert(st.notes[v.notes.len() + k] == fresh[k]);
        assert(s1.notes[v.notes.len() + k] == fresh[k]);
        assert(st1b.notes[v.notes.len() + k] == crate::rewind::rewound_note(
            fresh[k],
            s1.txs,
            h0,
        ));
    }
    lemma_apply_outputs_replay(
        crate::scan::ScanState { notes: stsb.notes, ..st1b },
        outs,
        r,
        outs.len() as int,
        v.notes.len() as int,
    );
    crate::scan::lemma_apply_outputs_frame(
        crate::scan::ScanState { notes: stsb.notes, ..st1b },
        outs,
        r,
        outs.len() as int,
    );
    assert(stsb == (crate::scan::ScanState { notes: stsb.notes, ..st1b }));
    let stb = crate::scan::apply_outputs(stsb, outs, r, outs.len() as int);
    assert(crate::scan::apply_txs(st0b, b.txs, h, 0) == st0b);
    assert(crate::scan::apply_txs(st0b, b.txs, h, 1) == crate::scan::apply_tx(st0b, tx, h));
    assert(crate::scan::apply_tx(st0b, tx, h) == stb);
    assert(s3.txs == st1b.txs);
    assert(s3.txs =~= s1.txs);
    assert(s3.blocks =~= s1.blocks);
    assert(stb.notes =~= stsb.notes);
    assert(stb.neww =~= queued) by {
        assert(st1b.neww =~= Seq::<(int, Seq<u8>)>::empty());
        assert(stb.neww.len() == outs.len());
        assert forall|k: int| 0 <= k < outs.len() implies #[trigger] stb.neww[k] == queued[k] by {
            assert(stb.neww[k] == (v.notes.len() + k, outs[k].witness));
            assert(queued[k] == (v.notes.len() + k, outs[k].witness));
        }
    }

    // Note by note, the second sweep reproduces the first advance's notes.
    lemma_update_expired_index(stb.notes, st1b.txs, h, stb.notes.len() as int);
    assert(s3.notes == update_expired_spec(stb.notes, st1b.txs, h));
    assert forall|i: int| 0 <= i < s1.notes.len() implies #[trigger] s3.notes[i] == s1.notes[i] by {
        assert(st1b.txs =~= st1.txs);
        if i >= v.notes.len() {
            // a fresh note: unspent through every step
            let x = i - v.notes.len();
            assert(st.notes[i] == fresh[x]);
            assert(s1.notes[i] == fresh[x]);
            assert(stb.notes[i] == stsb.notes[i]);
            assert(stsb.notes[i] == fresh[x]);
            assert(s3.notes[i] == (if crate::advance::note_expired(fresh[x], st1b.txs, h) {
                NoteV { spent: None, ..fresh[x] }
            } else {
                fresh[x]
            }));
            assert(!crate::advance::note_expired(fresh[x], st1b.txs, h));
        } else if sts.notes[i] == (NoteV { spent: Some(r), ..v.notes[i] }) && stsb.notes[i]
            == sts.notes[i] {
            // marked on both scans: the sweep treats equal notes equally
            assert(st.notes[i] == sts.notes[i]);
            assert(stb.notes[i] == stsb.notes[i]);
            assert(s3.notes[i] == s1.notes[i]);
        } else {
            // untouched by the marks: the rewind and the second sweep are
            // identities on this note
            assert(sts.notes[i] == v.notes[i] && stsb.notes[i] == st1b.notes[i]);
            assert(st.notes[i] == v.notes[i]);
            assert(s1.notes[i] == (if crate::advance::note_expired(v.notes[i], st1.txs, h) {
                NoteV { spent: None, ..v.notes[i] }
            } else {
                v.notes[i]
            }));
            match s1.notes[i].spent {
                Some(t) => {
                    assert(v.notes[i].spent == Some(t));
                    assert(0 <= t < v.txs.len());
                    assert(s1.txs[t] == v.txs[t]);
                },
                None => {},
            }
            assert(crate::rewind::rewound_note(s1.notes[i], s1.txs, h0) == s1.notes[i]);
            assert(stsb.notes[i] == s1.notes[i]);
            assert(stb.notes[i] == s1.notes[i]);
            if crate::advance::note_expired(s1.notes[i], st1.txs, h) {
                assert(false);
            }
            assert(s3.notes[i] == s1.notes[i]);
        }
    }
    assert(s3.notes =~= s1.notes);

    // Witnesses: prune what was already pruned, then the same new rows.
    lemma_add_witnesses_rows(s2.wits, Seq::empty() + stb.neww, h, stb.neww.len() as int);
    let wits1b = add_witnesses(s2.wits, Seq::empty() + stb.neww, h, (Seq::empty() + stb.neww).len() as int);
    assert(wits1b =~= s2.wits + newwits) by {
        assert(Seq::empty() + stb.neww =~= queued);
        assert forall|k: int| 0 <= k < queued.len() implies crate::advance::add_note_witness(
            (Seq::empty() + stb.neww)[k],
            h,
        ) == newwits[k] by {
            assert((Seq::empty() + stb.neww)[k] == queued[k]);
        }
    }
    lemma_prune_split(s2.wits, newwits, floor, newwits.len() as int);
    lemma_prune_prefix(wits1b, s2.wits + newwits, floor, wits1b.len() as int);
    lemma_prune_idempotent(v.wits, floor, v.wits.len() as int);
    lemma_prune_prefix(s2.wits, prune_spec(v.wits, floor), floor, s2.wits.len() as int);
    assert forall|k: int| 0 <= k < newwits.len() implies #[trigger] newwits[k].block >= floor by {
        assert(newwits[k].block == h);
    }
    assert(prune_upto(newwits, floor, newwits.len() as int) =~= newwits) by {
        lemma_prune_keeps_all(newwits, floor, newwits.len() as int);
    }
    assert(s3.wits =~= s1.wits);
    assert(s3 =~= s1);
}


/// A later sweep makes an earlier one redundant: once the pending spends
/// expired below `h` are reverted, a sweep at any height up to `h` reverts
/// nothing further.
pub proof fn lemma_sweep_compose(notes: Seq<NoteV>, txs: Seq<TxV>, hlo: int, hhi: int)
    requires
        hlo <= hhi,
    ensures
        update_expired_spec(update_expired_spec(notes, txs, hlo), txs, hhi) == update_expired_spec(
            notes,
            txs,
            hhi,
        ),
        update_expired_spec(update_expired_spec(notes, txs, hhi), txs, hlo) == update_expired_spec(
            notes,
            txs,
            hhi,
        ),
{
    let lo = update_expired_spec(notes, txs, hlo);
    let hi = update_expired_spec(notes, txs, hhi);
    lemma_update_expired_index(notes, txs, hlo, notes.len() as int);
    lemma_update_expired_index(notes, txs, hhi, notes.len() as int);
    lemma_update_expired_index(lo, txs, hhi, lo.len() as int);
    lemma_update_expired_index(hi, txs, hlo, hi.len() as int);
    assert(update_expired_spec(lo, txs, hhi) =~= hi);
    assert(update_expired_spec(hi, txs, hlo) =~= hi);
}

/// A deeper pruning makes a shallower one redundant.
pub proof fn lemma_prune_compose(wits: Seq<WitV>, lo: int, hi: int, n: int)
    requires
        lo <= hi,
        0 <= n <= wits.len(),
    ensures
        prune_upto(
            prune_upto(wits, lo, n),
            hi,
            prune_upto(wits, lo, n).len() as int,
        ) =~= prune_upto(wits, hi, n),
    decreases n,
{
    if n > 0 {
        lemma_prune_compose(wits, lo, hi, n - 1);
        let prev = prune_upto(wits, lo, n - 1);
        if wits[n - 1].block >= lo {
            lemma_prune_prefix(prev.push(wits[n - 1]), prev, hi, prev.len() as int);
        }
    }
}

/// What a chain of advances does when no block carries a transaction of
/// interest: blocks appended, notes swept at the last height, witnesses pruned
/// at the deepest floor, everything else untouched.
pub proof fn lemma_chain_scan_form(v: StoreView, bs: Seq<BlockInV>, n: int)
    requires
        1 <= n <= bs.len(),
        forall|i: int, j: int| 0 <= i < j < bs.len() ==> bs[i].height < bs[j].height,
        forall|k: int| 0 <= k < bs.len() ==> #[trigger] bs[k].txs.len() == 0,
    ensures
        chain_of(v, bs, n).blocks == v.blocks + bs.take(n).map_values(
            |b: BlockInV| block_row_of(b),
        ),
        chain_of(v, bs, n).txs == v.txs,
        chain_of(v, bs, n).notes == update_expired_spec(v.notes, v.txs, bs[n - 1].height),
        chain_of(v, bs, n).wits =~= prune_spec(v.wits, prune_floor(bs[n - 1].height)),
        chain_of(v, bs, n).accounts == v.accounts,
        chain_of(v, bs, n).sent == v.sent,
    decreases n,
{
    lemma_chain_blocks(v, bs, n);
    let prev = chain_of(v, bs, n - 1);
    let b = bs[n - 1];
    assert(crate::scan::apply_txs(crate::scan::scan_start(prev), b.txs, b.height, 0)
        == crate::scan::scan_start(prev));
    assert(chain_of(v, bs, n).wits == prune_spec(
        add_witnesses(prev.wits, Seq::empty() + Seq::empty(), b.height, 0),
        prune_floor(b.height),
    ));
    if n == 1 {
        assert(prev == v);
    } else {
        lemma_chain_scan_form(v, bs, n - 1);
        lemma_sweep_compose(v.notes, v.txs, bs[n - 2].height, b.height);
        assert(prune_floor(bs[n - 2].height) <= prune_floor(b.height));
        lemma_prune_compose(
            v.wits,
            prune_floor(bs[n - 2].height),
            prune_floor(b.height),
            v.wits.len() as int,
        );
        assert(prune_upto(prev.wits, prune_floor(b.height), prev.wits.len() as int) =~= prune_spec(
            v.wits,
            prune_floor(b.height),
        )) by {
            lemma_prune_prefix(
                prev.wits,
                prune_spec(v.wits, prune_floor(bs[n - 2].height)),
                prune_floor(b.height),
                prev.wits.len() as int,
            );
        }
    }
}

/// Rewinding a run of scanned blocks and replaying them in order reproduces
/// the same state, shown for blocks that carry tree growth but no transactions
/// of interest: after advancing `bs` in order, `rewind_to` the tip the chain
/// stood at before them, then advancing the same `bs` again, every table
/// equals its state after the first run.
pub proof fn lemma_rewind_replay_scan(v: StoreView, bs: Seq<BlockInV>, h0: int)
    requires
        v.wf(),
        v.blocks.len() > 0,
        h0 == v.tip()->Some_0,
        bs.len() >= 1,
        bs[0].height > h0,
        forall|i: int, j: int| 0 <= i < j < bs.len() ==> bs[i].height < bs[j].height,
        forall|k: int| 0 <= k < bs.len() ==> #[trigger] bs[k].txs.len() == 0,
        forall|i: int| 0 <= i < v.wits.len() ==> #[trigger] v.wits[i].block <= h0,
        forall|i: int| 0 <= i < v.blocks.len() ==> #[trigger] v.blocks[i].height <= h0,
        forall|i: int|
            0 <= i < v.txs.len() ==> (#[trigger] v.txs[i].block matches Some(hb) ==> hb <= h0),
    ensures
        chain_of(rewind_spec(chain_of(v, bs, bs.len() as int), h0), bs, bs.len() as int)
            == chain_of(v, bs, bs.len() as int),
{
    let n = bs.len() as int;
    let hlast = bs[n - 1].height;
    let floor = prune_floor(hlast);
    let rows = bs.take(n).map_values(|b: BlockInV| block_row_of(b));
    let swept = update_expired_spec(v.notes, v.txs, hlast);
    lemma_chain_scan_form(v, bs, n);
    let s1 = chain_of(v, bs, n);
    let s2 = rewind_spec(s1, h0);
    assert(s1.blocks == v.blocks + rows);
    assert(s1.txs == v.txs);
    assert(s1.notes == swept);
    assert(s1.wits =~= prune_spec(v.wits, floor));

    // Rewinding to the old tip drops exactly the advanced block rows: every
    // one of them sits above it.
    lemma_rewind_blocks_keep(v.blocks, h0, v.blocks.len() as int);
    lemma_rewind_blocks_prefix(v.blocks + rows, v.blocks, h0, v.blocks.len() as int);
    assert forall|k: int| 0 <= k < rows.len() implies #[trigger] rows[k].height > h0 by {
        assert(rows[k] == block_row_of(bs[k]));
        assert(bs[0].height <= bs[k].height);
    }
    lemma_rewind_blocks_drop(v.blocks, rows, h0, rows.len() as int);
    assert(s2.blocks =~= v.blocks);

    // No transaction was mined by the scans, so none is un-mined by the rewind
    // and no spent flag is restored; the kept witnesses are exactly the pruned
    // old ones.
    lemma_rewind_txs_id(v.txs, h0, v.txs.len() as int);
    assert(s2.txs =~= v.txs);
    lemma_rewind_notes_id(swept, v, hlast, h0, swept.len() as int);
    lemma_update_expired_index(v.notes, v.txs, hlast, v.notes.len() as int);
    assert(s2.notes =~= swept);
    lemma_rewind_wits_prune(v.wits, floor, h0, v.wits.len() as int);
    lemma_rewind_wits_prefix(s1.wits, prune_spec(v.wits, floor), h0, s1.wits.len() as int);
    assert(s2.wits =~= prune_spec(v.wits, floor));

    // Replaying the same blocks sweeps the already-swept notes and prunes the
    // already-pruned witnesses: nothing is left for either to do.
    lemma_chain_scan_form(s2, bs, n);
    let s3 = chain_of(s2, bs, n);
    assert(s3.blocks =~= s1.blocks);
    assert(s3.txs =~= s1.txs);
    lemma_update_expired_index(swept, v.txs, hlast, swept.len() as int);
    lemma_sweep_compose(v.notes, v.txs, hlast, hlast);
    assert(s3.notes == update_expired_spec(s2.notes, s2.txs, hlast));
    assert(update_expired_spec(s2.notes, s2.txs, hlast) =~= swept) by {
        assert(s2.notes =~= swept && s2.txs =~= v.txs);
        assert(update_expired_spec(swept, v.txs, hlast) =~= swept);
    }
    lemma_prune_idempotent(v.wits, floor, v.wits.len() as int);
    lemma_prune_prefix(s2.wits, prune_spec(v.wits, floor), floor, s2.wits.len() as int);
    assert(s3.wits =~= prune_spec(prune_spec(v.wits, floor), floor));
    assert(s3.wits =~= s1.wits);
    assert(s3 =~= s1);
}

/// Appended rows above the kept height are all dropped by a rewind.
pub proof fn lemma_rewind_blocks_drop(
    blocks: Seq<crate::types::BlockV>,
    rows: Seq<crate::types::BlockV>,
    h: int,
    n: int,
)
    requires
        0 <= n <= rows.len(),
        forall|k: int| 0 <= k < rows.len() ==> #[trigger] rows[k].height > h,
    ensures
        rewind_blocks_upto(blocks + rows, h, blocks.len() as int + n) =~= rewind_blocks_upto(
            blocks,
            h,
            blocks.len() as int,
        ),
    decreases n,
{
    if n > 0 {
        lemma_rewind_blocks_drop(blocks, rows, h, n - 1);
        assert((blocks + rows)[blocks.len() as int + n - 1] == rows[n - 1]);
    } else {
        lemma_rewind_blocks_prefix(blocks + rows, blocks, h, blocks.len() as int);
    }
}


/// The row a successful transaction scan names holds the id it looked for.
pub proof fn lemma_find_tx_found(txs: Seq<TxV>, txid: Seq<u8>, n: int)
    requires
        0 <= n <= txs.len(),
        crate::advance::find_tx_upto(txs, txid, n) >= 0,
    ensures
        txs[crate::advance::find_tx_upto(txs, txid, n)].txid == txid,
    decreases n,
{
    if n > 0 {
        if crate::advance::find_tx_upto(txs, txid, n - 1) >= 0 {
            lemma_find_tx_found(txs, txid, n - 1);
        }
    }
}

/// The note's nullifier is among the first `k` observed spends.
pub open spec fn nf_observed(n: NoteV, spends: Seq<Seq<u8>>, k: int) -> bool {
    exists|j: int| 0 <= j < k && n.nf == Some(#[trigger] spends[j])
}

/// Two note tables that differ at most in their spent-by fields stay in step
/// under the same spend observations, case by nullifier: a note whose
/// nullifier is observed ends spent by `r` on both sides, identically; any
/// other note keeps its own side's value.
pub proof fn lemma_apply_spends_match(
    stx: crate::scan::ScanState,
    sty: crate::scan::ScanState,
    spends: Seq<Seq<u8>>,
    r: int,
    n: int,
)
    requires
        0 <= n,
        stx.notes.len() == sty.notes.len(),
        forall|i: int|
            0 <= i < stx.notes.len() ==> (NoteV { spent: None, ..#[trigger] stx.notes[i] })
                == (NoteV { spent: None, ..sty.notes[i] }),
    ensures
        crate::scan::apply_spends(stx, spends, r, n).notes.len() == stx.notes.len(),
        crate::scan::apply_spends(sty, spends, r, n).notes.len() == stx.notes.len(),
        forall|i: int|
            0 <= i < stx.notes.len() && nf_observed(#[trigger] stx.notes[i], spends, n)
                ==> crate::scan::apply_spends(stx, spends, r, n).notes[i] == (NoteV {
                spent: Some(r),
                ..stx.notes[i]
            }) && crate::scan::apply_spends(sty, spends, r, n).notes[i]
                == crate::scan::apply_spends(stx, spends, r, n).notes[i],
        forall|i: int|
            0 <= i < stx.notes.len() && !nf_observed(#[trigger] stx.notes[i], spends, n)
                ==> crate::scan::apply_spends(stx, spends, r, n).notes[i] == stx.notes[i]
                && crate::scan::apply_spends(sty, spends, r, n).notes[i] == sty.notes[i],
    decreases n,
{
    if n > 0 {
        lemma_apply_spends_match(stx, sty, spends, r, n - 1);
        let px = crate::scan::apply_spends(stx, spends, r, n - 1);
        let py = crate::scan::apply_spends(sty, spends, r, n - 1);
        lemma_mark_spent_index(px.notes, spends[n - 1], r, px.notes.len() as int);
        lemma_mark_spent_index(py.notes, spends[n - 1], r, py.notes.len() as int);
        let zx = crate::scan::apply_spends(stx, spends, r, n);
        let zy = crate::scan::apply_spends(sty, spends, r, n);
        assert forall|i: int|
            0 <= i < stx.notes.len() && nf_observed(#[trigger] stx.notes[i], spends, n) implies
            zx.notes[i] == (NoteV { spent: Some(r), ..stx.notes[i] }) && zy.notes[i]
            == zx.notes[i] by {
            if nf_observed(stx.notes[i], spends, n - 1) {
                assert(px.notes[i] == (NoteV { spent: Some(r), ..stx.notes[i] }));
                assert(px.notes[i].nf == stx.notes[i].nf);
                assert(py.notes[i].nf == sty.notes[i].nf);
            } else {
                let j = choose|j: int| 0 <= j < n && stx.notes[i].nf == Some(#[trigger] spends[j]);
                assert(j == n - 1);
                assert(px.notes[i] == stx.notes[i] && py.notes[i] == sty.notes[i]);
            }
            assert(stx.notes[i].nf == sty.notes[i].nf);
        }
        assert forall|i: int|
            0 <= i < stx.notes.len() && !nf_observed(#[trigger] stx.notes[i], spends, n) implies
            zx.notes[i] == stx.notes[i] && zy.notes[i] == sty.notes[i] by {
            assert(!nf_observed(stx.notes[i], spends, n - 1));
            assert(stx.notes[i].nf != Some(spends[n - 1]));
            assert(px.notes[i] == stx.notes[i] && py.notes[i] == sty.notes[i]);
            assert(sty.notes[i].nf == stx.notes[i].nf);
        }
    }
}

/// Rewinding the block that mined one of the wallet's own pending
/// transactions and replaying it reproduces the same state: the rewind returns
/// the transaction to pending and unlocks its input notes; the replay mines it
/// and locks them again. Shown for a chain-extending block holding that one
/// transaction (no outputs of interest), where every note the pending
/// transaction locks carries a nullifier the block observes — as a mined
/// transaction's spends do.
pub proof fn lemma_rewind_replay_pending(v: StoreView, b: BlockInV, h0: int)
    requires
        v.wf(),
        v.blocks.len() > 0,
        h0 == v.tip()->Some_0,
        b.height > h0,
        b.txs.len() == 1,
        b.txs[0].outputs.len() == 0,
        ({
            let p = crate::advance::find_tx(v.txs, b.txs[0].txid);
            0 <= p && v.txs[p].block is None && v.txs[p].tx_index is None
        }),
        forall|i: int|
            0 <= i < v.notes.len() && #[trigger] v.notes[i].spent == Some(
                crate::advance::find_tx(v.txs, b.txs[0].txid),
            ) ==> nf_observed(v.notes[i], b.txs[0].spends, b.txs[0].spends.len() as int),
        forall|i: int| 0 <= i < v.wits.len() ==> #[trigger] v.wits[i].block <= h0,
        forall|i: int| 0 <= i < v.blocks.len() ==> #[trigger] v.blocks[i].height <= h0,
        forall|i: int|
            0 <= i < v.txs.len() ==> (#[trigger] v.txs[i].block matches Some(hb) ==> hb <= h0),
    ensures
        advance_spec(rewind_spec(advance_spec(v, b, Seq::empty()), h0), b, Seq::empty())
            == advance_spec(v, b, Seq::empty()),
{
    let s1 = advance_spec(v, b, Seq::empty());
    let s2 = rewind_spec(s1, h0);
    let s3 = advance_spec(s2, b, Seq::empty());
    let tx = b.txs[0];
    let ns = tx.spends.len() as int;
    let row = block_row_of(b);
    let floor = prune_floor(b.height);
    let h = b.height;
    let p = crate::advance::find_tx(v.txs, tx.txid);
    assert(crate::advance::put_tx_meta_ref(v.txs, tx.txid) == p);
    crate::scan::lemma_find_tx_range(v.txs, tx.txid, v.txs.len() as int);
    lemma_find_tx_found(v.txs, tx.txid, v.txs.len() as int);
    let minedrow = TxV { block: Some(h), tx_index: Some(tx.index), ..v.txs[p] };

    // First scan: mine the pending row, mark the observed spends.
    let st0 = crate::scan::scan_start(v);
    assert(crate::scan::apply_txs(st0, b.txs, h, 0) == st0);
    assert(crate::scan::apply_txs(st0, b.txs, h, 1) == crate::scan::apply_tx(st0, tx, h));
    let st1 = crate::scan::ScanState { txs: v.txs.update(p, minedrow), ..st0 };
    assert(crate::advance::put_tx_meta_spec(v.txs, tx.txid, h, tx.index) == st1.txs);
    lemma_apply_spends_match(st1, st1, tx.spends, p, ns);
    crate::scan::lemma_apply_spends_frame(st1, tx.spends, p, ns);
    let stx = crate::scan::apply_spends(st1, tx.spends, p, ns);
    assert(crate::scan::apply_tx(st0, tx, h) == stx);
    assert(s1.txs == st1.txs);
    assert(s1.wits == prune_spec(add_witnesses(v.wits, Seq::empty() + stx.neww, h, 0), floor));
    assert(s1.wits == prune_spec(v.wits, floor));
    assert(s1.blocks == v.blocks.push(row));
    lemma_update_expired_index(stx.notes, st1.txs, h, stx.notes.len() as int);
    assert(s1.notes == update_expired_spec(stx.notes, st1.txs, h));

    // The rewind keeps the blocks, returns the transaction to pending exactly
    // as it stood, unlocks the notes it spent, and keeps the pruned witnesses.
    lemma_rewind_blocks_keep(v.blocks, h0, v.blocks.len() as int);
    lemma_rewind_blocks_prefix(v.blocks.push(row), v.blocks, h0, v.blocks.len() as int);
    assert(s2.blocks =~= v.blocks);
    lemma_rewind_txs_index(s1.txs, h0, s1.txs.len() as int);
    assert forall|i: int| 0 <= i < v.txs.len() implies #[trigger] s2.txs[i] == v.txs[i] by {
        if i != p {
            assert(s1.txs[i] == v.txs[i]);
            assert(crate::rewind::unmined_tx(v.txs[i], h0) == v.txs[i]);
        } else {
            assert(s1.txs[p] == minedrow);
            assert(crate::rewind::unmined_tx(minedrow, h0) == (TxV {
                block: None,
                tx_index: None,
                ..minedrow
            }));
        }
    }
    assert(s2.txs =~= v.txs);
    lemma_rewind_notes_index(s1.notes, s1.txs, h0, s1.notes.len() as int);
    lemma_rewind_wits_prune(v.wits, floor, h0, v.wits.len() as int);
    lemma_rewind_wits_prefix(s1.wits, prune_spec(v.wits, floor), h0, s1.wits.len() as int);
    assert(s2.wits =~= prune_spec(v.wits, floor));

    // The replay mines the pending row again and re-marks the same notes; the
    // sweep and the pruning find nothing further to do.
    let st0b = crate::scan::scan_start(s2);
    assert(s2.txs == v.txs);
    assert(crate::advance::find_tx(s2.txs, tx.txid) == p);
    let st1b = crate::scan::ScanState { txs: s2.txs.update(p, TxV {
        block: Some(h),
        tx_index: Some(tx.index),
        ..s2.txs[p]
    }), ..st0b };
    assert(crate::advance::put_tx_meta_spec(s2.txs, tx.txid, h, tx.index) == st1b.txs);
    assert(st1b.txs =~= st1.txs);
    assert(st1b.notes == s2.notes);
    assert(s2.notes.len() == v.notes.len());
    assert forall|i: int|
        0 <= i < v.notes.len() implies (NoteV { spent: None, ..#[trigger] st1.notes[i] })
        == (NoteV { spent: None, ..st1b.notes[i] }) by {
        assert(st1.notes[i] == v.notes[i]);
        assert(st1b.notes[i] == crate::rewind::rewound_note(s1.notes[i], s1.txs, h0));
        if nf_observed(v.notes[i], tx.spends, ns) {
            assert(stx.notes[i] == (NoteV { spent: Some(p), ..v.notes[i] }));
        } else {
            assert(stx.notes[i] == v.notes[i]);
        }
    }
    lemma_apply_spends_match(st1, st1b, tx.spends, p, ns);
    crate::scan::lemma_apply_spends_frame(st1b, tx.spends, p, ns);
    let stb = crate::scan::apply_spends(st1b, tx.spends, p, ns);
    assert(crate::scan::apply_txs(st0b, b.txs, h, 0) == st0b);
    assert(crate::scan::apply_tx(st0b, tx, h) == stb);
    assert(crate::scan::apply_txs(st0b, b.txs, h, 1) == stb);
    assert(s3.txs == st1b.txs);
    assert(s3.txs =~= s1.txs);
    assert(s3.blocks =~= s1.blocks);

    lemma_prune_idempotent(v.wits, floor, v.wits.len() as int);
    lemma_prune_prefix(s2.wits, prune_spec(v.wits, floor), floor, s2.wits.len() as int);
    assert(s3.wits == prune_spec(add_witnesses(s2.wits, Seq::empty() + stb.neww, h, 0), floor));
    assert(s3.wits =~= s1.wits);

    // Note by note: an observed note ends spent by the mined transaction on
    // both runs; any other note was untouched by the marks, left alone by the
    // rewind, and the second sweep finds it as the first left it.
    lemma_update_expired_index(stb.notes, st1b.txs, h, stb.notes.len() as int);
    assert(s3.notes == update_expired_spec(stb.notes, st1b.txs, h));
    assert forall|i: int| 0 <= i < s1.notes.len() implies #[trigger] s3.notes[i] == s1.notes[i] by {
        assert(st1b.txs =~= st1.txs);
        assert(st1.txs[p] == minedrow);
        if nf_observed(v.notes[i], tx.spends, ns) {
            // marked on both runs; its spender is mined, so no sweep touches it
            assert(stx.notes[i] == (NoteV { spent: Some(p), ..v.notes[i] }));
            assert(stb.notes[i] == stx.notes[i]);
            assert(!crate::advance::note_expired(stx.notes[i], st1.txs, h));
            assert(s1.notes[i] == stx.notes[i]);
            assert(s3.notes[i] == stx.notes[i]);
        } else {
            // never marked: its spender is not this transaction
            assert(stx.notes[i] == v.notes[i]);
            assert(v.notes[i].spent != Some(p));
            assert(s1.notes[i] == (if crate::advance::note_expired(v.notes[i], st1.txs, h) {
                NoteV { spent: None, ..v.notes[i] }
            } else {
                v.notes[i]
            }));
            match s1.notes[i].spent {
                Some(t) => {
                    assert(v.notes[i].spent == Some(t));
                    assert(0 <= t < v.txs.len());
                    assert(t != p);
                    assert(s1.txs[t] == v.txs[t]);
                },
                None => {},
            }
            assert(crate::rewind::rewound_note(s1.notes[i], s1.txs, h0) == s1.notes[i]);
            assert(st1b.notes[i] == s1.notes[i]);
            assert(stb.notes[i] == s1.notes[i]);
            if crate::advance::note_expired(s1.notes[i], st1.txs, h) {
                assert(false);
            }
            assert(s3.notes[i] == s1.notes[i]);
        }
    }
    assert(s3.notes =~= s1.notes);
    assert(s3 =~= s1);
}

} // verus!
