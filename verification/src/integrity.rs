use vstd::prelude::*;

use crate::advance::{
    BlockInV, BlockTxV, OutV, find_tx_upto, lemma_mark_spent_index,
    lemma_update_expired_index, mark_spent_spec, prune_upto, put_received_note_spec,
    put_tx_data_spec, put_tx_meta_ref, put_tx_meta_spec, update_expired_spec,
};
use crate::scan::{
    ScanState, add_witnesses, advance_spec, apply_outputs, apply_spends, apply_tx, apply_txs,
    height_ok, lemma_apply_outputs_frame, lemma_apply_spends_frame, lemma_find_note_range,
    lemma_find_tx_range, scan_start, witnesses_ok,
};
use crate::store::StoreView;
use crate::txstore::{
    DecOutV, ReceivedTxV, SentTxV, apply_dec_outputs, find_sent_upto, mark_all_spent,
    put_sent_note_spec, store_received_tx_spec, store_sent_tx_spec,
};
use crate::types::{NoteV, SentV, TxV, WitV};

verus! {

/// A scan at `-1` means the id is on no row among the first `n`.
pub proof fn lemma_find_tx_none(txs: Seq<TxV>, txid: Seq<u8>, n: int)
    requires
        0 <= n <= txs.len(),
        find_tx_upto(txs, txid, n) == -1,
    ensures
        forall|i: int| 0 <= i < n ==> #[trigger] txs[i].txid != txid,
    decreases n,
{
    if n > 0 {
        lemma_find_tx_range(txs, txid, n - 1);
        lemma_find_tx_none(txs, txid, n - 1);
    }
}

/// Table invariants the transaction upserts keep: ids stay unique and the
/// table only grows.
pub open spec fn txs_ok(txs: Seq<TxV>) -> bool {
    forall|i: int, j: int| 0 <= i < j < txs.len() ==> txs[i].txid != txs[j].txid
}

/// Row invariants of the note table against a transaction table of length `tl`.
pub open spec fn notes_ok(notes: Seq<NoteV>, tl: int) -> bool {
    forall|i: int|
        #![trigger notes[i].tx]
        #![trigger notes[i].spent]
        0 <= i < notes.len() ==> 0 <= notes[i].tx < tl && (notes[i].spent matches Some(t) ==> 0
            <= t < tl)
}

/// Row invariants of the sent-note table against a transaction table of
/// length `tl`.
pub open spec fn sent_ok(sent: Seq<SentV>, tl: int) -> bool {
    forall|i: int| 0 <= i < sent.len() ==> 0 <= #[trigger] sent[i].tx < tl
}

/// Row invariants of the witness table against a note table of length `nl`.
pub open spec fn wits_ok(wits: Seq<WitV>, nl: int) -> bool {
    forall|i: int| 0 <= i < wits.len() ==> 0 <= #[trigger] wits[i].note < nl
}

/// The transaction-metadata upsert keeps ids unique and never shrinks the
/// table; the row it names exists.
pub proof fn lemma_put_tx_meta_ok(txs: Seq<TxV>, txid: Seq<u8>, h: int, ix: int)
    requires
        txs_ok(txs),
    ensures
        txs_ok(put_tx_meta_spec(txs, txid, h, ix)),
        txs.len() <= put_tx_meta_spec(txs, txid, h, ix).len(),
        0 <= put_tx_meta_ref(txs, txid) < put_tx_meta_spec(txs, txid, h, ix).len(),
{
    lemma_find_tx_range(txs, txid, txs.len() as int);
    if find_tx_upto(txs, txid, txs.len() as int) == -1 {
        lemma_find_tx_none(txs, txid, txs.len() as int);
    }
}

/// The transaction-data upsert keeps ids unique and never shrinks the table;
/// the row it names exists.
pub proof fn lemma_put_tx_data_ok(txs: Seq<TxV>, txid: Seq<u8>, c: Option<int>, e: int, raw: Seq<u8>)
    requires
        txs_ok(txs),
    ensures
        txs_ok(put_tx_data_spec(txs, txid, c, e, raw)),
        txs.len() <= put_tx_data_spec(txs, txid, c, e, raw).len(),
        0 <= put_tx_meta_ref(txs, txid) < put_tx_data_spec(txs, txid, c, e, raw).len(),
{
    lemma_find_tx_range(txs, txid, txs.len() as int);
    if find_tx_upto(txs, txid, txs.len() as int) == -1 {
        lemma_find_tx_none(txs, txid, txs.len() as int);
    }
}

/// Marking a spend keeps every note's references valid when the spender's row
/// exists.
pub proof fn lemma_mark_spent_ok(notes: Seq<NoteV>, nf: Seq<u8>, tx: int, tl: int)
    requires
        notes_ok(notes, tl),
        0 <= tx < tl,
    ensures
        notes_ok(mark_spent_spec(notes, nf, tx), tl),
        mark_spent_spec(notes, nf, tx).len() == notes.len(),
{
    lemma_mark_spent_index(notes, nf, tx, notes.len() as int);
}

/// The received-note upsert keeps every reference valid when the owning row
/// exists, and never shrinks the table.
pub proof fn lemma_put_received_note_ok(
    notes: Seq<NoteV>,
    tx: int,
    oi: int,
    account: int,
    d: Seq<u8>,
    value: int,
    rcm: Seq<u8>,
    memo: Option<Seq<u8>>,
    nf: Option<Seq<u8>>,
    ic: Option<bool>,
    tl: int,
)
    requires
        notes_ok(notes, tl),
        0 <= tx < tl,
    ensures
        notes_ok(put_received_note_spec(notes, tx, oi, account, d, value, rcm, memo, nf, ic), tl),
        notes.len() <= put_received_note_spec(
            notes,
            tx,
            oi,
            account,
            d,
            value,
            rcm,
            memo,
            nf,
            ic,
        ).len(),
{
    lemma_find_note_range(notes, tx, oi, notes.len() as int);
    let out = put_received_note_spec(notes, tx, oi, account, d, value, rcm, memo, nf, ic);
    let f = crate::advance::find_note(notes, tx, oi);
    assert forall|q: int| 0 <= q < out.len() implies 0 <= #[trigger] out[q].tx < tl && (
    out[q].spent matches Some(t) ==> 0 <= t < tl) by {
        if f >= 0 {
            if q != f {
                assert(out[q] == notes[q]);
            }
        } else {
            if q < notes.len() {
                assert(out[q] == notes[q]);
            }
        }
    }
}

/// Scanning spends keeps the note invariants.
pub proof fn lemma_apply_spends_ok(st: ScanState, spends: Seq<Seq<u8>>, tx_ref: int, n: int, tl: int)
    requires
        0 <= n,
        notes_ok(st.notes, tl),
        0 <= tx_ref < tl,
    ensures
        notes_ok(apply_spends(st, spends, tx_ref, n).notes, tl),
        apply_spends(st, spends, tx_ref, n).notes.len() == st.notes.len(),
    decreases n,
{
    if n > 0 {
        lemma_apply_spends_ok(st, spends, tx_ref, n - 1, tl);
        lemma_mark_spent_ok(apply_spends(st, spends, tx_ref, n - 1).notes, spends[n - 1], tx_ref, tl);
    }
}

/// Scanning outputs keeps the note invariants and queues only witnesses of
/// notes that exist.
pub proof fn lemma_apply_outputs_ok(st: ScanState, outs: Seq<OutV>, tx_ref: int, n: int, tl: int)
    requires
        0 <= n,
        notes_ok(st.notes, tl),
        0 <= tx_ref < tl,
        forall|k: int| 0 <= k < st.neww.len() ==> 0 <= #[trigger] st.neww[k].0 < st.notes.len(),
    ensures
        notes_ok(apply_outputs(st, outs, tx_ref, n).notes, tl),
        st.notes.len() <= apply_outputs(st, outs, tx_ref, n).notes.len(),
        forall|k: int|
            0 <= k < apply_outputs(st, outs, tx_ref, n).neww.len() ==> 0 <= #[trigger] apply_outputs(
                st,
                outs,
                tx_ref,
                n,
            ).neww[k].0 < apply_outputs(st, outs, tx_ref, n).notes.len(),
    decreases n,
{
    if n > 0 {
        lemma_apply_outputs_ok(st, outs, tx_ref, n - 1, tl);
        let prev = apply_outputs(st, outs, tx_ref, n - 1);
        let o = outs[n - 1];
        lemma_find_note_range(prev.notes, tx_ref, o.output_index, prev.notes.len() as int);
        lemma_put_received_note_ok(
            prev.notes,
            tx_ref,
            o.output_index,
            o.account,
            o.diversifier,
            o.value,
            o.rcm,
            None,
            o.nf,
            Some(o.is_change),
            tl,
        );
    }
}

/// One scanned transaction keeps every table invariant.
pub proof fn lemma_apply_tx_ok(st: ScanState, tx: BlockTxV, height: int)
    requires
        txs_ok(st.txs),
        notes_ok(st.notes, st.txs.len() as int),
        forall|k: int| 0 <= k < st.neww.len() ==> 0 <= #[trigger] st.neww[k].0 < st.notes.len(),
    ensures
        txs_ok(apply_tx(st, tx, height).txs),
        notes_ok(apply_tx(st, tx, height).notes, apply_tx(st, tx, height).txs.len() as int),
        forall|k: int|
            0 <= k < apply_tx(st, tx, height).neww.len() ==> 0 <= #[trigger] apply_tx(
                st,
                tx,
                height,
            ).neww[k].0 < apply_tx(st, tx, height).notes.len(),
        st.txs.len() <= apply_tx(st, tx, height).txs.len(),
        st.notes.len() <= apply_tx(st, tx, height).notes.len(),
{
    let r = put_tx_meta_ref(st.txs, tx.txid);
    lemma_put_tx_meta_ok(st.txs, tx.txid, height, tx.index);
    let st1 = ScanState { txs: put_tx_meta_spec(st.txs, tx.txid, height, tx.index), ..st };
    let tl = st1.txs.len() as int;
    assert(notes_ok(st1.notes, tl));
    lemma_apply_spends_ok(st1, tx.spends, r, tx.spends.len() as int, tl);
    lemma_apply_spends_frame(st1, tx.spends, r, tx.spends.len() as int);
    let st2 = apply_spends(st1, tx.spends, r, tx.spends.len() as int);
    lemma_apply_outputs_ok(st2, tx.outputs, r, tx.outputs.len() as int, tl);
    lemma_apply_outputs_frame(st2, tx.outputs, r, tx.outputs.len() as int);
}

/// A whole block scan keeps every table invariant.
pub proof fn lemma_apply_txs_ok(st: ScanState, txs: Seq<BlockTxV>, height: int, n: int)
    requires
        0 <= n <= txs.len(),
        txs_ok(st.txs),
        notes_ok(st.notes, st.txs.len() as int),
        forall|k: int| 0 <= k < st.neww.len() ==> 0 <= #[trigger] st.neww[k].0 < st.notes.len(),
    ensures
        txs_ok(apply_txs(st, txs, height, n).txs),
        notes_ok(apply_txs(st, txs, height, n).notes, apply_txs(st, txs, height, n).txs.len() as int),
        forall|k: int|
            0 <= k < apply_txs(st, txs, height, n).neww.len() ==> 0 <= #[trigger] apply_txs(
                st,
                txs,
                height,
                n,
            ).neww[k].0 < apply_txs(st, txs, height, n).notes.len(),
        st.txs.len() <= apply_txs(st, txs, height, n).txs.len(),
        st.notes.len() <= apply_txs(st, txs, height, n).notes.len(),
    decreases n,
{
    if n > 0 {
        lemma_apply_txs_ok(st, txs, height, n - 1);
        lemma_apply_tx_ok(apply_txs(st, txs, height, n - 1), txs[n - 1], height);
    }
}

/// Persisting queued witnesses keeps every witness pointing at a note that
/// exists.
pub proof fn lemma_add_witnesses_ok(
    wits: Seq<WitV>,
    items: Seq<(int, Seq<u8>)>,
    height: int,
    n: int,
    nl: int,
)
    requires
        0 <= n <= items.len(),
        wits_ok(wits, nl),
        forall|k: int| 0 <= k < items.len() ==> 0 <= #[trigger] items[k].0 < nl,
    ensures
        wits_ok(add_witnesses(wits, items, height, n), nl),
    decreases n,
{
    if n > 0 {
        lemma_add_witnesses_ok(wits, items, height, n - 1, nl);
    }
}

/// Pruning keeps every witness invariant: it only drops rows.
pub proof fn lemma_prune_ok(wits: Seq<WitV>, below: int, n: int, nl: int)
    requires
        0 <= n <= wits.len(),
        wits_ok(wits, nl),
    ensures
        wits_ok(prune_upto(wits, below, n), nl),
    decreases n,
{
    if n > 0 {
        lemma_prune_ok(wits, below, n - 1, nl);
    }
}

/// In a sorted block table every height is at most the last one.
pub proof fn lemma_sorted_last(blocks: Seq<crate::types::BlockV>)
    requires
        blocks.len() > 0,
        forall|i: int, j: int| 0 <= i < j < blocks.len() ==> blocks[i].height < blocks[j].height,
    ensures
        forall|i: int| 0 <= i < blocks.len() ==> #[trigger] blocks[i].height <= blocks.last().height,
{
}

/// A successful block advance preserves the store's well-formedness.
pub proof fn lemma_advance_preserves_wf(v: StoreView, b: BlockInV, uw: Seq<(int, Seq<u8>)>)
    requires
        v.wf(),
        height_ok(v, b.height),
        witnesses_ok(uw, v.notes.len() as int),
    ensures
        advance_spec(v, b, uw).wf(),
{
    let st0 = scan_start(v);
    let st = apply_txs(st0, b.txs, b.height, b.txs.len() as int);
    lemma_apply_txs_ok(st0, b.txs, b.height, b.txs.len() as int);
    let items = uw + st.neww;
    assert(forall|k: int| 0 <= k < items.len() ==> 0 <= #[trigger] items[k].0 < st.notes.len());
    lemma_add_witnesses_ok(v.wits, items, b.height, items.len() as int, st.notes.len() as int);
    let wits1 = add_witnesses(v.wits, items, b.height, items.len() as int);
    lemma_prune_ok(wits1, crate::scan::prune_floor(b.height), wits1.len() as int, st.notes.len() as int);
    lemma_update_expired_index(st.notes, st.txs, b.height, st.notes.len() as int);
    if v.blocks.len() > 0 {
        lemma_sorted_last(v.blocks);
    }
    let out = advance_spec(v, b, uw);
    assert(forall|i: int, j: int|
        0 <= i < j < out.blocks.len() ==> out.blocks[i].height < out.blocks[j].height);
    assert(notes_ok(out.notes, out.txs.len() as int));
    assert(sent_ok(out.sent, out.txs.len() as int));
    assert(wits_ok(out.wits, out.notes.len() as int));
}

/// A scan at `-1` means the pair is on no sent-note row among the first `n`.
pub proof fn lemma_find_sent_range(sent: Seq<SentV>, tx: int, oi: int, n: int)
    requires
        0 <= n <= sent.len(),
    ensures
        find_sent_upto(sent, tx, oi, n) >= -1,
        find_sent_upto(sent, tx, oi, n) < n,
    decreases n,
{
    if n > 0 {
        lemma_find_sent_range(sent, tx, oi, n - 1);
    }
}

/// The sent-note upsert keeps references valid when the owning row exists.
pub proof fn lemma_put_sent_note_ok(
    sent: Seq<SentV>,
    tx: int,
    oi: int,
    account: int,
    address: Seq<u8>,
    value: int,
    memo: Option<Seq<u8>>,
    tl: int,
)
    requires
        sent_ok(sent, tl),
        0 <= tx < tl,
    ensures
        sent_ok(put_sent_note_spec(sent, tx, oi, account, address, value, memo), tl),
{
    lemma_find_sent_range(sent, tx, oi, sent.len() as int);
}

/// Recording a standalone decrypted transaction's outputs keeps the note and
/// sent-note invariants.
pub proof fn lemma_apply_dec_outputs_ok(
    notes: Seq<NoteV>,
    sent: Seq<SentV>,
    tx_ref: int,
    outs: Seq<DecOutV>,
    n: int,
    tl: int,
)
    requires
        0 <= n,
        notes_ok(notes, tl),
        sent_ok(sent, tl),
        0 <= tx_ref < tl,
    ensures
        notes_ok(apply_dec_outputs(notes, sent, tx_ref, outs, n).0, tl),
        sent_ok(apply_dec_outputs(notes, sent, tx_ref, outs, n).1, tl),
        notes.len() <= apply_dec_outputs(notes, sent, tx_ref, outs, n).0.len(),
    decreases n,
{
    if n > 0 {
        lemma_apply_dec_outputs_ok(notes, sent, tx_ref, outs, n - 1, tl);
        let prev = apply_dec_outputs(notes, sent, tx_ref, outs, n - 1);
        let o = outs[n - 1];
        if o.outgoing {
            lemma_put_sent_note_ok(prev.1, tx_ref, o.index, o.account, o.to, o.value, Some(o.memo), tl);
        } else {
            lemma_put_received_note_ok(
                prev.0,
                tx_ref,
                o.index,
                o.account,
                o.diversifier,
                o.value,
                o.rcm,
                Some(o.memo),
                None,
                None,
                tl,
            );
        }
    }
}

/// Recording a standalone decrypted transaction preserves well-formedness.
pub proof fn lemma_store_received_tx_preserves_wf(v: StoreView, rtx: ReceivedTxV)
    requires
        v.wf(),
    ensures
        store_received_tx_spec(v, rtx).wf(),
{
    lemma_put_tx_data_ok(v.txs, rtx.txid, None, rtx.expiry_height, rtx.raw);
    let tl = put_tx_data_spec(v.txs, rtx.txid, None, rtx.expiry_height, rtx.raw).len() as int;
    assert(notes_ok(v.notes, tl));
    assert(sent_ok(v.sent, tl));
    lemma_apply_dec_outputs_ok(
        v.notes,
        v.sent,
        put_tx_meta_ref(v.txs, rtx.txid),
        rtx.outputs,
        rtx.outputs.len() as int,
        tl,
    );
    let out = store_received_tx_spec(v, rtx);
    assert(wits_ok(out.wits, out.notes.len() as int));
}

/// Locking the inputs of the first `n` spends keeps the note invariants.
pub proof fn lemma_mark_all_spent_ok(
    notes: Seq<NoteV>,
    spends: Seq<Seq<u8>>,
    tx: int,
    n: int,
    tl: int,
)
    requires
        0 <= n,
        notes_ok(notes, tl),
        0 <= tx < tl,
    ensures
        notes_ok(mark_all_spent(notes, spends, tx, n), tl),
        mark_all_spent(notes, spends, tx, n).len() == notes.len(),
    decreases n,
{
    if n > 0 {
        lemma_mark_all_spent_ok(notes, spends, tx, n - 1, tl);
        lemma_mark_spent_ok(mark_all_spent(notes, spends, tx, n - 1), spends[n - 1], tx, tl);
    }
}

/// Recording a built transaction preserves well-formedness.
pub proof fn lemma_store_sent_tx_preserves_wf(v: StoreView, stx: SentTxV, created: int)
    requires
        v.wf(),
    ensures
        store_sent_tx_spec(v, stx, created).wf(),
{
    lemma_put_tx_data_ok(v.txs, stx.txid, Some(created), stx.expiry_height, stx.raw);
    let tl = put_tx_data_spec(v.txs, stx.txid, Some(created), stx.expiry_height, stx.raw).len() as int;
    lemma_mark_all_spent_ok(
        v.notes,
        stx.spends,
        put_tx_meta_ref(v.txs, stx.txid),
        stx.spends.len() as int,
        tl,
    );
    assert(notes_ok(v.notes, tl));
    assert(sent_ok(v.sent, tl));
    lemma_put_sent_note_ok(
        v.sent,
        put_tx_meta_ref(v.txs, stx.txid),
        stx.output_index,
        stx.account,
        stx.recipient,
        stx.value,
        stx.memo,
        tl,
    );
    let out = store_sent_tx_spec(v, stx, created);
    assert(wits_ok(out.wits, out.notes.len() as int));
}

/// A rewind preserves well-formedness: it keeps an ordered subset of the
/// blocks, the same transactions (some returned to pending), the same notes
/// (some returned to unspent), and a subset of the witnesses.
pub proof fn lemma_rewind_preserves_wf(v: StoreView, h: int)
    requires
        v.wf(),
    ensures
        crate::rewind::rewind_spec(v, h).wf(),
{
    let out = crate::rewind::rewind_spec(v, h);
    lemma_rewind_blocks_sorted_keep(v.blocks, h, v.blocks.len() as int);
    lemma_rewind_txs_fields(v.txs, h, v.txs.len() as int);
    lemma_rewind_notes_fields(v.notes, v.txs, h, v.notes.len() as int);
    lemma_rewind_wits_ok(v.wits, h, v.wits.len() as int, v.notes.len() as int);
    assert(out.txs.len() == v.txs.len());
    assert(out.notes.len() == v.notes.len());
    assert forall|q: int| 0 <= q < out.notes.len() implies 0 <= #[trigger] out.notes[q].tx
        < out.txs.len() by {
        assert(out.notes[q].tx == v.notes[q].tx);
    }
    assert forall|q: int|
        0 <= q < out.notes.len() implies (#[trigger] out.notes[q].spent matches Some(t) ==> 0 <= t
        < out.txs.len()) by {
        assert(out.notes[q].spent matches Some(t) ==> v.notes[q].spent == Some(t));
    }
    assert forall|a: int, b: int| 0 <= a < b < out.txs.len() implies out.txs[a].txid
        != out.txs[b].txid by {
        assert(out.txs[a].txid == v.txs[a].txid);
        assert(out.txs[b].txid == v.txs[b].txid);
    }
    assert(sent_ok(out.sent, out.txs.len() as int));
    assert(wits_ok(out.wits, out.notes.len() as int));
}

/// The blocks a rewind keeps stay strictly ordered.
pub proof fn lemma_rewind_blocks_sorted_keep(blocks: Seq<crate::types::BlockV>, h: int, n: int)
    requires
        0 <= n <= blocks.len(),
        forall|i: int, j: int| 0 <= i < j < blocks.len() ==> blocks[i].height < blocks[j].height,
    ensures
        forall|a: int, b: int|
            0 <= a < b < crate::rewind::rewind_blocks_upto(blocks, h, n).len()
                ==> crate::rewind::rewind_blocks_upto(blocks, h, n)[a].height
                < crate::rewind::rewind_blocks_upto(blocks, h, n)[b].height,
        crate::rewind::rewind_blocks_upto(blocks, h, n).len() > 0 ==> exists|i: int|
            0 <= i < n && crate::rewind::rewind_blocks_upto(blocks, h, n).last() == blocks[i],
    decreases n,
{
    if n > 0 {
        lemma_rewind_blocks_sorted_keep(blocks, h, n - 1);
        let prev = crate::rewind::rewind_blocks_upto(blocks, h, n - 1);
        if blocks[n - 1].height <= h {
            if prev.len() > 0 {
                let i = choose|i: int| 0 <= i < n - 1 && prev.last() == blocks[i];
                assert(prev.last().height < blocks[n - 1].height);
                assert forall|a: int| 0 <= a < prev.len() implies #[trigger] prev[a].height
                    < blocks[n - 1].height by {
                    if a < prev.len() - 1 {
                        assert(prev[a].height < prev.last().height);
                    }
                }
            }
            assert(prev.push(blocks[n - 1]).last() == blocks[n - 1]);
        }
    }
}

/// Un-mining changes no transaction id and keeps the table's length.
pub proof fn lemma_rewind_txs_fields(txs: Seq<TxV>, h: int, n: int)
    requires
        0 <= n <= txs.len(),
    ensures
        crate::rewind::rewind_txs_upto(txs, h, n).len() == n,
        forall|i: int|
            0 <= i < n ==> #[trigger] crate::rewind::rewind_txs_upto(txs, h, n)[i].txid
                == txs[i].txid,
    decreases n,
{
    if n > 0 {
        lemma_rewind_txs_fields(txs, h, n - 1);
    }
}

/// Restoring spent flags keeps each note's references valid.
pub proof fn lemma_rewind_notes_fields(notes: Seq<NoteV>, txs: Seq<TxV>, h: int, n: int)
    requires
        0 <= n <= notes.len(),
    ensures
        crate::rewind::rewind_notes_upto(notes, txs, h, n).len() == n,
        forall|i: int|
            #![trigger crate::rewind::rewind_notes_upto(notes, txs, h, n)[i]]
            0 <= i < n ==> crate::rewind::rewind_notes_upto(notes, txs, h, n)[i].tx == notes[i].tx
                && (crate::rewind::rewind_notes_upto(notes, txs, h, n)[i].spent matches Some(t)
                ==> notes[i].spent == Some(t)),
    decreases n,
{
    if n > 0 {
        lemma_rewind_notes_fields(notes, txs, h, n - 1);
    }
}

/// The witnesses a rewind keeps go on referencing notes that exist.
pub proof fn lemma_rewind_wits_ok(wits: Seq<WitV>, h: int, n: int, nl: int)
    requires
        0 <= n <= wits.len(),
        wits_ok(wits, nl),
    ensures
        wits_ok(crate::rewind::rewind_wits_upto(wits, h, n), nl),
    decreases n,
{
    if n > 0 {
        lemma_rewind_wits_ok(wits, h, n - 1, nl);
    }
}

} // verus!
