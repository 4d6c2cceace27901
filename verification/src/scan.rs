use vstd::prelude::*;

use crate::advance::{
    BlockInV, BlockTxV, OutV, add_note_witness, mark_spent_spec, prune_spec,
    put_received_note_ref, put_received_note_spec, put_tx_meta_ref, put_tx_meta_spec,
};
use crate::store::{RETENTION, StoreView};
use crate::types::{BlockV, NoteV, TxV, WitV};

verus! {

/// State the block-scan steps thread through: the transaction and note tables,
/// and the witnesses newly computed for this block's own outputs.
#[verifier::ext_equal]
pub ghost struct ScanState {
    pub txs: Seq<TxV>,
    pub notes: Seq<NoteV>,
    pub neww: Seq<(int, Seq<u8>)>,
}

/// Effect of observing the first `n` spent nullifiers of a transaction.
pub open spec fn apply_spends(st: ScanState, spends: Seq<Seq<u8>>, tx_ref: int, n: int) -> ScanState
    decreases n,
{
    if n <= 0 {
        st
    } else {
        let prev = apply_spends(st, spends, tx_ref, n - 1);
        ScanState { notes: mark_spent_spec(prev.notes, spends[n - 1], tx_ref), ..prev }
    }
}

/// Effect of recording the first `n` decrypted outputs of a transaction: each
/// is upserted as a received note (no memo travels with a scanned block) and
/// its freshly computed witness is queued.
pub open spec fn apply_outputs(st: ScanState, outs: Seq<OutV>, tx_ref: int, n: int) -> ScanState
    decreases n,
{
    if n <= 0 {
        st
    } else {
        let prev = apply_outputs(st, outs, tx_ref, n - 1);
        let o = outs[n - 1];
        let id = put_received_note_ref(prev.notes, tx_ref, o.output_index);
        ScanState {
            notes: put_received_note_spec(
                prev.notes,
                tx_ref,
                o.output_index,
                o.account,
                o.diversifier,
                o.value,
                o.rcm,
                None,
                o.nf,
                Some(o.is_change),
            ),
            neww: prev.neww.push((id, o.witness)),
            ..prev
        }
    }
}

/// Effect of scanning one transaction of a block mined at `height`.
pub open spec fn apply_tx(st: ScanState, tx: BlockTxV, height: int) -> ScanState {
    let r = put_tx_meta_ref(st.txs, tx.txid);
    let st1 = ScanState { txs: put_tx_meta_spec(st.txs, tx.txid, height, tx.index), ..st };
    let st2 = apply_spends(st1, tx.spends, r, tx.spends.len() as int);
    apply_outputs(st2, tx.outputs, r, tx.outputs.len() as int)
}

/// Effect of scanning the first `n` transactions of a block.
pub open spec fn apply_txs(st: ScanState, txs: Seq<BlockTxV>, height: int, n: int) -> ScanState
    decreases n,
{
    if n <= 0 {
        st
    } else {
        apply_tx(apply_txs(st, txs, height, n - 1), txs[n - 1], height)
    }
}

/// Where the transaction-id scan lands: at a row of the table or at `-1`.
pub proof fn lemma_find_tx_range(txs: Seq<TxV>, txid: Seq<u8>, n: int)
    requires
        0 <= n <= txs.len(),
    ensures
        -1 <= crate::advance::find_tx_upto(txs, txid, n) < n || n == 0,
        crate::advance::find_tx_upto(txs, txid, n) >= -1,
        crate::advance::find_tx_upto(txs, txid, n) < n,
    decreases n,
{
    if n > 0 {
        lemma_find_tx_range(txs, txid, n - 1);
    }
}

/// Where the note scan lands: at a row of the table or at `-1`.
pub proof fn lemma_find_note_range(notes: Seq<NoteV>, tx: int, output_index: int, n: int)
    requires
        0 <= n <= notes.len(),
    ensures
        crate::advance::find_note_upto(notes, tx, output_index, n) >= -1,
        crate::advance::find_note_upto(notes, tx, output_index, n) < n,
    decreases n,
{
    if n > 0 {
        lemma_find_note_range(notes, tx, output_index, n - 1);
    }
}

/// Observing spends changes only the note table.
pub proof fn lemma_apply_spends_frame(st: ScanState, spends: Seq<Seq<u8>>, tx_ref: int, n: int)
    ensures
        apply_spends(st, spends, tx_ref, n).txs == st.txs,
        apply_spends(st, spends, tx_ref, n).neww == st.neww,
        apply_spends(st, spends, tx_ref, n).notes.len() == st.notes.len(),
    decreases n,
{
    if n > 0 {
        lemma_apply_spends_frame(st, spends, tx_ref, n - 1);
        crate::advance::lemma_mark_spent_index(
            apply_spends(st, spends, tx_ref, n - 1).notes,
            spends[n - 1],
            tx_ref,
            apply_spends(st, spends, tx_ref, n - 1).notes.len() as int,
        );
    }
}

/// Recording outputs changes only the note table and the witness queue, and
/// never shrinks the note table.
pub proof fn lemma_apply_outputs_frame(st: ScanState, outs: Seq<OutV>, tx_ref: int, n: int)
    ensures
        apply_outputs(st, outs, tx_ref, n).txs == st.txs,
        apply_outputs(st, outs, tx_ref, n).notes.len() >= st.notes.len(),
        apply_outputs(st, outs, tx_ref, n).neww.len() == if n <= 0 {
            st.neww.len() as int
        } else {
            st.neww.len() + n
        },
    decreases n,
{
    if n > 0 {
        lemma_apply_outputs_frame(st, outs, tx_ref, n - 1);
        let prev = apply_outputs(st, outs, tx_ref, n - 1);
        let o = outs[n - 1];
        lemma_find_note_range(prev.notes, tx_ref, o.output_index, prev.notes.len() as int);
    }
}

/// The scan state a block advance starts from.
pub open spec fn scan_start(v: StoreView) -> ScanState {
    ScanState { txs: v.txs, notes: v.notes, neww: Seq::empty() }
}

/// Witness rows after persisting the first `n` queued witnesses at `height`.
pub open spec fn add_witnesses(wits: Seq<WitV>, items: Seq<(int, Seq<u8>)>, height: int, n: int) -> Seq<
    WitV,
>
    decreases n,
{
    if n <= 0 {
        wits
    } else {
        add_witnesses(wits, items, height, n - 1).push(add_note_witness(items[n - 1], height))
    }
}

/// Height below which witnesses are pruned after scanning a block at `h`:
/// the retention window bounds how far back rewinds are supported.
pub open spec fn prune_floor(h: int) -> int {
    if h < RETENTION as int {
        0
    } else {
        h - RETENTION as int
    }
}

/// The block row a scanned block persists.
pub open spec fn block_row_of(b: BlockInV) -> BlockV {
    BlockV { height: b.height, hash: b.hash, time: b.time, sapling_tree: b.sapling_tree }
}

/// The witnesses a block advance returns: one per output the block delivered
/// to a tracked account, named by the received note's row.
pub open spec fn advance_neww(v: StoreView, b: BlockInV) -> Seq<(int, Seq<u8>)> {
    apply_txs(scan_start(v), b.txs, b.height, b.txs.len() as int).neww
}

/// The store after a successful block advance: the block row inserted, every
/// transaction's metadata upserted, spent nullifiers marked, outputs recorded
/// as received notes, all caller-supplied and newly computed witnesses
/// persisted at the block's height, witnesses below the retention floor
/// pruned, and the expiry sweep run.
pub open spec fn advance_spec(v: StoreView, b: BlockInV, uw: Seq<(int, Seq<u8>)>) -> StoreView {
    let st = apply_txs(scan_start(v), b.txs, b.height, b.txs.len() as int);
    let items = uw + st.neww;
    let wits1 = add_witnesses(v.wits, items, b.height, items.len() as int);
    StoreView {
        accounts: v.accounts,
        blocks: v.blocks.push(block_row_of(b)),
        txs: st.txs,
        notes: crate::advance::update_expired_spec(st.notes, st.txs, b.height),
        sent: v.sent,
        wits: prune_spec(wits1, prune_floor(b.height)),
    }
}

/// A block can only extend the chain: its height must lie above the tip.
pub open spec fn height_ok(v: StoreView, h: int) -> bool {
    v.blocks.len() == 0 || v.blocks.last().height < h
}

/// Caller-supplied witnesses must reference received notes that exist.
pub open spec fn witnesses_ok(uw: Seq<(int, Seq<u8>)>, notes_len: int) -> bool {
    forall|k: int| 0 <= k < uw.len() ==> 0 <= #[trigger] uw[k].0 < notes_len
}

} // verus!
