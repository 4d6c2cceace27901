use vstd::prelude::*;

use crate::store::WalletStore;
use crate::types::{
    NoteRow, NoteV, TxRow, TxV, WitnessRow, WitV, bytes_eq, clone_bytes, clone_opt_bytes,
    view_opt_bytes,
};

verus! {

/// A shielded output of a scanned block, already decrypted to a tracked account.
pub struct ShieldedOutput {
    pub output_index: u32,
    pub account: u32,
    pub diversifier: Vec<u8>,
    pub value: u64,
    pub rcm: Vec<u8>,
    pub nf: Option<Vec<u8>>,
    pub is_change: bool,
    pub witness: Vec<u8>,
}

/// Spec-level image of a decrypted shielded output.
pub ghost struct OutV {
    pub output_index: int,
    pub account: int,
    pub diversifier: Seq<u8>,
    pub value: int,
    pub rcm: Seq<u8>,
    pub nf: Option<Seq<u8>>,
    pub is_change: bool,
    pub witness: Seq<u8>,
}

impl View for ShieldedOutput {
    type V = OutV;

    open spec fn view(&self) -> OutV {
        OutV {
            output_index: self.output_index as int,
            account: self.account as int,
            diversifier: self.diversifier@,
            value: self.value as int,
            rcm: self.rcm@,
            nf: view_opt_bytes(self.nf),
            is_change: self.is_change,
            witness: self.witness@,
        }
    }
}

/// A transaction of a scanned block: its id, position, the nullifiers it
/// spends, and its outputs decrypted to tracked accounts.
pub struct BlockTx {
    pub txid: Vec<u8>,
    pub index: u32,
    pub spends: Vec<Vec<u8>>,
    pub outputs: Vec<ShieldedOutput>,
}

/// Spec-level image of a scanned block transaction.
pub ghost struct BlockTxV {
    pub txid: Seq<u8>,
    pub index: int,
    pub spends: Seq<Seq<u8>>,
    pub outputs: Seq<OutV>,
}

impl View for BlockTx {
    type V = BlockTxV;

    open spec fn view(&self) -> BlockTxV {
        BlockTxV {
            txid: self.txid@,
            index: self.index as int,
            spends: self.spends@.map_values(|s: Vec<u8>| s@),
            outputs: self.outputs@.map_values(|o: ShieldedOutput| o@),
        }
    }
}

/// A scanned block, pruned to what the wallet tracks.
pub struct Block {
    pub height: u32,
    pub hash: Vec<u8>,
    pub time: u32,
    pub sapling_tree: Vec<u8>,
    pub txs: Vec<BlockTx>,
}

/// Spec-level image of a scanned block.
pub ghost struct BlockInV {
    pub height: int,
    pub hash: Seq<u8>,
    pub time: int,
    pub sapling_tree: Seq<u8>,
    pub txs: Seq<BlockTxV>,
}

impl View for Block {
    type V = BlockInV;

    open spec fn view(&self) -> BlockInV {
        BlockInV {
            height: self.height as int,
            hash: self.hash@,
            time: self.time as int,
            sapling_tree: self.sapling_tree@,
            txs: self.txs@.map_values(|t: BlockTx| t@),
        }
    }
}

/// First transaction row holding `txid`, or `-1` when none does, among the
/// first `n` rows.
pub open spec fn find_tx_upto(txs: Seq<TxV>, txid: Seq<u8>, n: int) -> int
    decreases n,
{
    if n <= 0 {
        -1
    } else {
        let p = find_tx_upto(txs, txid, n - 1);
        if p >= 0 {
            p
        } else if txs[n - 1].txid == txid {
            n - 1
        } else {
            -1
        }
    }
}

/// First transaction row holding `txid`, or `-1` when none does.
pub open spec fn find_tx(txs: Seq<TxV>, txid: Seq<u8>) -> int {
    find_tx_upto(txs, txid, txs.len() as int)
}

/// Row the transaction metadata upsert leaves `txid` at.
pub open spec fn put_tx_meta_ref(txs: Seq<TxV>, txid: Seq<u8>) -> int {
    let i = find_tx(txs, txid);
    if i >= 0 {
        i
    } else {
        txs.len() as int
    }
}

/// Upsert of a mined transaction's metadata: assign block and index if the id
/// is known, insert a fresh row otherwise.
pub open spec fn put_tx_meta_spec(txs: Seq<TxV>, txid: Seq<u8>, height: int, index: int) -> Seq<
    TxV,
> {
    let i = find_tx(txs, txid);
    if i >= 0 {
        txs.update(i, TxV { block: Some(height), tx_index: Some(index), ..txs[i] })
    } else {
        txs.push(
            TxV {
                txid: txid,
                block: Some(height),
                tx_index: Some(index),
                created: None,
                expiry_height: None,
                raw: None,
            },
        )
    }
}

/// Upsert of a transaction's full data: set expiry and raw bytes if the id is
/// known (keeping its creation time), insert a fresh pending row otherwise.
pub open spec fn put_tx_data_spec(
    txs: Seq<TxV>,
    txid: Seq<u8>,
    created: Option<int>,
    expiry: int,
    raw: Seq<u8>,
) -> Seq<TxV> {
    let i = find_tx(txs, txid);
    if i >= 0 {
        txs.update(i, TxV { expiry_height: Some(expiry), raw: Some(raw), ..txs[i] })
    } else {
        txs.push(
            TxV {
                txid: txid,
                block: None,
                tx_index: None,
                created: created,
                expiry_height: Some(expiry),
                raw: Some(raw),
            },
        )
    }
}

/// The first `n` notes after a spend observation of `nf` by transaction `tx`.
pub open spec fn mark_spent_upto(notes: Seq<NoteV>, nf: Seq<u8>, tx: int, n: int) -> Seq<NoteV>
    decreases n,
{
    if n <= 0 {
        Seq::empty()
    } else {
        mark_spent_upto(notes, nf, tx, n - 1).push(
            if notes[n - 1].nf == Some(nf) {
                NoteV { spent: Some(tx), ..notes[n - 1] }
            } else {
                notes[n - 1]
            },
        )
    }
}

/// Marking a spend observation: every note whose nullifier is `nf` has its
/// spent-by set to `tx`; all other notes are untouched.
pub open spec fn mark_spent_spec(notes: Seq<NoteV>, nf: Seq<u8>, tx: int) -> Seq<NoteV> {
    mark_spent_upto(notes, nf, tx, notes.len() as int)
}

/// What marking a spend does to each single note.
pub proof fn lemma_mark_spent_index(notes: Seq<NoteV>, nf: Seq<u8>, tx: int, n: int)
    requires
        0 <= n <= notes.len(),
    ensures
        mark_spent_upto(notes, nf, tx, n).len() == n,
        forall|j: int|
            0 <= j < n ==> mark_spent_upto(notes, nf, tx, n)[j] == (if notes[j].nf == Some(nf) {
                NoteV { spent: Some(tx), ..notes[j] }
            } else {
                notes[j]
            }),
    decreases n,
{
    if n > 0 {
        lemma_mark_spent_index(notes, nf, tx, n - 1);
    }
}

/// First received-note row owned by `(tx, output_index)`, or `-1` when none is.
pub open spec fn find_note_upto(notes: Seq<NoteV>, tx: int, output_index: int, n: int) -> int
    decreases n,
{
    if n <= 0 {
        -1
    } else {
        let p = find_note_upto(notes, tx, output_index, n - 1);
        if p >= 0 {
            p
        } else if notes[n - 1].tx == tx && notes[n - 1].output_index == output_index {
            n - 1
        } else {
            -1
        }
    }
}

/// First received-note row owned by `(tx, output_index)`, or `-1` when none is.
pub open spec fn find_note(notes: Seq<NoteV>, tx: int, output_index: int) -> int {
    find_note_upto(notes, tx, output_index, notes.len() as int)
}

/// Row the received-note upsert leaves `(tx, output_index)` at.
pub open spec fn put_received_note_ref(notes: Seq<NoteV>, tx: int, output_index: int) -> int {
    let i = find_note(notes, tx, output_index);
    if i >= 0 {
        i
    } else {
        notes.len() as int
    }
}

/// Upsert of a decrypted output: refresh the note's fields if the row exists
/// (a missing nullifier, memo or change flag keeps the stored one), insert a
/// fresh unspent row otherwise.
pub open spec fn put_received_note_spec(
    notes: Seq<NoteV>,
    tx: int,
    output_index: int,
    account: int,
    diversifier: Seq<u8>,
    value: int,
    rcm: Seq<u8>,
    memo: Option<Seq<u8>>,
    nf: Option<Seq<u8>>,
    is_change: Option<bool>,
) -> Seq<NoteV> {
    let i = find_note(notes, tx, output_index);
    if i >= 0 {
        notes.update(
            i,
            NoteV {
                account: account,
                diversifier: diversifier,
                value: value,
                rcm: rcm,
                nf: if nf is Some {
                    nf
                } else {
                    notes[i].nf
                },
                memo: if memo is Some {
                    memo
                } else {
                    notes[i].memo
                },
                is_change: match is_change {
                    Some(c) => c,
                    None => notes[i].is_change,
                },
                ..notes[i]
            },
        )
    } else {
        notes.push(
            NoteV {
                tx: tx,
                output_index: output_index,
                account: account,
                diversifier: diversifier,
                value: value,
                rcm: rcm,
                memo: memo,
                nf: nf,
                is_change: match is_change {
                    Some(c) => c,
                    None => false,
                },
                spent: None,
            },
        )
    }
}

/// Witness rows that survive pruning below `below`, among the first `n`.
pub open spec fn prune_upto(wits: Seq<WitV>, below: int, n: int) -> Seq<WitV>
    decreases n,
{
    if n <= 0 {
        Seq::empty()
    } else {
        let rest = prune_upto(wits, below, n - 1);
        if wits[n - 1].block >= below {
            rest.push(wits[n - 1])
        } else {
            rest
        }
    }
}

/// Witness rows recorded at or above `below`, in stored order.
pub open spec fn prune_spec(wits: Seq<WitV>, below: int) -> Seq<WitV> {
    prune_upto(wits, below, wits.len() as int)
}

/// The witness row persisted for a queued `(note, path)` pair at `height`.
pub open spec fn add_note_witness(item: (int, Seq<u8>), height: int) -> WitV {
    WitV { note: item.0, block: height, witness: item.1 }
}

/// A note held by a spend attempt that failed to be mined in time: its
/// spending transaction is still pending and its expiry height is below `h`.
pub open spec fn note_expired(n: NoteV, txs: Seq<TxV>, h: int) -> bool {
    n.spent matches Some(t) && 0 <= t < txs.len() && txs[t].block is None && (
    txs[t].expiry_height matches Some(e) && e < h)
}

/// The first `n` notes after the expiry sweep at height `h`.
pub open spec fn update_expired_upto(notes: Seq<NoteV>, txs: Seq<TxV>, h: int, n: int) -> Seq<
    NoteV,
>
    decreases n,
{
    if n <= 0 {
        Seq::empty()
    } else {
        update_expired_upto(notes, txs, h, n - 1).push(
            if note_expired(notes[n - 1], txs, h) {
                NoteV { spent: None, ..notes[n - 1] }
            } else {
                notes[n - 1]
            },
        )
    }
}

/// The expiry sweep: notes held by expired pending spends become unspent again;
/// all other notes are untouched.
pub open spec fn update_expired_spec(notes: Seq<NoteV>, txs: Seq<TxV>, h: int) -> Seq<NoteV> {
    update_expired_upto(notes, txs, h, notes.len() as int)
}

/// What the expiry sweep does to each single note.
pub proof fn lemma_update_expired_index(notes: Seq<NoteV>, txs: Seq<TxV>, h: int, n: int)
    requires
        0 <= n <= notes.len(),
    ensures
        update_expired_upto(notes, txs, h, n).len() == n,
        forall|j: int|
            0 <= j < n ==> update_expired_upto(notes, txs, h, n)[j] == (if note_expired(
                notes[j],
                txs,
                h,
            ) {
                NoteV { spent: None, ..notes[j] }
            } else {
                notes[j]
            }),
    decreases n,
{
    if n > 0 {
        lemma_update_expired_index(notes, txs, h, n - 1);
    }
}

impl WalletStore {
    /// Upsert the metadata of a transaction mined at `height`, position `index`;
    /// returns the row it sits at.
    pub(crate) fn put_tx_meta(&mut self, txid: &Vec<u8>, height: u32, index: u32) -> (r: usize)
        ensures
            final(self)@.txs == put_tx_meta_spec(old(self)@.txs, txid@, height as int, index as int),
            r as int == put_tx_meta_ref(old(self)@.txs, txid@),
            r < final(self)@.txs.len(),
            final(self)@ == (crate::store::StoreView { txs: final(self)@.txs, ..old(self)@ }),
    {
        let ghost txs0 = self@.txs;
        let mut i: usize = 0;
        while i < self.txs.len()
            invariant
                0 <= i <= self.txs.len(),
                *self == *old(self),
                txs0 == self@.txs,
                txs0.len() == self.txs@.len(),
                find_tx_upto(txs0, txid@, i as int) == -1,
            decreases self.txs.len() - i,
        {
            if bytes_eq(&self.txs[i].txid, txid) {
                let row = TxRow {
                    txid: clone_bytes(&self.txs[i].txid),
                    block: Some(height),
                    tx_index: Some(index),
                    created: self.txs[i].created,
                    expiry_height: self.txs[i].expiry_height,
                    raw: clone_opt_bytes(&self.txs[i].raw),
                };
                assert(find_tx_upto(txs0, txid@, i + 1) == i as int);
                proof {
                    lemma_find_tx_stable(txs0, txid@, i + 1, txs0.len() as int);
                }
                self.txs.set(i, row);
                assert(self@.txs =~= put_tx_meta_spec(txs0, txid@, height as int, index as int));
                return i;
            }
            i += 1;
        }
        let row = TxRow {
            txid: clone_bytes(txid),
            block: Some(height),
            tx_index: Some(index),
            created: None,
            expiry_height: None,
            raw: None,
        };
        let r = self.txs.len();
        self.txs.push(row);
        assert(self@.txs =~= put_tx_meta_spec(txs0, txid@, height as int, index as int));
        r
    }

    /// Upsert the full data of a transaction; returns the row it sits at.
    pub(crate) fn put_tx_data(
        &mut self,
        txid: &Vec<u8>,
        created: Option<i64>,
        expiry_height: u32,
        raw: &Vec<u8>,
    ) -> (r: usize)
        ensures
            final(self)@.txs == put_tx_data_spec(
                old(self)@.txs,
                txid@,
                crate::types::view_opt_i64(created),
                expiry_height as int,
                raw@,
            ),
            r as int == put_tx_meta_ref(old(self)@.txs, txid@),
            r < final(self)@.txs.len(),
            final(self)@ == (crate::store::StoreView { txs: final(self)@.txs, ..old(self)@ }),
    {
        let ghost txs0 = self@.txs;
        let mut i: usize = 0;
        while i < self.txs.len()
            invariant
                0 <= i <= self.txs.len(),
                *self == *old(self),
                txs0 == self@.txs,
                txs0.len() == self.txs@.len(),
                find_tx_upto(txs0, txid@, i as int) == -1,
            decreases self.txs.len() - i,
        {
            if bytes_eq(&self.txs[i].txid, txid) {
                let row = TxRow {
                    txid: clone_bytes(&self.txs[i].txid),
                    block: self.txs[i].block,
                    tx_index: self.txs[i].tx_index,
                    created: self.txs[i].created,
                    expiry_height: Some(expiry_height),
                    raw: Some(clone_bytes(raw)),
                };
                assert(find_tx_upto(txs0, txid@, i + 1) == i as int);
                proof {
                    lemma_find_tx_stable(txs0, txid@, i + 1, txs0.len() as int);
                }
                self.txs.set(i, row);
                assert(self@.txs =~= put_tx_data_spec(
                    txs0,
                    txid@,
                    crate::types::view_opt_i64(created),
                    expiry_height as int,
                    raw@,
                ));
                return i;
            }
            i += 1;
        }
        let row = TxRow {
            txid: clone_bytes(txid),
            block: None,
            tx_index: None,
            created: created,
            expiry_height: Some(expiry_height),
            raw: Some(clone_bytes(raw)),
        };
        let r = self.txs.len();
        self.txs.push(row);
        assert(self@.txs =~= put_tx_data_spec(
            txs0,
            txid@,
            crate::types::view_opt_i64(created),
            expiry_height as int,
            raw@,
        ));
        r
    }

    /// Mark every note whose nullifier is `nf` as spent by transaction `tx_ref`.
    /// A nullifier belonging to no tracked note marks nothing.
    pub(crate) fn mark_spent(&mut self, tx_ref: usize, nf: &Vec<u8>)
        ensures
            final(self)@.notes == mark_spent_spec(old(self)@.notes, nf@, tx_ref as int),
            final(self)@ == (crate::store::StoreView { notes: final(self)@.notes, ..old(self)@ }),
    {
        let ghost notes0 = self@.notes;
        let mut out: Vec<NoteRow> = Vec::new();
        let mut i: usize = 0;
        while i < self.notes.len()
            invariant
                0 <= i <= self.notes.len(),
                *self == *old(self),
                notes0 == self@.notes,
                notes0.len() == self.notes@.len(),
                crate::store::notes_view(out@) =~= mark_spent_upto(
                    notes0,
                    nf@,
                    tx_ref as int,
                    i as int,
                ),
            decreases self.notes.len() - i,
        {
            let matches_nf = match &self.notes[i].nf {
                Some(n) => bytes_eq(n, nf),
                None => false,
            };
            let row = NoteRow {
                tx: self.notes[i].tx,
                output_index: self.notes[i].output_index,
                account: self.notes[i].account,
                diversifier: clone_bytes(&self.notes[i].diversifier),
                value: self.notes[i].value,
                rcm: clone_bytes(&self.notes[i].rcm),
                memo: clone_opt_bytes(&self.notes[i].memo),
                nf: clone_opt_bytes(&self.notes[i].nf),
                is_change: self.notes[i].is_change,
                spent: if matches_nf {
                    Some(tx_ref)
                } else {
                    self.notes[i].spent
                },
            };
            if matches_nf {
                assert(notes0[i as int].nf == Some(nf@));
                assert(row@ == NoteV { spent: Some(tx_ref as int), ..notes0[i as int] });
            } else {
                assert(notes0[i as int].nf != Some(nf@));
                assert(row@ == notes0[i as int]);
            }
            out.push(row);
            assert(crate::store::notes_view(out@) =~= mark_spent_upto(
                notes0,
                nf@,
                tx_ref as int,
                i + 1,
            ));
            i += 1;
        }
        self.notes = out;
        assert(self@.notes =~= mark_spent_spec(notes0, nf@, tx_ref as int));
        assert(final(self)@ =~= (crate::store::StoreView { notes: final(self)@.notes, ..old(self)@ }));
    }

    /// Upsert a decrypted output as a received note; returns the row it sits at.
    pub(crate) fn put_received_note(
        &mut self,
        tx_ref: usize,
        output_index: u32,
        account: u32,
        diversifier: &Vec<u8>,
        value: u64,
        rcm: &Vec<u8>,
        memo: &Option<Vec<u8>>,
        nf: &Option<Vec<u8>>,
        is_change: Option<bool>,
    ) -> (r: usize)
        ensures
            final(self)@.notes == put_received_note_spec(
                old(self)@.notes,
                tx_ref as int,
                output_index as int,
                account as int,
                diversifier@,
                value as int,
                rcm@,
                view_opt_bytes(*memo),
                view_opt_bytes(*nf),
                is_change,
            ),
            r as int == put_received_note_ref(old(self)@.notes, tx_ref as int, output_index as int),
            r < final(self)@.notes.len(),
            final(self)@ == (crate::store::StoreView { notes: final(self)@.notes, ..old(self)@ }),
    {
        let ghost notes0 = self@.notes;
        let mut i: usize = 0;
        while i < self.notes.len()
            invariant
                0 <= i <= self.notes.len(),
                *self == *old(self),
                notes0 == self@.notes,
                notes0.len() == self.notes@.len(),
                find_note_upto(notes0, tx_ref as int, output_index as int, i as int) == -1,
            decreases self.notes.len() - i,
        {
            if self.notes[i].tx == tx_ref && self.notes[i].output_index == output_index {
                let row = NoteRow {
                    tx: self.notes[i].tx,
                    output_index: self.notes[i].output_index,
                    account: account,
                    diversifier: clone_bytes(diversifier),
                    value: value,
                    rcm: clone_bytes(rcm),
                    memo: if memo.is_some() {
                        clone_opt_bytes(memo)
                    } else {
                        clone_opt_bytes(&self.notes[i].memo)
                    },
                    nf: if nf.is_some() {
                        clone_opt_bytes(nf)
                    } else {
                        clone_opt_bytes(&self.notes[i].nf)
                    },
                    is_change: match is_change {
                        Some(c) => c,
                        None => self.notes[i].is_change,
                    },
                    spent: self.notes[i].spent,
                };
                assert(find_note_upto(notes0, tx_ref as int, output_index as int, i + 1)
                    == i as int);
                proof {
                    lemma_find_note_stable(
                        notes0,
                        tx_ref as int,
                        output_index as int,
                        i + 1,
                        notes0.len() as int,
                    );
                }
                self.notes.set(i, row);
                assert(self@.notes =~= put_received_note_spec(
                    notes0,
                    tx_ref as int,
                    output_index as int,
                    account as int,
                    diversifier@,
                    value as int,
                    rcm@,
                    view_opt_bytes(*memo),
                    view_opt_bytes(*nf),
                    is_change,
                ));
                return i;
            }
            i += 1;
        }
        let row = NoteRow {
            tx: tx_ref,
            output_index: output_index,
            account: account,
            diversifier: clone_bytes(diversifier),
            value: value,
            rcm: clone_bytes(rcm),
            memo: clone_opt_bytes(memo),
            nf: clone_opt_bytes(nf),
            is_change: match is_change {
                Some(c) => c,
                None => false,
            },
            spent: None,
        };
        let r = self.notes.len();
        self.notes.push(row);
        assert(self@.notes =~= put_received_note_spec(
            notes0,
            tx_ref as int,
            output_index as int,
            account as int,
            diversifier@,
            value as int,
            rcm@,
            view_opt_bytes(*memo),
            view_opt_bytes(*nf),
            is_change,
        ));
        r
    }

    /// Record the witness for `note` as of the block at `height`.
    pub(crate) fn insert_witness(&mut self, note: usize, height: u32, witness: &Vec<u8>)
        ensures
            final(self)@.wits == old(self)@.wits.push(
                WitV { note: note as int, block: height as int, witness: witness@ },
            ),
            final(self)@ == (crate::store::StoreView { wits: final(self)@.wits, ..old(self)@ }),
    {
        let row = WitnessRow { note: note, block: height, witness: clone_bytes(witness) };
        self.wits.push(row);
        assert(self@.wits =~= old(self)@.wits.push(
            WitV { note: note as int, block: height as int, witness: witness@ },
        ));
    }

    /// Discard witnesses recorded below `below`: the design only supports
    /// rewinding within the retention window, so older paths are never needed.
    pub(crate) fn prune_witnesses(&mut self, below: u32)
        ensures
            final(self)@.wits == prune_spec(old(self)@.wits, below as int),
            final(self)@ == (crate::store::StoreView { wits: final(self)@.wits, ..old(self)@ }),
    {
        let ghost wits0 = self@.wits;
        let mut kept: Vec<WitnessRow> = Vec::new();
        let mut i: usize = 0;
        while i < self.wits.len()
            invariant
                0 <= i <= self.wits.len(),
                self@.wits == wits0,
                wits0.len() == self.wits@.len(),
                crate::store::wits_view(kept@) =~= prune_upto(wits0, below as int, i as int),
            decreases self.wits.len() - i,
        {
            if self.wits[i].block >= below {
                let row = WitnessRow {
                    note: self.wits[i].note,
                    block: self.wits[i].block,
                    witness: clone_bytes(&self.wits[i].witness),
                };
                assert(row@ == wits0[i as int]);
                kept.push(row);
            }
            i += 1;
        }
        self.wits = kept;
        assert(self@.wits =~= prune_spec(wits0, below as int));
    }

    /// The expiry sweep: any note spent by a still-pending transaction whose
    /// expiry height is below `height` becomes unspent and selectable again.
    pub(crate) fn update_expired_notes(&mut self, height: u32)
        ensures
            final(self)@.notes == update_expired_spec(
                old(self)@.notes,
                old(self)@.txs,
                height as int,
            ),
            final(self)@ == (crate::store::StoreView { notes: final(self)@.notes, ..old(self)@ }),
    {
        let ghost notes0 = self@.notes;
        let ghost txs0 = self@.txs;
        let mut out: Vec<NoteRow> = Vec::new();
        let mut i: usize = 0;
        while i < self.notes.len()
            invariant
                0 <= i <= self.notes.len(),
                *self == *old(self),
                notes0 == self@.notes,
                txs0 == self@.txs,
                notes0.len() == self.notes@.len(),
                crate::store::notes_view(out@) =~= update_expired_upto(
                    notes0,
                    txs0,
                    height as int,
                    i as int,
                ),
            decreases self.notes.len() - i,
        {
            let expired = match self.notes[i].spent {
                Some(t) => t < self.txs.len() && self.txs[t].block.is_none() && (
                match self.txs[t].expiry_height {
                    Some(e) => e < height,
                    None => false,
                }),
                None => false,
            };
            let row = NoteRow {
                tx: self.notes[i].tx,
                output_index: self.notes[i].output_index,
                account: self.notes[i].account,
                diversifier: clone_bytes(&self.notes[i].diversifier),
                value: self.notes[i].value,
                rcm: clone_bytes(&self.notes[i].rcm),
                memo: clone_opt_bytes(&self.notes[i].memo),
                nf: clone_opt_bytes(&self.notes[i].nf),
                is_change: self.notes[i].is_change,
                spent: if expired {
                    None
                } else {
                    self.notes[i].spent
                },
            };
            if expired {
                assert(note_expired(notes0[i as int], txs0, height as int));
                assert(row@ == NoteV { spent: None, ..notes0[i as int] });
            } else {
                assert(!note_expired(notes0[i as int], txs0, height as int));
                assert(row@ == notes0[i as int]);
            }
            out.push(row);
            assert(crate::store::notes_view(out@) =~= update_expired_upto(
                notes0,
                txs0,
                height as int,
                i + 1,
            ));
            i += 1;
        }
        self.notes = out;
        assert(self@.notes =~= update_expired_spec(notes0, txs0, height as int));
        assert(final(self)@ =~= (crate::store::StoreView { notes: final(self)@.notes, ..old(self)@ }));
    }
}

/// Once a match is found among the first `n` rows, scanning further does not
/// change which row `find_tx_upto` names.
pub proof fn lemma_find_tx_stable(txs: Seq<TxV>, txid: Seq<u8>, n: int, m: int)
    requires
        0 <= n <= m <= txs.len(),
        find_tx_upto(txs, txid, n) >= 0,
    ensures
        find_tx_upto(txs, txid, m) == find_tx_upto(txs, txid, n),
    decreases m - n,
{
    if n < m {
        lemma_find_tx_stable(txs, txid, n, m - 1);
    }
}

/// Once a match is found among the first `n` rows, scanning further does not
/// change which row `find_note_upto` names.
pub proof fn lemma_find_note_stable(notes: Seq<NoteV>, tx: int, output_index: int, n: int, m: int)
    requires
        0 <= n <= m <= notes.len(),
        find_note_upto(notes, tx, output_index, n) >= 0,
    ensures
        find_note_upto(notes, tx, output_index, m) == find_note_upto(notes, tx, output_index, n),
    decreases m - n,
{
    if n < m {
        lemma_find_note_stable(notes, tx, output_index, n, m - 1);
    }
}


/// Image of a caller-supplied witness list: the referenced received-note row
/// (or `-1` for a reference of the wrong kind) and the path bytes.
pub open spec fn uw_view(s: Seq<(crate::types::NoteId, Vec<u8>)>) -> Seq<(int, Seq<u8>)> {
    s.map_values(
        |p: (crate::types::NoteId, Vec<u8>)|
            (
                match p.0 {
                    crate::types::NoteId::ReceivedNoteId(n) => n as int,
                    crate::types::NoteId::SentNoteId(_) => -1,
                },
                p.1@,
            ),
    )
}

/// Every entry references a received note, and one that exists.
pub open spec fn uw_all_received(s: Seq<(crate::types::NoteId, Vec<u8>)>, notes_len: int) -> bool {
    forall|k: int|
        0 <= k < s.len() ==> (#[trigger] s[k].0 matches crate::types::NoteId::ReceivedNoteId(n)
            && (n as int) < notes_len)
}

impl WalletStore {
    /// Apply one scanned block atomically: insert the block row; upsert each
    /// transaction's metadata; mark each spent nullifier's note as spent by the
    /// spending transaction (a nullifier of another wallet marks nothing);
    /// record each decrypted output as a received note; persist the
    /// caller-supplied witnesses and the block's own new witnesses at the
    /// block's height; prune witnesses below the retention floor; and sweep
    /// expired pending spends back to unspent. Returns the new witnesses, one
    /// per output of this block. On any failure nothing is changed: a height
    /// not above the tip is a store constraint error, and a caller-supplied
    /// witness that does not reference an existing received note is a
    /// reference error.
    #[verifier::loop_isolation(false)]
    pub fn advance_by_block(
        &mut self,
        block: &Block,
        updated_witnesses: &Vec<(crate::types::NoteId, Vec<u8>)>,
    ) -> (r: Result<Vec<(crate::types::NoteId, Vec<u8>)>, crate::types::WalletError>)
        ensures
            r is Err ==> final(self)@ == old(self)@,
            !crate::scan::height_ok(old(self)@, block@.height) ==> (r matches Err(
                crate::types::WalletError::StorageFailure,
            )),
            crate::scan::height_ok(old(self)@, block@.height) && !uw_all_received(
                updated_witnesses@,
                old(self)@.notes.len() as int,
            ) ==> (r matches Err(crate::types::WalletError::InvalidNoteReference)),
            crate::scan::height_ok(old(self)@, block@.height) && uw_all_received(
                updated_witnesses@,
                old(self)@.notes.len() as int,
            ) ==> (r matches Ok(nw) && final(self)@ == crate::scan::advance_spec(
                old(self)@,
                block@,
                uw_view(updated_witnesses@),
            ) && uw_view(nw@) == crate::scan::advance_neww(old(self)@, block@) && uw_all_received(
                nw@,
                final(self)@.notes.len() as int,
            )),
    {
        let ghost v0 = self@;
        let ghost bv = block@;
        let height = block.height;
        if self.blocks.len() > 0 {
            let tip = self.blocks[self.blocks.len() - 1].height;
            if height <= tip {
                return Err(crate::types::WalletError::StorageFailure);
            }
        }
        let mut k: usize = 0;
        while k < updated_witnesses.len()
            invariant
                0 <= k <= updated_witnesses.len(),
                *self == *old(self),
                forall|t: int|
                    0 <= t < k ==> (#[trigger] updated_witnesses@[t].0 matches
                        crate::types::NoteId::ReceivedNoteId(n) && (n as int)
                        < self@.notes.len()),
            decreases updated_witnesses.len() - k,
        {
            match updated_witnesses[k].0 {
                crate::types::NoteId::ReceivedNoteId(n) => {
                    if n >= self.notes.len() {
                        return Err(crate::types::WalletError::InvalidNoteReference);
                    }
                },
                crate::types::NoteId::SentNoteId(_) => {
                    return Err(crate::types::WalletError::InvalidNoteReference);
                },
            }
            k += 1;
        }
        assert(uw_all_received(updated_witnesses@, v0.notes.len() as int));

        // All checks passed: from here on every step succeeds, so the whole
        // update is applied as one unit.
        self.blocks.push(
            crate::types::BlockRow {
                height: height,
                hash: clone_bytes(&block.hash),
                time: block.time,
                sapling_tree: clone_bytes(&block.sapling_tree),
            },
        );
        assert(self@.blocks =~= v0.blocks.push(crate::scan::block_row_of(bv)));
        let ghost blocks1 = self@.blocks;

        let mut neww: Vec<(crate::types::NoteId, Vec<u8>)> = Vec::new();
        let mut ti: usize = 0;
        while ti < block.txs.len()
            invariant
                0 <= ti <= block.txs.len(),
                block.txs@.len() == bv.txs.len(),
                self@.txs == crate::scan::apply_txs(
                    crate::scan::scan_start(v0),
                    bv.txs,
                    height as int,
                    ti as int,
                ).txs,
                self@.notes == crate::scan::apply_txs(
                    crate::scan::scan_start(v0),
                    bv.txs,
                    height as int,
                    ti as int,
                ).notes,
                uw_view(neww@) =~= crate::scan::apply_txs(
                    crate::scan::scan_start(v0),
                    bv.txs,
                    height as int,
                    ti as int,
                ).neww,
                uw_all_received(neww@, self@.notes.len() as int),
                self@.notes.len() >= v0.notes.len(),
                self@ == (crate::store::StoreView {
                    blocks: blocks1,
                    txs: self@.txs,
                    notes: self@.notes,
                    ..v0
                }),
            decreases block.txs.len() - ti,
        {
            let ghost st_in = crate::scan::apply_txs(
                crate::scan::scan_start(v0),
                bv.txs,
                height as int,
                ti as int,
            );
            let tx = &block.txs[ti];
            assert(bv.txs[ti as int] == tx@);
            let tx_ref = self.put_tx_meta(&tx.txid, height, tx.index);
            let ghost st1 = crate::scan::ScanState { txs: self@.txs, ..st_in };
            assert(st1 == (crate::scan::ScanState {
                txs: put_tx_meta_spec(st_in.txs, tx@.txid, height as int, tx@.index),
                ..st_in
            }));

            let mut si: usize = 0;
            while si < tx.spends.len()
                invariant
                    0 <= si <= tx.spends.len(),
                    tx.spends@.len() == tx@.spends.len(),
                    tx_ref as int == put_tx_meta_ref(st_in.txs, tx@.txid),
                    st1 == (crate::scan::ScanState {
                        txs: put_tx_meta_spec(st_in.txs, tx@.txid, height as int, tx@.index),
                        ..st_in
                    }),
                    self@.txs == st1.txs,
                    self@.notes == crate::scan::apply_spends(
                        st1,
                        tx@.spends,
                        tx_ref as int,
                        si as int,
                    ).notes,
                    self@.notes.len() >= v0.notes.len(),
                    uw_view(neww@) =~= st1.neww,
                    uw_all_received(neww@, self@.notes.len() as int),
                    self@ == (crate::store::StoreView {
                        blocks: blocks1,
                        txs: self@.txs,
                        notes: self@.notes,
                        ..v0
                    }),
                decreases tx.spends.len() - si,
            {
                assert(tx@.spends[si as int] == tx.spends@[si as int]@);
                let ghost pre_notes = self@.notes;
                self.mark_spent(tx_ref, &tx.spends[si]);
                proof {
                    lemma_mark_spent_index(
                        pre_notes,
                        tx@.spends[si as int],
                        tx_ref as int,
                        pre_notes.len() as int,
                    );
                }
                si += 1;
            }
            let ghost st2 = crate::scan::apply_spends(
                st1,
                tx@.spends,
                tx_ref as int,
                tx@.spends.len() as int,
            );
            proof {
                crate::scan::lemma_apply_spends_frame(
                    st1,
                    tx@.spends,
                    tx_ref as int,
                    tx@.spends.len() as int,
                );
            }
            assert(self@.notes == st2.notes);
            assert(st2.txs == st1.txs && st2.neww == st1.neww);

            let mut oi: usize = 0;
            while oi < tx.outputs.len()
                invariant
                    0 <= oi <= tx.outputs.len(),
                    tx.outputs@.len() == tx@.outputs.len(),
                    tx_ref as int == put_tx_meta_ref(st_in.txs, tx@.txid),
                    self@.txs == st2.txs,
                    self@.notes == crate::scan::apply_outputs(
                        st2,
                        tx@.outputs,
                        tx_ref as int,
                        oi as int,
                    ).notes,
                    self@.notes.len() >= v0.notes.len(),
                    uw_view(neww@) =~= crate::scan::apply_outputs(
                        st2,
                        tx@.outputs,
                        tx_ref as int,
                        oi as int,
                    ).neww,
                    uw_all_received(neww@, self@.notes.len() as int),
                    self@ == (crate::store::StoreView {
                        blocks: blocks1,
                        txs: self@.txs,
                        notes: self@.notes,
                        ..v0
                    }),
                decreases tx.outputs.len() - oi,
            {
                assert(tx@.outputs[oi as int] == tx.outputs@[oi as int]@);
                let o = &tx.outputs[oi];
                let no_memo: Option<Vec<u8>> = None;
                let id = self.put_received_note(
                    tx_ref,
                    o.output_index,
                    o.account,
                    &o.diversifier,
                    o.value,
                    &o.rcm,
                    &no_memo,
                    &o.nf,
                    Some(o.is_change),
                );
                neww.push((crate::types::NoteId::ReceivedNoteId(id), clone_bytes(&o.witness)));
                assert(uw_view(neww@) =~= crate::scan::apply_outputs(
                    st2,
                    tx@.outputs,
                    tx_ref as int,
                    oi + 1,
                ).neww);
                oi += 1;
            }
            proof {
                crate::scan::lemma_apply_outputs_frame(
                    st2,
                    tx@.outputs,
                    tx_ref as int,
                    tx@.outputs.len() as int,
                );
            }
            assert(crate::scan::apply_txs(
                crate::scan::scan_start(v0),
                bv.txs,
                height as int,
                ti + 1,
            ) == crate::scan::apply_tx(st_in, bv.txs[ti as int], height as int));
            assert(self@.txs == crate::scan::apply_tx(st_in, bv.txs[ti as int], height as int).txs);
            assert(self@.notes == crate::scan::apply_tx(
                st_in,
                bv.txs[ti as int],
                height as int,
            ).notes);
            assert(uw_view(neww@) =~= crate::scan::apply_tx(
                st_in,
                bv.txs[ti as int],
                height as int,
            ).neww);
            ti += 1;
        }
        let ghost st = crate::scan::apply_txs(
            crate::scan::scan_start(v0),
            bv.txs,
            height as int,
            bv.txs.len() as int,
        );
        let ghost items = uw_view(updated_witnesses@) + st.neww;
        let ghost wits0 = v0.wits;

        let mut k2: usize = 0;
        while k2 < updated_witnesses.len()
            invariant
                0 <= k2 <= updated_witnesses.len(),
                updated_witnesses@.len() == uw_view(updated_witnesses@).len(),
                uw_all_received(updated_witnesses@, v0.notes.len() as int),
                items.len() == updated_witnesses@.len() + st.neww.len(),
                forall|t: int|
                    0 <= t < updated_witnesses@.len() ==> items[t] == uw_view(
                        updated_witnesses@,
                    )[t],
                self@.wits == crate::scan::add_witnesses(wits0, items, height as int, k2 as int),
                self@ == (crate::store::StoreView { wits: self@.wits, ..final_scan_view(
                    v0,
                    blocks1,
                    st,
                ) }),
            decreases updated_witnesses.len() - k2,
        {
            match updated_witnesses[k2].0 {
                crate::types::NoteId::ReceivedNoteId(n) => {
                    self.insert_witness(n, height, &updated_witnesses[k2].1);
                    assert(self@.wits =~= crate::scan::add_witnesses(
                        wits0,
                        items,
                        height as int,
                        k2 + 1,
                    ));
                },
                crate::types::NoteId::SentNoteId(_) => {
                    // the validation pass admitted received-note references only
                    assert(false);
                },
            }
            k2 += 1;
        }
        let mut k3: usize = 0;
        while k3 < neww.len()
            invariant
                0 <= k3 <= neww.len(),
                neww@.len() == st.neww.len(),
                uw_view(neww@) =~= st.neww,
                uw_all_received(neww@, st.notes.len() as int),
                items.len() == updated_witnesses@.len() + st.neww.len(),
                forall|t: int|
                    0 <= t < st.neww.len() ==> items[updated_witnesses@.len() + t] == st.neww[t],
                self@.wits == crate::scan::add_witnesses(
                    wits0,
                    items,
                    height as int,
                    updated_witnesses@.len() + k3 as int,
                ),
                self@ == (crate::store::StoreView { wits: self@.wits, ..final_scan_view(
                    v0,
                    blocks1,
                    st,
                ) }),
            decreases neww.len() - k3,
        {
            match neww[k3].0 {
                crate::types::NoteId::ReceivedNoteId(n) => {
                    self.insert_witness(n, height, &neww[k3].1);
                    assert(add_note_witness(
                        items[updated_witnesses@.len() + k3 as int],
                        height as int,
                    ) == self@.wits.last());
                    assert(self@.wits =~= crate::scan::add_witnesses(
                        wits0,
                        items,
                        height as int,
                        updated_witnesses@.len() + k3 + 1,
                    ));
                },
                crate::types::NoteId::SentNoteId(_) => {
                    // the scan queues received-note references only
                    assert(false);
                },
            }
            k3 += 1;
        }
        assert(self@.wits == crate::scan::add_witnesses(
            wits0,
            items,
            height as int,
            items.len() as int,
        ));

        let below = if height < crate::store::RETENTION {
            0
        } else {
            height - crate::store::RETENTION
        };
        assert(below as int == crate::scan::prune_floor(height as int));
        self.prune_witnesses(below);
        let ghost notes_pre_sweep = self@.notes;
        self.update_expired_notes(height);
        proof {
            lemma_update_expired_index(
                notes_pre_sweep,
                st.txs,
                height as int,
                notes_pre_sweep.len() as int,
            );
        }
        assert(self@.notes.len() == st.notes.len());
        assert(self@ =~= crate::scan::advance_spec(v0, bv, uw_view(updated_witnesses@)));
        assert(uw_view(neww@) =~= crate::scan::advance_neww(v0, bv));
        assert(uw_all_received(neww@, self@.notes.len() as int));
        Ok(neww)
    }
}

/// The store view after the scan loop of a block advance, before witnesses are
/// persisted and pruned and before the expiry sweep.
pub open spec fn final_scan_view(
    v0: crate::store::StoreView,
    blocks1: Seq<crate::types::BlockV>,
    st: crate::scan::ScanState,
) -> crate::store::StoreView {
    crate::store::StoreView { blocks: blocks1, txs: st.txs, notes: st.notes, ..v0 }
}

} // verus!

