use vstd::prelude::*;

use crate::advance::{mark_spent_spec, put_tx_data_spec, put_tx_meta_ref};
use crate::store::{StoreView, WalletStore};
use crate::types::{
    NoteV, SentNoteRow, SentV, WalletError, bytes_eq, clone_bytes, clone_opt_bytes, view_opt_bytes,
};

verus! {

/// An output of a standalone transaction decrypted with the wallet's keys:
/// either an incoming note or one of the wallet's own outgoing outputs.
pub struct DecryptedOutput {
    pub index: u32,
    pub account: u32,
    pub diversifier: Vec<u8>,
    pub value: u64,
    pub rcm: Vec<u8>,
    pub memo: Vec<u8>,
    pub to: Vec<u8>,
    pub outgoing: bool,
}

/// Spec-level image of a decrypted output.
pub ghost struct DecOutV {
    pub index: int,
    pub account: int,
    pub diversifier: Seq<u8>,
    pub value: int,
    pub rcm: Seq<u8>,
    pub memo: Seq<u8>,
    pub to: Seq<u8>,
    pub outgoing: bool,
}

impl View for DecryptedOutput {
    type V = DecOutV;

    open spec fn view(&self) -> DecOutV {
        DecOutV {
            index: self.index as int,
            account: self.account as int,
            diversifier: self.diversifier@,
            value: self.value as int,
            rcm: self.rcm@,
            memo: self.memo@,
            to: self.to@,
            outgoing: self.outgoing,
        }
    }
}

/// A transaction of interest seen outside a block, with what the wallet's
/// keys could decrypt of it.
pub struct ReceivedTx {
    pub txid: Vec<u8>,
    pub expiry_height: u32,
    pub raw: Vec<u8>,
    pub outputs: Vec<DecryptedOutput>,
}

/// Spec-level image of a received transaction.
pub ghost struct ReceivedTxV {
    pub txid: Seq<u8>,
    pub expiry_height: int,
    pub raw: Seq<u8>,
    pub outputs: Seq<DecOutV>,
}

impl View for ReceivedTx {
    type V = ReceivedTxV;

    open spec fn view(&self) -> ReceivedTxV {
        ReceivedTxV {
            txid: self.txid@,
            expiry_height: self.expiry_height as int,
            raw: self.raw@,
            outputs: self.outputs@.map_values(|o: DecryptedOutput| o@),
        }
    }
}

/// A transaction this wallet built and is about to broadcast.
pub struct SentTx {
    pub txid: Vec<u8>,
    pub expiry_height: u32,
    pub raw: Vec<u8>,
    pub spends: Vec<Vec<u8>>,
    pub output_index: u32,
    pub account: u32,
    pub recipient: Vec<u8>,
    pub value: u64,
    pub memo: Option<Vec<u8>>,
}

/// Spec-level image of a sent transaction.
pub ghost struct SentTxV {
    pub txid: Seq<u8>,
    pub expiry_height: int,
    pub raw: Seq<u8>,
    pub spends: Seq<Seq<u8>>,
    pub output_index: int,
    pub account: int,
    pub recipient: Seq<u8>,
    pub value: int,
    pub memo: Option<Seq<u8>>,
}

impl View for SentTx {
    type V = SentTxV;

    open spec fn view(&self) -> SentTxV {
        SentTxV {
            txid: self.txid@,
            expiry_height: self.expiry_height as int,
            raw: self.raw@,
            spends: self.spends@.map_values(|s: Vec<u8>| s@),
            output_index: self.output_index as int,
            account: self.account as int,
            recipient: self.recipient@,
            value: self.value as int,
            memo: view_opt_bytes(self.memo),
        }
    }
}

/// First sent-note row owned by `(tx, output_index)`, or `-1`, among the first
/// `n` rows.
pub open spec fn find_sent_upto(sent: Seq<SentV>, tx: int, output_index: int, n: int) -> int
    decreases n,
{
    if n <= 0 {
        -1
    } else {
        let p = find_sent_upto(sent, tx, output_index, n - 1);
        if p >= 0 {
            p
        } else if sent[n - 1].tx == tx && sent[n - 1].output_index == output_index {
            n - 1
        } else {
            -1
        }
    }
}

/// First sent-note row owned by `(tx, output_index)`, or `-1`.
pub open spec fn find_sent(sent: Seq<SentV>, tx: int, output_index: int) -> int {
    find_sent_upto(sent, tx, output_index, sent.len() as int)
}

/// Upsert of a sent-note record by its owning `(tx, output_index)`.
pub open spec fn put_sent_note_spec(
    sent: Seq<SentV>,
    tx: int,
    output_index: int,
    from_account: int,
    address: Seq<u8>,
    value: int,
    memo: Option<Seq<u8>>,
) -> Seq<SentV> {
    let i = find_sent(sent, tx, output_index);
    let row = SentV {
        tx: tx,
        output_index: output_index,
        from_account: from_account,
        address: address,
        value: value,
        memo: memo,
    };
    if i >= 0 {
        sent.update(i, row)
    } else {
        sent.push(row)
    }
}

/// Effect of recording the first `n` decrypted outputs of a standalone
/// transaction: outgoing ones become sent-note records, the others received
/// notes (with their memo, no nullifier yet, change flag unknown).
pub open spec fn apply_dec_outputs(
    notes: Seq<NoteV>,
    sent: Seq<SentV>,
    tx_ref: int,
    outs: Seq<DecOutV>,
    n: int,
) -> (Seq<NoteV>, Seq<SentV>)
    decreases n,
{
    if n <= 0 {
        (notes, sent)
    } else {
        let prev = apply_dec_outputs(notes, sent, tx_ref, outs, n - 1);
        let o = outs[n - 1];
        if o.outgoing {
            (
                prev.0,
                put_sent_note_spec(
                    prev.1,
                    tx_ref,
                    o.index,
                    o.account,
                    o.to,
                    o.value,
                    Some(o.memo),
                ),
            )
        } else {
            (
                crate::advance::put_received_note_spec(
                    prev.0,
                    tx_ref,
                    o.index,
                    o.account,
                    o.diversifier,
                    o.value,
                    o.rcm,
                    Some(o.memo),
                    None,
                    None,
                ),
                prev.1,
            )
        }
    }
}

/// The store after recording a standalone decrypted transaction.
pub open spec fn store_received_tx_spec(v: StoreView, rtx: ReceivedTxV) -> StoreView {
    let tx_ref = put_tx_meta_ref(v.txs, rtx.txid);
    let tables = apply_dec_outputs(
        v.notes,
        v.sent,
        tx_ref,
        rtx.outputs,
        rtx.outputs.len() as int,
    );
    StoreView {
        txs: put_tx_data_spec(v.txs, rtx.txid, None, rtx.expiry_height, rtx.raw),
        notes: tables.0,
        sent: tables.1,
        ..v
    }
}

/// Effect of marking the first `n` input nullifiers of a spend as spent.
pub open spec fn mark_all_spent(notes: Seq<NoteV>, spends: Seq<Seq<u8>>, tx: int, n: int) -> Seq<
    NoteV,
>
    decreases n,
{
    if n <= 0 {
        notes
    } else {
        mark_spent_spec(mark_all_spent(notes, spends, tx, n - 1), spends[n - 1], tx)
    }
}

/// The store after recording a transaction this wallet built at time
/// `created`: the transaction's data is stored, every input note is locked as
/// spent by it (though it is not yet mined), and a sent-note record is kept.
pub open spec fn store_sent_tx_spec(v: StoreView, stx: SentTxV, created: int) -> StoreView {
    let tx_ref = put_tx_meta_ref(v.txs, stx.txid);
    StoreView {
        txs: put_tx_data_spec(v.txs, stx.txid, Some(created), stx.expiry_height, stx.raw),
        notes: mark_all_spent(v.notes, stx.spends, tx_ref, stx.spends.len() as int),
        sent: put_sent_note_spec(
            v.sent,
            tx_ref,
            stx.output_index,
            stx.account,
            stx.recipient,
            stx.value,
            stx.memo,
        ),
        ..v
    }
}

/// Relies on `time::OffsetDateTime::now_utc`: the wall clock at the moment of
/// the call, as whole seconds since the Unix epoch. The value depends on the
/// clock, so nothing is promised of it.
#[verifier::external_body]
fn unix_time_now() -> i64 {
    time::OffsetDateTime::now_utc().unix_timestamp()
}

impl WalletStore {
    /// Upsert the sent-note record owned by `(tx_ref, output_index)`.
    pub(crate) fn put_sent_note(
        &mut self,
        tx_ref: usize,
        output_index: u32,
        from_account: u32,
        address: &Vec<u8>,
        value: u64,
        memo: &Option<Vec<u8>>,
    )
        ensures
            final(self)@.sent == put_sent_note_spec(
                old(self)@.sent,
                tx_ref as int,
                output_index as int,
                from_account as int,
                address@,
                value as int,
                view_opt_bytes(*memo),
            ),
            final(self)@ == (crate::store::StoreView { sent: final(self)@.sent, ..old(self)@ }),
    {
        let ghost sent0 = self@.sent;
        let row_new = SentNoteRow {
            tx: tx_ref,
            output_index: output_index,
            from_account: from_account,
            address: clone_bytes(address),
            value: value,
            memo: clone_opt_bytes(memo),
        };
        let mut i: usize = 0;
        while i < self.sent.len()
            invariant
                0 <= i <= self.sent.len(),
                *self == *old(self),
                sent0 == self@.sent,
                sent0.len() == self.sent@.len(),
                find_sent_upto(sent0, tx_ref as int, output_index as int, i as int) == -1,
                row_new@ == (SentV {
                    tx: tx_ref as int,
                    output_index: output_index as int,
                    from_account: from_account as int,
                    address: address@,
                    value: value as int,
                    memo: view_opt_bytes(*memo),
                }),
            decreases self.sent.len() - i,
        {
            if self.sent[i].tx == tx_ref && self.sent[i].output_index == output_index {
                assert(find_sent_upto(sent0, tx_ref as int, output_index as int, i + 1)
                    == i as int);
                proof {
                    lemma_find_sent_stable(
                        sent0,
                        tx_ref as int,
                        output_index as int,
                        i + 1,
                        sent0.len() as int,
                    );
                }
                self.sent.set(i, row_new);
                assert(self@.sent =~= put_sent_note_spec(
                    sent0,
                    tx_ref as int,
                    output_index as int,
                    from_account as int,
                    address@,
                    value as int,
                    view_opt_bytes(*memo),
                ));
                return ;
            }
            i += 1;
        }
        self.sent.push(row_new);
        assert(self@.sent =~= put_sent_note_spec(
            sent0,
            tx_ref as int,
            output_index as int,
            from_account as int,
            address@,
            value as int,
            view_opt_bytes(*memo),
        ));
    }

    /// Record a standalone transaction decrypted with the wallet's keys: its
    /// data is stored, outgoing outputs become sent-note records, and the
    /// others received notes. Returns the transaction's row.
    #[verifier::loop_isolation(false)]
    pub fn store_received_tx(&mut self, rtx: &ReceivedTx) -> (r: Result<usize, WalletError>)
        ensures
            r matches Ok(t) && t as int == put_tx_meta_ref(old(self)@.txs, rtx@.txid),
            final(self)@ == store_received_tx_spec(old(self)@, rtx@),
    {
        let ghost v0 = self@;
        let tx_ref = self.put_tx_data(&rtx.txid, None, rtx.expiry_height, &rtx.raw);
        let mut oi: usize = 0;
        while oi < rtx.outputs.len()
            invariant
                0 <= oi <= rtx.outputs.len(),
                self@.notes == apply_dec_outputs(
                    v0.notes,
                    v0.sent,
                    tx_ref as int,
                    rtx@.outputs,
                    oi as int,
                ).0,
                self@.sent == apply_dec_outputs(
                    v0.notes,
                    v0.sent,
                    tx_ref as int,
                    rtx@.outputs,
                    oi as int,
                ).1,
                self@ == (crate::store::StoreView {
                    txs: put_tx_data_spec(
                        v0.txs,
                        rtx@.txid,
                        None,
                        rtx@.expiry_height,
                        rtx@.raw,
                    ),
                    notes: self@.notes,
                    sent: self@.sent,
                    ..v0
                }),
            decreases rtx.outputs.len() - oi,
        {
            let o = &rtx.outputs[oi];
            assert(rtx@.outputs[oi as int] == o@);
            if o.outgoing {
                let memo_opt: Option<Vec<u8>> = Some(clone_bytes(&o.memo));
                self.put_sent_note(tx_ref, o.index, o.account, &o.to, o.value, &memo_opt);
            } else {
                let memo_opt: Option<Vec<u8>> = Some(clone_bytes(&o.memo));
                let no_nf: Option<Vec<u8>> = None;
                let _ = self.put_received_note(
                    tx_ref,
                    o.index,
                    o.account,
                    &o.diversifier,
                    o.value,
                    &o.rcm,
                    &memo_opt,
                    &no_nf,
                    None,
                );
            }
            oi += 1;
        }
        assert(final(self)@ =~= store_received_tx_spec(v0, rtx@));
        Ok(tx_ref)
    }

    /// Record a transaction this wallet built, stamped as created at `created`
    /// (seconds since the Unix epoch): stores its data, locks every input note
    /// as spent by it so later selections skip them, and keeps the sent-note
    /// record. Returns the transaction's row.
    #[verifier::loop_isolation(false)]
    pub fn store_sent_tx(&mut self, stx: &SentTx, created: i64) -> (r: Result<usize, WalletError>)
        ensures
            r matches Ok(t) && t as int == put_tx_meta_ref(old(self)@.txs, stx@.txid),
            final(self)@ == store_sent_tx_spec(old(self)@, stx@, created as int),
    {
        let ghost v0 = self@;
        let tx_ref = self.put_tx_data(&stx.txid, Some(created), stx.expiry_height, &stx.raw);
        let mut si: usize = 0;
        while si < stx.spends.len()
            invariant
                0 <= si <= stx.spends.len(),
                self@.notes == mark_all_spent(v0.notes, stx@.spends, tx_ref as int, si as int),
                self@ == (crate::store::StoreView {
                    txs: put_tx_data_spec(
                        v0.txs,
                        stx@.txid,
                        Some(created as int),
                        stx@.expiry_height,
                        stx@.raw,
                    ),
                    notes: self@.notes,
                    ..v0
                }),
            decreases stx.spends.len() - si,
        {
            assert(stx@.spends[si as int] == stx.spends@[si as int]@);
            self.mark_spent(tx_ref, &stx.spends[si]);
            si += 1;
        }
        self.put_sent_note(
            tx_ref,
            stx.output_index,
            stx.account,
            &stx.recipient,
            stx.value,
            &stx.memo,
        );
        assert(final(self)@ =~= store_sent_tx_spec(v0, stx@, created as int));
        Ok(tx_ref)
    }

    /// Record a transaction this wallet built, stamped with the wall clock.
    /// Whatever instant the clock reports, the effect is `store_sent_tx` at
    /// that instant.
    pub fn record_sent_tx(&mut self, stx: &SentTx) -> (r: Result<usize, WalletError>)
        ensures
            r matches Ok(t) && t as int == put_tx_meta_ref(old(self)@.txs, stx@.txid),
            exists|c: int| final(self)@ == store_sent_tx_spec(old(self)@, stx@, c),
    {
        let created = unix_time_now();
        let r = self.store_sent_tx(stx, created);
        assert(final(self)@ == store_sent_tx_spec(old(self)@, stx@, created as int));
        r
    }

    /// The height a standalone transaction should be decrypted at: the height
    /// it was mined at if known, otherwise just past the chain tip. Fails with
    /// `ScanRequired` before any block has been scanned.
    pub fn tx_scan_height(&self, txid: &Vec<u8>) -> (r: Result<u32, WalletError>)
        requires
            self@.tip() matches Some(t) ==> t < u32::MAX,
        ensures
            self@.blocks.len() == 0 <==> (r matches Err(WalletError::ScanRequired)),
            self@.blocks.len() > 0 ==> r is Ok,
            r matches Ok(h) ==> self@.blocks.len() > 0 && ({
                let i = crate::advance::find_tx(self@.txs, txid@);
                if i >= 0 && self@.txs[i].block is Some {
                    Some(h as int) == self@.txs[i].block
                } else {
                    h as int == self@.tip()->Some_0 + 1
                }
            }),
    {
        if self.blocks.len() == 0 {
            return Err(WalletError::ScanRequired);
        }
        let tip = self.blocks[self.blocks.len() - 1].height;
        match self.find_tx_row(txid) {
            Some(i) => {
                match self.txs[i].block {
                    Some(h) => Ok(h),
                    None => Ok(tip + 1),
                }
            },
            None => Ok(tip + 1),
        }
    }

    /// Row of the first transaction holding `txid`, if any.
    pub(crate) fn find_tx_row(&self, txid: &Vec<u8>) -> (r: Option<usize>)
        ensures
            match r {
                Some(i) => i < self@.txs.len() && i as int == crate::advance::find_tx(
                    self@.txs,
                    txid@,
                ),
                None => crate::advance::find_tx(self@.txs, txid@) == -1,
            },
    {
        let mut i: usize = 0;
        while i < self.txs.len()
            invariant
                0 <= i <= self.txs.len(),
                self@.txs.len() == self.txs@.len(),
                crate::advance::find_tx_upto(self@.txs, txid@, i as int) == -1,
            decreases self.txs.len() - i,
        {
            if bytes_eq(&self.txs[i].txid, txid) {
                assert(crate::advance::find_tx_upto(self@.txs, txid@, i + 1) == i as int);
                proof {
                    crate::scan::lemma_find_tx_range(self@.txs, txid@, self@.txs.len() as int);
                    crate::advance::lemma_find_tx_stable(
                        self@.txs,
                        txid@,
                        i + 1,
                        self@.txs.len() as int,
                    );
                }
                return Some(i);
            }
            i += 1;
        }
        None
    }
}

/// Once a match is found among the first `n` rows, scanning further does not
/// change which row `find_sent_upto` names.
pub proof fn lemma_find_sent_stable(sent: Seq<SentV>, tx: int, output_index: int, n: int, m: int)
    requires
        0 <= n <= m <= sent.len(),
        find_sent_upto(sent, tx, output_index, n) >= 0,
    ensures
        find_sent_upto(sent, tx, output_index, m) == find_sent_upto(sent, tx, output_index, n),
    decreases m - n,
{
    if n < m {
        lemma_find_sent_stable(sent, tx, output_index, n, m - 1);
    }
}

} // verus!
