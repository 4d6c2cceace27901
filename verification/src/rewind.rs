use vstd::prelude::*;

use crate::store::{RETENTION, StoreView, WalletStore};
use crate::types::{BlockV, NoteRow, NoteV, TxRow, TxV, WalletError, WitV, clone_bytes,
    clone_opt_bytes};

verus! {

/// Blocks that survive a rewind to `h`: those at or below it, in order.
pub open spec fn rewind_blocks_upto(blocks: Seq<BlockV>, h: int, n: int) -> Seq<BlockV>
    decreases n,
{
    if n <= 0 {
        Seq::empty()
    } else {
        let rest = rewind_blocks_upto(blocks, h, n - 1);
        if blocks[n - 1].height <= h {
            rest.push(blocks[n - 1])
        } else {
            rest
        }
    }
}

/// Witnesses that survive a rewind to `h`: those recorded at or below it.
pub open spec fn rewind_wits_upto(wits: Seq<WitV>, h: int, n: int) -> Seq<WitV>
    decreases n,
{
    if n <= 0 {
        Seq::empty()
    } else {
        let rest = rewind_wits_upto(wits, h, n - 1);
        if wits[n - 1].block <= h {
            rest.push(wits[n - 1])
        } else {
            rest
        }
    }
}

/// A transaction mined above `h` loses its block association: it returns to
/// pending.
pub open spec fn unmined_tx(t: TxV, h: int) -> TxV {
    if t.block matches Some(b) && b > h {
        TxV { block: None, tx_index: None, ..t }
    } else {
        t
    }
}

/// The first `n` transactions after a rewind to `h`.
pub open spec fn rewind_txs_upto(txs: Seq<TxV>, h: int, n: int) -> Seq<TxV>
    decreases n,
{
    if n <= 0 {
        Seq::empty()
    } else {
        rewind_txs_upto(txs, h, n - 1).push(unmined_tx(txs[n - 1], h))
    }
}

/// A note whose spending transaction is removed from the chain by a rewind to
/// `h` (it was mined above `h`) becomes unspent again.
pub open spec fn rewound_note(n: NoteV, txs: Seq<TxV>, h: int) -> NoteV {
    if n.spent matches Some(t) && 0 <= t < txs.len() && (txs[t].block matches Some(b) && b > h) {
        NoteV { spent: None, ..n }
    } else {
        n
    }
}

/// The first `n` notes after a rewind to `h`, judged against the transaction
/// table as it stood before the rewind.
pub open spec fn rewind_notes_upto(notes: Seq<NoteV>, txs: Seq<TxV>, h: int, n: int) -> Seq<NoteV>
    decreases n,
{
    if n <= 0 {
        Seq::empty()
    } else {
        rewind_notes_upto(notes, txs, h, n - 1).push(rewound_note(notes[n - 1], txs, h))
    }
}

/// The store after a rewind to `h`: blocks and witnesses above `h` are
/// removed, transactions mined above `h` return to pending, and notes spent by
/// such transactions become unspent. Accounts and sent-note records persist.
pub open spec fn rewind_spec(v: StoreView, h: int) -> StoreView {
    StoreView {
        accounts: v.accounts,
        blocks: rewind_blocks_upto(v.blocks, h, v.blocks.len() as int),
        txs: rewind_txs_upto(v.txs, h, v.txs.len() as int),
        notes: rewind_notes_upto(v.notes, v.txs, h, v.notes.len() as int),
        sent: v.sent,
        wits: rewind_wits_upto(v.wits, h, v.wits.len() as int),
    }
}

/// A rewind deeper than the retention window cannot be reconstructed from the
/// retained witnesses.
pub open spec fn rewind_in_window(v: StoreView, h: int) -> bool {
    v.tip()->Some_0 - h <= RETENTION as int
}

impl WalletStore {
    /// Truncate state back to `height`: removes all blocks and witnesses above
    /// it and returns transactions mined above it to pending, restoring their
    /// input notes to unspent. A rewind to the tip or above changes nothing.
    /// Fails, changing nothing, if `height` lies more than the retention
    /// window below the tip: the pruned witnesses cannot be rebuilt.
    #[verifier::loop_isolation(false)]
    pub fn rewind_to_height(&mut self, height: u32) -> (r: Result<(), WalletError>)
        ensures
            r is Err ==> final(self)@ == old(self)@,
            old(self)@.blocks.len() == 0 || old(self)@.tip()->Some_0 <= height as int ==> r is Ok
                && final(self)@ == old(self)@,
            old(self)@.blocks.len() > 0 && (height as int) < old(self)@.tip()->Some_0
                && !rewind_in_window(old(self)@, height as int) ==> (r matches Err(
                WalletError::RewindTooDeep,
            )),
            old(self)@.blocks.len() > 0 && (height as int) < old(self)@.tip()->Some_0
                && rewind_in_window(old(self)@, height as int) ==> r is Ok && final(self)@
                == rewind_spec(old(self)@, height as int),
    {
        let ghost v0 = self@;
        if self.blocks.len() == 0 {
            return Ok(());
        }
        let tip = self.blocks[self.blocks.len() - 1].height;
        if height >= tip {
            return Ok(());
        }
        if tip - height > RETENTION {
            return Err(WalletError::RewindTooDeep);
        }

        let mut blocks2: Vec<crate::types::BlockRow> = Vec::new();
        let mut i: usize = 0;
        while i < self.blocks.len()
            invariant
                0 <= i <= self.blocks.len(),
                *self == *old(self),
                crate::store::blocks_view(blocks2@) =~= rewind_blocks_upto(
                    v0.blocks,
                    height as int,
                    i as int,
                ),
            decreases self.blocks.len() - i,
        {
            if self.blocks[i].height <= height {
                let row = crate::types::BlockRow {
                    height: self.blocks[i].height,
                    hash: clone_bytes(&self.blocks[i].hash),
                    time: self.blocks[i].time,
                    sapling_tree: clone_bytes(&self.blocks[i].sapling_tree),
                };
                assert(row@ == v0.blocks[i as int]);
                blocks2.push(row);
            }
            i += 1;
        }

        let mut wits2: Vec<crate::types::WitnessRow> = Vec::new();
        let mut j: usize = 0;
        while j < self.wits.len()
            invariant
                0 <= j <= self.wits.len(),
                *self == *old(self),
                crate::store::wits_view(wits2@) =~= rewind_wits_upto(
                    v0.wits,
                    height as int,
                    j as int,
                ),
            decreases self.wits.len() - j,
        {
            if self.wits[j].block <= height {
                let row = crate::types::WitnessRow {
                    note: self.wits[j].note,
                    block: self.wits[j].block,
                    witness: clone_bytes(&self.wits[j].witness),
                };
                assert(row@ == v0.wits[j as int]);
                wits2.push(row);
            }
            j += 1;
        }

        let mut notes2: Vec<NoteRow> = Vec::new();
        let mut k: usize = 0;
        while k < self.notes.len()
            invariant
                0 <= k <= self.notes.len(),
                *self == *old(self),
                crate::store::notes_view(notes2@) =~= rewind_notes_upto(
                    v0.notes,
                    v0.txs,
                    height as int,
                    k as int,
                ),
            decreases self.notes.len() - k,
        {
            let undone = match self.notes[k].spent {
                Some(t) => t < self.txs.len() && (match self.txs[t].block {
                    Some(b) => b > height,
                    None => false,
                }),
                None => false,
            };
            let row = NoteRow {
                tx: self.notes[k].tx,
                output_index: self.notes[k].output_index,
                account: self.notes[k].account,
                diversifier: clone_bytes(&self.notes[k].diversifier),
                value: self.notes[k].value,
                rcm: clone_bytes(&self.notes[k].rcm),
                memo: clone_opt_bytes(&self.notes[k].memo),
                nf: clone_opt_bytes(&self.notes[k].nf),
                is_change: self.notes[k].is_change,
                spent: if undone {
                    None
                } else {
                    self.notes[k].spent
                },
            };
            assert(row@ == rewound_note(v0.notes[k as int], v0.txs, height as int));
            notes2.push(row);
            k += 1;
        }

        let mut txs2: Vec<TxRow> = Vec::new();
        let mut m: usize = 0;
        while m < self.txs.len()
            invariant
                0 <= m <= self.txs.len(),
                *self == *old(self),
                crate::store::txs_view(txs2@) =~= rewind_txs_upto(v0.txs, height as int, m as int),
            decreases self.txs.len() - m,
        {
            let unmine = match self.txs[m].block {
                Some(b) => b > height,
                None => false,
            };
            let row = TxRow {
                txid: clone_bytes(&self.txs[m].txid),
                block: if unmine {
                    None
                } else {
                    self.txs[m].block
                },
                tx_index: if unmine {
                    None
                } else {
                    self.txs[m].tx_index
                },
                created: self.txs[m].created,
                expiry_height: self.txs[m].expiry_height,
                raw: clone_opt_bytes(&self.txs[m].raw),
            };
            assert(row@ == unmined_tx(v0.txs[m as int], height as int));
            txs2.push(row);
            m += 1;
        }

        self.blocks = blocks2;
        self.wits = wits2;
        self.notes = notes2;
        self.txs = txs2;
        assert(final(self)@ =~= rewind_spec(v0, height as int));
        Ok(())
    }
}

} // verus!
