use vstd::prelude::*;

use crate::types::{
    AccountRow, AccountV, BlockRow, BlockV, NoteId, NoteRow, NoteV, SentNoteRow, SentV, TxRow, TxV,
    WalletError, WitnessRow, WitV, bytes_eq, clone_bytes, clone_opt_bytes, view_opt_bytes,
};

verus! {

/// Number of blocks of witness history kept; rewinds deeper than this are unsupported.
pub const RETENTION: u32 = 100;

/// Blocks a spend anchor sits behind the chain tip, bounded below by the oldest block.
pub const ANCHOR_OFFSET: u32 = 10;

/// Spec-level image of the whole wallet store.
#[verifier::ext_equal]
pub ghost struct StoreView {
    pub accounts: Seq<AccountV>,
    pub blocks: Seq<BlockV>,
    pub txs: Seq<TxV>,
    pub notes: Seq<NoteV>,
    pub sent: Seq<SentV>,
    pub wits: Seq<WitV>,
}

impl StoreView {
    /// Every internal reference resolves, block heights strictly increase as
    /// inserted, and transaction ids are unique.
    pub open spec fn wf(self) -> bool {
        &&& forall|i: int, j: int|
            0 <= i < j < self.blocks.len() ==> self.blocks[i].height < self.blocks[j].height
        &&& forall|i: int, j: int|
            0 <= i < j < self.txs.len() ==> self.txs[i].txid != self.txs[j].txid
        &&& forall|i: int|
            0 <= i < self.notes.len() ==> 0 <= #[trigger] self.notes[i].tx < self.txs.len()
        &&& forall|i: int|
            0 <= i < self.notes.len() ==> (#[trigger] self.notes[i].spent matches Some(t) ==> 0
                <= t < self.txs.len())
        &&& forall|i: int|
            0 <= i < self.sent.len() ==> 0 <= #[trigger] self.sent[i].tx < self.txs.len()
        &&& forall|i: int|
            0 <= i < self.wits.len() ==> 0 <= #[trigger] self.wits[i].note < self.notes.len()
    }

    /// Height of the last scanned block, if any.
    pub open spec fn tip(self) -> Option<int> {
        if self.blocks.len() == 0 {
            None
        } else {
            Some(self.blocks.last().height)
        }
    }

    /// Lowest and highest scanned block heights, if any.
    pub open spec fn extrema(self) -> Option<(int, int)> {
        if self.blocks.len() == 0 {
            None
        } else {
            Some((self.blocks.first().height, self.blocks.last().height))
        }
    }
}

/// In-memory image of the wallet's durable state: the tables of the persisted
/// store, keyed by position (rows of `txs`, `notes` and `sent` are never removed,
/// so positions are stable references).
pub struct WalletStore {
    pub accounts: Vec<AccountRow>,
    pub blocks: Vec<BlockRow>,
    pub txs: Vec<TxRow>,
    pub notes: Vec<NoteRow>,
    pub sent: Vec<SentNoteRow>,
    pub wits: Vec<WitnessRow>,
}

pub open spec fn accounts_view(v: Seq<AccountRow>) -> Seq<AccountV> {
    v.map_values(|r: AccountRow| r@)
}

pub open spec fn blocks_view(v: Seq<BlockRow>) -> Seq<BlockV> {
    v.map_values(|r: BlockRow| r@)
}

pub open spec fn txs_view(v: Seq<TxRow>) -> Seq<TxV> {
    v.map_values(|r: TxRow| r@)
}

pub open spec fn notes_view(v: Seq<NoteRow>) -> Seq<NoteV> {
    v.map_values(|r: NoteRow| r@)
}

pub open spec fn sent_view(v: Seq<SentNoteRow>) -> Seq<SentV> {
    v.map_values(|r: SentNoteRow| r@)
}

pub open spec fn wits_view(v: Seq<WitnessRow>) -> Seq<WitV> {
    v.map_values(|r: WitnessRow| r@)
}

impl View for WalletStore {
    type V = StoreView;

    open spec fn view(&self) -> StoreView {
        StoreView {
            accounts: accounts_view(self.accounts@),
            blocks: blocks_view(self.blocks@),
            txs: txs_view(self.txs@),
            notes: notes_view(self.notes@),
            sent: sent_view(self.sent@),
            wits: wits_view(self.wits@),
        }
    }
}

impl WalletStore {
    /// A wallet tracking the given accounts, with no chain state scanned yet.
    pub fn new(accounts: Vec<AccountRow>) -> (r: WalletStore)
        ensures
            r@.wf(),
            r@.accounts == accounts_view(accounts@),
            r@.blocks =~= Seq::<BlockV>::empty(),
            r@.txs =~= Seq::<TxV>::empty(),
            r@.notes =~= Seq::<NoteV>::empty(),
            r@.sent =~= Seq::<SentV>::empty(),
            r@.wits =~= Seq::<WitV>::empty(),
    {
        WalletStore {
            accounts,
            blocks: Vec::new(),
            txs: Vec::new(),
            notes: Vec::new(),
            sent: Vec::new(),
            wits: Vec::new(),
        }
    }

    /// Lowest and highest scanned block heights, or `None` before any scan.
    pub fn block_height_extrema(&self) -> (r: Option<(u32, u32)>)
        ensures
            match r {
                Some((lo, hi)) => self@.extrema() == Some((lo as int, hi as int)),
                None => self@.extrema() is None,
            },
    {
        if self.blocks.len() == 0 {
            None
        } else {
            let first = self.blocks[0].height;
            let last = self.blocks[self.blocks.len() - 1].height;
            Some((first, last))
        }
    }

    /// Hash of the block scanned at exactly `height`, if one is recorded.
    pub fn get_block_hash(&self, height: u32) -> (r: Option<Vec<u8>>)
        ensures
            match r {
                Some(h) => exists|i: int|
                    0 <= i < self@.blocks.len() && self@.blocks[i].height == height
                        && h@ == self@.blocks[i].hash,
                None => forall|i: int|
                    0 <= i < self@.blocks.len() ==> self@.blocks[i].height != height,
            },
    {
        let mut i: usize = 0;
        while i < self.blocks.len()
            invariant
                0 <= i <= self.blocks.len(),
                self@.blocks.len() == self.blocks@.len(),
                forall|j: int| 0 <= j < i ==> self@.blocks[j].height != height,
            decreases self.blocks.len() - i,
        {
            if self.blocks[i].height == height {
                let h = clone_bytes(&self.blocks[i].hash);
                assert(self@.blocks[i as int].height == height && h@ == self@.blocks[
                    i as int
                ].hash);
                return Some(h);
            }
            i += 1;
        }
        None
    }

    /// Height the transaction with this id was mined at, if it is known and mined.
    pub fn get_tx_height(&self, txid: &Vec<u8>) -> (r: Option<u32>)
        ensures
            match r {
                Some(h) => exists|i: int|
                    0 <= i < self@.txs.len() && self@.txs[i].txid == txid@ && self@.txs[i].block
                        == Some(h as int),
                None => forall|i: int|
                    0 <= i < self@.txs.len() && self@.txs[i].txid == txid@
                        ==> self@.txs[i].block is None,
            },
    {
        let mut i: usize = 0;
        while i < self.txs.len()
            invariant
                0 <= i <= self.txs.len(),
                self@.txs.len() == self.txs@.len(),
                forall|j: int|
                    0 <= j < i && self@.txs[j].txid == txid@ ==> self@.txs[j].block is None,
            decreases self.txs.len() - i,
        {
            if bytes_eq(&self.txs[i].txid, txid) {
                match self.txs[i].block {
                    Some(h) => {
                        assert(self@.txs[i as int].txid == txid@ && self@.txs[i as int].block
                            == Some(h as int));
                        return Some(h);
                    },
                    None => {},
                }
            }
            i += 1;
        }
        None
    }

    /// The address registered for the account, if the account exists.
    pub fn get_address(&self, account: u32) -> (r: Option<Vec<u8>>)
        ensures
            match r {
                Some(a) => account < self@.accounts.len() && a@ == self@.accounts[
                    account as int
                ].address,
                None => account >= self@.accounts.len(),
            },
    {
        if (account as usize) < self.accounts.len() {
            Some(clone_bytes(&self.accounts[account as usize].address))
        } else {
            None
        }
    }

    /// The viewing keys of all tracked accounts, in account order.
    pub fn get_extended_full_viewing_keys(&self) -> (r: Vec<Vec<u8>>)
        ensures
            r@.len() == self@.accounts.len(),
            forall|i: int| 0 <= i < r@.len() ==> r@[i]@ == self@.accounts[i].extfvk,
    {
        let mut r: Vec<Vec<u8>> = Vec::new();
        let mut i: usize = 0;
        while i < self.accounts.len()
            invariant
                0 <= i <= self.accounts.len(),
                self@.accounts.len() == self.accounts@.len(),
                r@.len() == i,
                forall|j: int| 0 <= j < i ==> r@[j]@ == self@.accounts[j].extfvk,
            decreases self.accounts.len() - i,
        {
            r.push(clone_bytes(&self.accounts[i].extfvk));
            i += 1;
        }
        r
    }

    /// Whether `extfvk` is the viewing key registered for `account`.
    pub fn is_valid_account_extfvk(&self, account: u32, extfvk: &Vec<u8>) -> (r: bool)
        ensures
            r == (account < self@.accounts.len() && self@.accounts[account as int].extfvk
                == extfvk@),
    {
        if (account as usize) < self.accounts.len() {
            bytes_eq(&self.accounts[account as usize].extfvk, extfvk)
        } else {
            false
        }
    }

    /// Serialized commitment-tree snapshot stored with the block at `height`.
    pub fn get_commitment_tree(&self, height: u32) -> (r: Option<Vec<u8>>)
        ensures
            match r {
                Some(t) => exists|i: int|
                    0 <= i < self@.blocks.len() && self@.blocks[i].height == height
                        && t@ == self@.blocks[i].sapling_tree,
                None => forall|i: int|
                    0 <= i < self@.blocks.len() ==> self@.blocks[i].height != height,
            },
    {
        let mut i: usize = 0;
        while i < self.blocks.len()
            invariant
                0 <= i <= self.blocks.len(),
                self@.blocks.len() == self.blocks@.len(),
                forall|j: int| 0 <= j < i ==> self@.blocks[j].height != height,
            decreases self.blocks.len() - i,
        {
            if self.blocks[i].height == height {
                let t = clone_bytes(&self.blocks[i].sapling_tree);
                assert(self@.blocks[i as int].height == height && t@ == self@.blocks[
                    i as int
                ].sapling_tree);
                return Some(t);
            }
            i += 1;
        }
        None
    }

    /// Memo stored with the referenced note, or an error if the reference does
    /// not resolve to a note of that kind.
    pub fn get_memo(&self, id: NoteId) -> (r: Result<Option<Vec<u8>>, WalletError>)
        ensures
            match id {
                NoteId::ReceivedNoteId(i) => if i < self@.notes.len() {
                    r matches Ok(m) && view_opt_bytes(m) == self@.notes[i as int].memo
                } else {
                    r matches Err(WalletError::InvalidNoteReference)
                },
                NoteId::SentNoteId(i) => if i < self@.sent.len() {
                    r matches Ok(m) && view_opt_bytes(m) == self@.sent[i as int].memo
                } else {
                    r matches Err(WalletError::InvalidNoteReference)
                },
            },
    {
        match id {
            NoteId::ReceivedNoteId(i) => {
                if i < self.notes.len() {
                    Ok(clone_opt_bytes(&self.notes[i].memo))
                } else {
                    Err(WalletError::InvalidNoteReference)
                }
            },
            NoteId::SentNoteId(i) => {
                if i < self.sent.len() {
                    Ok(clone_opt_bytes(&self.sent[i].memo))
                } else {
                    Err(WalletError::InvalidNoteReference)
                }
            },
        }
    }
}

} // verus!
