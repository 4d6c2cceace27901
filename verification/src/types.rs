use vstd::prelude::*;

verus! {

/// Reference to a note row, by table: a sent note or a received note.
#[derive(Clone, Copy, PartialEq, Eq, Structural, Debug)]
pub enum NoteId {
    SentNoteId(usize),
    ReceivedNoteId(usize),
}

/// Which outgoing viewing key, if any, may later decrypt this wallet's own outputs.
#[derive(Debug)]
pub enum OvkPolicy {
    /// Reveal the spending account's own outgoing viewing key (the default).
    Sender,
    /// Reveal a caller-supplied substitute key.
    Custom(Vec<u8>),
    /// Reveal none: outputs become unrecoverable from the chain by the sender.
    Discard,
}

/// Recipient of a spend, carrying the raw form of the address.
#[derive(Debug)]
pub enum Recipient {
    Shielded(Vec<u8>),
    Transparent(Vec<u8>),
}

/// Errors surfaced by wallet operations.
#[derive(Debug, PartialEq, Eq)]
pub enum WalletError {
    /// No blocks have been scanned yet; operations needing a tip or anchor fail with this.
    ScanRequired,
    /// The supplied spending key does not correspond to the account's registered viewing key.
    InvalidAuthorization,
    /// Note selection could not reach the target value: (selected sum, required target).
    InsufficientBalance(u64, u64),
    /// An internal reference does not resolve to the expected note kind.
    InvalidNoteReference,
    /// The external proof/transaction construction collaborator rejected the inputs.
    BuilderFailure,
    /// The persisted store reported an I/O or constraint error.
    StorageFailure,
    /// A rollback attempted after a failed storage transaction itself failed; the
    /// process must abort rather than continue with an untrusted store.
    CorruptionFatal,
    /// The requested rewind height is older than the oldest retained witness.
    RewindTooDeep,
}

impl WalletError {
    /// Human-readable description of the error.
    pub fn describe(&self) -> String {
        match self {
            WalletError::ScanRequired => "no blocks have been scanned yet".to_string(),
            WalletError::InvalidAuthorization => "spending key does not match the account".to_string(),
            WalletError::InsufficientBalance(_, _) => "insufficient balance".to_string(),
            WalletError::InvalidNoteReference => "reference is not the expected note kind".to_string(),
            WalletError::BuilderFailure => "transaction builder rejected the inputs".to_string(),
            WalletError::StorageFailure => "storage reported an error".to_string(),
            WalletError::CorruptionFatal => "rollback failed; store may be corrupt".to_string(),
            WalletError::RewindTooDeep => "rewind target is below the retention window".to_string(),
        }
    }
}

/// Spec-level image of a scanned block row.
pub ghost struct BlockV {
    pub height: int,
    pub hash: Seq<u8>,
    pub time: int,
    pub sapling_tree: Seq<u8>,
}

/// Spec-level image of a transaction row.
pub ghost struct TxV {
    pub txid: Seq<u8>,
    pub block: Option<int>,
    pub tx_index: Option<int>,
    pub created: Option<int>,
    pub expiry_height: Option<int>,
    pub raw: Option<Seq<u8>>,
}

/// Spec-level image of a received-note row.
pub ghost struct NoteV {
    pub tx: int,
    pub output_index: int,
    pub account: int,
    pub diversifier: Seq<u8>,
    pub value: int,
    pub rcm: Seq<u8>,
    pub memo: Option<Seq<u8>>,
    pub nf: Option<Seq<u8>>,
    pub is_change: bool,
    pub spent: Option<int>,
}

/// Spec-level image of a sent-note row.
pub ghost struct SentV {
    pub tx: int,
    pub output_index: int,
    pub from_account: int,
    pub address: Seq<u8>,
    pub value: int,
    pub memo: Option<Seq<u8>>,
}

/// Spec-level image of a witness row.
pub ghost struct WitV {
    pub note: int,
    pub block: int,
    pub witness: Seq<u8>,
}

/// Spec-level image of an account row.
pub ghost struct AccountV {
    pub extfvk: Seq<u8>,
    pub ovk: Seq<u8>,
    pub address: Seq<u8>,
}

/// A scanned chain block: immutable once created by the block advancer.
pub struct BlockRow {
    pub height: u32,
    pub hash: Vec<u8>,
    pub time: u32,
    pub sapling_tree: Vec<u8>,
}

/// A transaction of interest: pending while `block` is `None`, mined once set.
pub struct TxRow {
    pub txid: Vec<u8>,
    pub block: Option<u32>,
    pub tx_index: Option<u32>,
    pub created: Option<i64>,
    pub expiry_height: Option<u32>,
    pub raw: Option<Vec<u8>>,
}

/// A shielded output decrypted as belonging to a tracked account.
pub struct NoteRow {
    pub tx: usize,
    pub output_index: u32,
    pub account: u32,
    pub diversifier: Vec<u8>,
    pub value: u64,
    pub rcm: Vec<u8>,
    pub memo: Option<Vec<u8>>,
    pub nf: Option<Vec<u8>>,
    pub is_change: bool,
    pub spent: Option<usize>,
}

/// A record of this wallet's own outgoing output.
pub struct SentNoteRow {
    pub tx: usize,
    pub output_index: u32,
    pub from_account: u32,
    pub address: Vec<u8>,
    pub value: u64,
    pub memo: Option<Vec<u8>>,
}

/// Incremental Merkle authentication path for a received note as of a block height.
pub struct WitnessRow {
    pub note: usize,
    pub block: u32,
    pub witness: Vec<u8>,
}

/// A tracked spending/viewing identity; immutable once created.
pub struct AccountRow {
    pub extfvk: Vec<u8>,
    pub ovk: Vec<u8>,
    pub address: Vec<u8>,
}

pub open spec fn view_opt_bytes(o: Option<Vec<u8>>) -> Option<Seq<u8>> {
    match o {
        Some(b) => Some(b@),
        None => None,
    }
}

pub open spec fn view_opt_u32(o: Option<u32>) -> Option<int> {
    match o {
        Some(x) => Some(x as int),
        None => None,
    }
}

pub open spec fn view_opt_usize(o: Option<usize>) -> Option<int> {
    match o {
        Some(x) => Some(x as int),
        None => None,
    }
}

pub open spec fn view_opt_i64(o: Option<i64>) -> Option<int> {
    match o {
        Some(x) => Some(x as int),
        None => None,
    }
}

impl View for BlockRow {
    type V = BlockV;

    open spec fn view(&self) -> BlockV {
        BlockV {
            height: self.height as int,
            hash: self.hash@,
            time: self.time as int,
            sapling_tree: self.sapling_tree@,
        }
    }
}

impl View for TxRow {
    type V = TxV;

    open spec fn view(&self) -> TxV {
        TxV {
            txid: self.txid@,
            block: view_opt_u32(self.block),
            tx_index: view_opt_u32(self.tx_index),
            created: view_opt_i64(self.created),
            expiry_height: view_opt_u32(self.expiry_height),
            raw: view_opt_bytes(self.raw),
        }
    }
}

impl View for NoteRow {
    type V = NoteV;

    open spec fn view(&self) -> NoteV {
        NoteV {
            tx: self.tx as int,
            output_index: self.output_index as int,
            account: self.account as int,
            diversifier: self.diversifier@,
            value: self.value as int,
            rcm: self.rcm@,
            memo: view_opt_bytes(self.memo),
            nf: view_opt_bytes(self.nf),
            is_change: self.is_change,
            spent: view_opt_usize(self.spent),
        }
    }
}

impl View for SentNoteRow {
    type V = SentV;

    open spec fn view(&self) -> SentV {
        SentV {
            tx: self.tx as int,
            output_index: self.output_index as int,
            from_account: self.from_account as int,
            address: self.address@,
            value: self.value as int,
            memo: view_opt_bytes(self.memo),
        }
    }
}

impl View for WitnessRow {
    type V = WitV;

    open spec fn view(&self) -> WitV {
        WitV {
            note: self.note as int,
            block: self.block as int,
            witness: self.witness@,
        }
    }
}

impl View for AccountRow {
    type V = AccountV;

    open spec fn view(&self) -> AccountV {
        AccountV {
            extfvk: self.extfvk@,
            ovk: self.ovk@,
            address: self.address@,
        }
    }
}

/// Byte-for-byte equality of two byte vectors.
pub fn bytes_eq(a: &Vec<u8>, b: &Vec<u8>) -> (r: bool)
    ensures
        r == (a@ == b@),
{
    if a.len() != b.len() {
        assert(a@.len() != b@.len());
        return false;
    }
    let mut i: usize = 0;
    while i < a.len()
        invariant
            0 <= i <= a.len(),
            a@.len() == b@.len(),
            forall|j: int| 0 <= j < i ==> a@[j] == b@[j],
        decreases a.len() - i,
    {
        if a[i] != b[i] {
            return false;
        }
        i += 1;
    }
    assert(a@ =~= b@);
    true
}

/// Fresh copy of a byte vector with the same contents.
pub fn clone_bytes(a: &Vec<u8>) -> (r: Vec<u8>)
    ensures
        r@ == a@,
{
    let mut r: Vec<u8> = Vec::new();
    let mut i: usize = 0;
    while i < a.len()
        invariant
            0 <= i <= a.len(),
            r@ == a@.subrange(0, i as int),
        decreases a.len() - i,
    {
        r.push(a[i]);
        i += 1;
    }
    assert(r@ =~= a@);
    r
}

/// Fresh copy of an optional byte vector with the same contents.
pub fn clone_opt_bytes(a: &Option<Vec<u8>>) -> (r: Option<Vec<u8>>)
    ensures
        view_opt_bytes(r) == view_opt_bytes(*a),
{
    match a {
        Some(b) => Some(clone_bytes(b)),
        None => None,
    }
}

} // verus!
