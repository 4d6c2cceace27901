//! End-to-end checks of the wallet-state engine: block advancement, witness
//! retention, the expiry sweep, rewinds, and the chain-height reads.

use shielded_wallet::advance::{Block, BlockTx, ShieldedOutput};
use shielded_wallet::store::WalletStore;
use shielded_wallet::types::{AccountRow, NoteId, WalletError};

fn account(seed: u8) -> AccountRow {
    AccountRow {
        extfvk: vec![seed; 8],
        ovk: vec![seed.wrapping_add(1); 4],
        address: vec![seed.wrapping_add(2); 6],
    }
}

fn empty_block(height: u32) -> Block {
    Block {
        height,
        hash: vec![height as u8; 4],
        time: 1000 + height,
        sapling_tree: vec![0xaa, height as u8],
        txs: Vec::new(),
    }
}

fn output(account: u32, value: u64, nf: u8, witness: u8) -> ShieldedOutput {
    ShieldedOutput {
        output_index: 0,
        account,
        diversifier: vec![7; 11],
        value,
        rcm: vec![9; 32],
        nf: Some(vec![nf; 32]),
        is_change: false,
        witness: vec![witness; 4],
    }
}

fn block_with_note(height: u32, txid: u8, account: u32, value: u64, nf: u8) -> Block {
    let mut b = empty_block(height);
    b.txs.push(BlockTx {
        txid: vec![txid; 32],
        index: 0,
        spends: Vec::new(),
        outputs: vec![output(account, value, nf, height as u8)],
    });
    b
}

#[test]
fn extrema_follow_first_and_last_advance() {
    let mut w = WalletStore::new(vec![account(1)]);
    assert_eq!(w.block_height_extrema(), None);
    for h in [10u32, 11, 12, 20] {
        w.advance_by_block(&empty_block(h), &Vec::new()).unwrap();
    }
    assert_eq!(w.block_height_extrema(), Some((10, 20)));
}

#[test]
fn advance_rejects_non_increasing_height() {
    let mut w = WalletStore::new(vec![account(1)]);
    w.advance_by_block(&empty_block(10), &Vec::new()).unwrap();
    let before = w.block_height_extrema();
    let r = w.advance_by_block(&empty_block(10), &Vec::new());
    assert!(matches!(r, Err(WalletError::StorageFailure)));
    assert_eq!(w.block_height_extrema(), before);
}

#[test]
fn advance_rejects_sent_note_witness_and_changes_nothing() {
    let mut w = WalletStore::new(vec![account(1)]);
    w.advance_by_block(&block_with_note(10, 1, 0, 5, 42), &Vec::new())
        .unwrap();
    let notes_before = w.get_spendable_notes(0, 10).len();
    let bad = vec![(NoteId::SentNoteId(0), vec![1u8, 2])];
    let r = w.advance_by_block(&empty_block(11), &bad);
    assert!(matches!(r, Err(WalletError::InvalidNoteReference)));
    // the failed advance left no trace: no block row, no witness row
    assert_eq!(w.block_height_extrema(), Some((10, 10)));
    assert_eq!(w.get_witnesses(11).len(), 0);
    assert_eq!(w.get_spendable_notes(0, 10).len(), notes_before);
}

#[test]
fn advance_rejects_missing_note_witness() {
    let mut w = WalletStore::new(vec![account(1)]);
    w.advance_by_block(&empty_block(10), &Vec::new()).unwrap();
    let bad = vec![(NoteId::ReceivedNoteId(3), vec![1u8, 2])];
    let r = w.advance_by_block(&empty_block(11), &bad);
    assert!(matches!(r, Err(WalletError::InvalidNoteReference)));
    assert_eq!(w.block_height_extrema(), Some((10, 10)));
}

#[test]
fn new_note_gets_witness_and_is_spendable() {
    let mut w = WalletStore::new(vec![account(1)]);
    let nw = w
        .advance_by_block(&block_with_note(10, 1, 0, 5, 42), &Vec::new())
        .unwrap();
    assert_eq!(nw.len(), 1);
    assert!(matches!(nw[0].0, NoteId::ReceivedNoteId(0)));
    assert_eq!(nw[0].1, vec![10u8; 4]);
    let spendable = w.get_spendable_notes(0, 10);
    assert_eq!(spendable.len(), 1);
    assert_eq!(spendable[0].value, 5);
    assert_eq!(spendable[0].witness, vec![10u8; 4]);
    // not yet confirmed at an anchor below its height
    assert_eq!(w.get_spendable_notes(0, 9).len(), 0);
    assert_eq!(w.get_balance_at(0, 10), 5);
}

#[test]
fn nullifier_match_marks_note_spent_once() {
    let mut w = WalletStore::new(vec![account(1)]);
    w.advance_by_block(&block_with_note(10, 1, 0, 5, 42), &Vec::new())
        .unwrap();
    assert_eq!(w.get_nullifiers(), vec![(0u32, vec![42u8; 32])]);

    // a later block spends that nullifier
    let mut b = empty_block(11);
    b.txs.push(BlockTx {
        txid: vec![2; 32],
        index: 0,
        spends: vec![vec![42u8; 32]],
        outputs: Vec::new(),
    });
    w.advance_by_block(&b, &Vec::new()).unwrap();
    assert_eq!(w.get_spendable_notes(0, 11).len(), 0);
    assert_eq!(w.get_nullifiers().len(), 0);
    assert_eq!(w.get_balance_at(0, 11), 0);

    // observing the same spend again is idempotent
    let mut b2 = empty_block(12);
    b2.txs.push(BlockTx {
        txid: vec![2; 32],
        index: 0,
        spends: vec![vec![42u8; 32]],
        outputs: Vec::new(),
    });
    w.advance_by_block(&b2, &Vec::new()).unwrap();
    assert_eq!(w.get_spendable_notes(0, 12).len(), 0);
    assert_eq!(w.get_tx_height(&vec![2; 32]), Some(12));
}

#[test]
fn foreign_nullifier_marks_nothing() {
    let mut w = WalletStore::new(vec![account(1)]);
    w.advance_by_block(&block_with_note(10, 1, 0, 5, 42), &Vec::new())
        .unwrap();
    let mut b = empty_block(11);
    b.txs.push(BlockTx {
        txid: vec![2; 32],
        index: 0,
        spends: vec![vec![99u8; 32]],
        outputs: Vec::new(),
    });
    w.advance_by_block(&b, &Vec::new()).unwrap();
    assert_eq!(w.get_spendable_notes(0, 11).len(), 1);
}

#[test]
fn witnesses_pruned_below_retention_window() {
    let mut w = WalletStore::new(vec![account(1)]);
    // witnesses recorded at heights 1..=50 for one tracked note
    w.advance_by_block(&block_with_note(1, 1, 0, 5, 42), &Vec::new())
        .unwrap();
    for h in 2u32..=50 {
        let updated = vec![(NoteId::ReceivedNoteId(0), vec![h as u8; 4])];
        w.advance_by_block(&empty_block(h), &updated).unwrap();
    }
    for h in 1u32..=50 {
        assert_eq!(w.get_witnesses(h).len(), 1);
    }
    // jump the chain to height 200: the floor becomes 100
    w.advance_by_block(&empty_block(200), &Vec::new()).unwrap();
    for h in 1u32..=50 {
        assert_eq!(w.get_witnesses(h).len(), 0, "height {} must be pruned", h);
    }
    // a witness recorded at the floor itself survives
    let mut w2 = WalletStore::new(vec![account(1)]);
    w2.advance_by_block(&block_with_note(100, 1, 0, 5, 42), &Vec::new())
        .unwrap();
    w2.advance_by_block(&empty_block(200), &Vec::new()).unwrap();
    assert_eq!(w2.get_witnesses(100).len(), 1);
}

#[test]
fn rewind_restores_unspent_and_replay_reproduces_state() {
    let mut w = WalletStore::new(vec![account(1)]);
    w.advance_by_block(&block_with_note(10, 1, 0, 5, 42), &Vec::new())
        .unwrap();
    let mut spend_block = empty_block(11);
    spend_block.txs.push(BlockTx {
        txid: vec![2; 32],
        index: 0,
        spends: vec![vec![42u8; 32]],
        outputs: Vec::new(),
    });
    w.advance_by_block(&spend_block, &Vec::new()).unwrap();
    assert_eq!(w.get_spendable_notes(0, 11).len(), 0);

    // rewind below the spending block: the note is unspent again
    w.rewind_to_height(10).unwrap();
    assert_eq!(w.block_height_extrema(), Some((10, 10)));
    assert_eq!(w.get_spendable_notes(0, 10).len(), 1);
    assert_eq!(w.get_witnesses(11).len(), 0);
    assert_eq!(w.get_tx_height(&vec![2; 32]), None);

    // a multi-block run of scanned blocks also replays cleanly
    w.advance_by_block(&empty_block(12), &Vec::new()).unwrap();
    w.advance_by_block(&empty_block(13), &Vec::new()).unwrap();
    w.rewind_to_height(10).unwrap();
    w.advance_by_block(&empty_block(12), &Vec::new()).unwrap();
    w.advance_by_block(&empty_block(13), &Vec::new()).unwrap();
    assert_eq!(w.block_height_extrema(), Some((10, 13)));
    assert_eq!(w.get_spendable_notes(0, 13).len(), 1);
    w.rewind_to_height(10).unwrap();

    // replaying the same block reproduces the state before the rewind
    let mut spend_block_again = empty_block(11);
    spend_block_again.txs.push(BlockTx {
        txid: vec![2; 32],
        index: 0,
        spends: vec![vec![42u8; 32]],
        outputs: Vec::new(),
    });
    w.advance_by_block(&spend_block_again, &Vec::new()).unwrap();
    assert_eq!(w.block_height_extrema(), Some((10, 11)));
    assert_eq!(w.get_spendable_notes(0, 11).len(), 0);
    assert_eq!(w.get_tx_height(&vec![2; 32]), Some(11));
}

#[test]
fn rewind_above_tip_is_a_no_op_and_too_deep_fails() {
    let mut w = WalletStore::new(vec![account(1)]);
    w.advance_by_block(&block_with_note(10, 1, 0, 5, 42), &Vec::new())
        .unwrap();
    w.advance_by_block(&empty_block(300), &Vec::new()).unwrap();
    assert!(w.rewind_to_height(400).is_ok());
    assert_eq!(w.block_height_extrema(), Some((10, 300)));
    // 300 - 150 = 150 > 100: deeper than the retention window
    let r = w.rewind_to_height(150);
    assert!(matches!(r, Err(WalletError::RewindTooDeep)));
    assert_eq!(w.block_height_extrema(), Some((10, 300)));
    // exactly at the window's edge is allowed
    assert!(w.rewind_to_height(200).is_ok());
    assert_eq!(w.block_height_extrema(), Some((10, 10)));
}

#[test]
fn block_reads_report_stored_rows() {
    let mut w = WalletStore::new(vec![account(3)]);
    w.advance_by_block(&empty_block(7), &Vec::new()).unwrap();
    assert_eq!(w.get_block_hash(7), Some(vec![7u8; 4]));
    assert_eq!(w.get_block_hash(8), None);
    assert_eq!(w.get_commitment_tree(7), Some(vec![0xaa, 7]));
    assert_eq!(w.get_commitment_tree(9), None);
    assert_eq!(w.get_address(0), Some(vec![5u8; 6]));
    assert_eq!(w.get_address(1), None);
    assert_eq!(w.get_extended_full_viewing_keys(), vec![vec![3u8; 8]]);
    assert!(w.is_valid_account_extfvk(0, &vec![3u8; 8]));
    assert!(!w.is_valid_account_extfvk(0, &vec![4u8; 8]));
    assert!(!w.is_valid_account_extfvk(1, &vec![3u8; 8]));
}

#[test]
fn errors_describe_themselves() {
    assert_eq!(
        WalletError::ScanRequired.describe(),
        "no blocks have been scanned yet"
    );
    assert_eq!(
        WalletError::InsufficientBalance(1, 2).describe(),
        "insufficient balance"
    );
    assert_eq!(
        WalletError::RewindTooDeep.describe(),
        "rewind target is below the retention window"
    );
}

#[test]
fn checked_balance_matches_exact_balance() {
    let mut w = WalletStore::new(vec![account(1)]);
    w.advance_by_block(&block_with_note(10, 1, 0, 7, 42), &Vec::new())
        .unwrap();
    assert_eq!(w.checked_balance_at(0, 10), Some(7));
    assert_eq!(w.checked_balance_at(0, 9), Some(0));
    assert_eq!(w.get_balance_at(0, 10), 7);
}

#[test]
fn tx_scan_height_is_owed_once_scanned() {
    let mut w = WalletStore::new(vec![account(1)]);
    w.advance_by_block(&empty_block(10), &Vec::new()).unwrap();
    // any transaction id gets a height once a block has been scanned
    assert!(w.tx_scan_height(&vec![0u8; 32]).is_ok());
}
