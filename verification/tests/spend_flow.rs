//! Checks of note selection, spend planning, recording built transactions,
//! the change-capture pass, and the expiry sweep.

use shielded_wallet::advance::{Block, BlockTx, ShieldedOutput};
use shielded_wallet::spend::DEFAULT_FEE;
use shielded_wallet::store::WalletStore;
use shielded_wallet::txstore::{DecryptedOutput, ReceivedTx, SentTx};
use shielded_wallet::types::{AccountRow, NoteId, OvkPolicy, Recipient, WalletError};

fn account(seed: u8) -> AccountRow {
    AccountRow {
        extfvk: vec![seed; 8],
        ovk: vec![seed.wrapping_add(1); 4],
        address: vec![seed.wrapping_add(2); 6],
    }
}

fn block_with_notes(height: u32, txid: u8, notes: &[(u64, u8)]) -> Block {
    let outputs = notes
        .iter()
        .enumerate()
        .map(|(i, (value, nf))| ShieldedOutput {
            output_index: i as u32,
            account: 0,
            diversifier: vec![7; 11],
            value: *value,
            rcm: vec![9; 32],
            nf: Some(vec![*nf; 32]),
            is_change: false,
            witness: vec![height as u8, i as u8],
        })
        .collect();
    Block {
        height,
        hash: vec![height as u8; 4],
        time: 1000 + height,
        sapling_tree: vec![0xaa],
        txs: vec![BlockTx {
            txid: vec![txid; 32],
            index: 0,
            spends: Vec::new(),
            outputs,
        }],
    }
}

#[test]
fn selection_is_deterministic_and_ascending() {
    let mut w = WalletStore::new(vec![account(1)]);
    w.advance_by_block(&block_with_notes(10, 1, &[(2, 11), (3, 12), (9, 13)]), &Vec::new())
        .unwrap();
    let a = w.select_spendable_notes(0, 4, 10);
    let b = w.select_spendable_notes(0, 4, 10);
    assert_eq!(a.len(), 2);
    assert_eq!(a[0].id, 0);
    assert_eq!(a[0].value, 2);
    assert_eq!(a[1].id, 1);
    assert_eq!(a[1].value, 3);
    assert_eq!(b.len(), a.len());
    for (x, y) in a.iter().zip(b.iter()) {
        assert_eq!(x.id, y.id);
        assert_eq!(x.value, y.value);
        assert_eq!(x.witness, y.witness);
    }
}

#[test]
fn selection_returns_everything_when_short() {
    let mut w = WalletStore::new(vec![account(1)]);
    w.advance_by_block(&block_with_notes(10, 1, &[(2, 11), (3, 12)]), &Vec::new())
        .unwrap();
    let a = w.select_spendable_notes(0, 100, 10);
    assert_eq!(a.len(), 2);
}

#[test]
fn plan_spend_rejects_wrong_key() {
    let mut w = WalletStore::new(vec![account(1)]);
    w.advance_by_block(&block_with_notes(10, 1, &[(5, 11)]), &Vec::new())
        .unwrap();
    let r = w.plan_spend(
        0,
        &vec![9u8; 8],
        Recipient::Shielded(vec![1, 2, 3]),
        3,
        None,
        OvkPolicy::Sender,
        1,
    );
    assert!(matches!(r, Err(WalletError::InvalidAuthorization)));
}

#[test]
fn plan_spend_requires_a_scanned_chain() {
    let w = WalletStore::new(vec![account(1)]);
    let r = w.plan_spend(
        0,
        &vec![1u8; 8],
        Recipient::Shielded(vec![1, 2, 3]),
        3,
        None,
        OvkPolicy::Sender,
        1,
    );
    assert!(matches!(r, Err(WalletError::ScanRequired)));
}

#[test]
fn insufficient_balance_reports_true_sums() {
    let mut w = WalletStore::new(vec![account(1)]);
    w.advance_by_block(&block_with_notes(10, 1, &[(5, 11)]), &Vec::new())
        .unwrap();
    let r = w.plan_spend(
        0,
        &vec![1u8; 8],
        Recipient::Shielded(vec![1, 2, 3]),
        5,
        None,
        OvkPolicy::Sender,
        1,
    );
    match r {
        Err(WalletError::InsufficientBalance(got, want)) => {
            assert_eq!(got, 5);
            assert_eq!(want, 6);
        }
        other => panic!("expected InsufficientBalance, got {:?}", other.map(|p| p.value)),
    }
    // the default fee follows the same rule
    let r2 = w.plan_spend(
        0,
        &vec![1u8; 8],
        Recipient::Shielded(vec![1, 2, 3]),
        5,
        None,
        OvkPolicy::Sender,
        DEFAULT_FEE,
    );
    assert!(matches!(
        r2,
        Err(WalletError::InsufficientBalance(5, v)) if v == 5 + DEFAULT_FEE
    ));
}

#[test]
fn spend_of_three_selects_the_five_note_and_change_returns() {
    // wallet with one note of value 5, fee 1, request to send 3
    let mut w = WalletStore::new(vec![account(1)]);
    w.advance_by_block(&block_with_notes(10, 1, &[(5, 11)]), &Vec::new())
        .unwrap();
    let plan = w
        .plan_spend(
            0,
            &vec![1u8; 8],
            Recipient::Shielded(vec![1, 2, 3]),
            3,
            Some(vec![0x4d]),
            OvkPolicy::Sender,
            1,
        )
        .unwrap();
    // selection yields that note: sum 5 >= 4
    assert_eq!(plan.notes.len(), 1);
    assert_eq!(plan.notes[0].value, 5);
    assert_eq!(plan.change, 1);
    assert_eq!(plan.target_height, 11);
    assert_eq!(plan.anchor_height, 10);
    assert_eq!(plan.ovk, Some(vec![2u8; 4]));

    // the builder (an external collaborator) would now produce the raw
    // transaction with one spend, one recipient output and one change output;
    // the self-decrypt pass captures the change as a received note at once
    let built_txid = vec![200u8; 32];
    let change_capture = ReceivedTx {
        txid: built_txid.clone(),
        expiry_height: 30,
        raw: vec![0xde, 0xad],
        outputs: vec![DecryptedOutput {
            index: 1,
            account: 0,
            diversifier: vec![7; 11],
            value: plan.change,
            rcm: vec![8; 32],
            memo: vec![0xf6],
            to: vec![5u8; 6],
            outgoing: false,
        }],
    };
    let tx_ref = w.store_received_tx(&change_capture).unwrap();

    let stx = SentTx {
        txid: built_txid.clone(),
        expiry_height: 30,
        raw: vec![0xde, 0xad],
        spends: vec![vec![11u8; 32]],
        output_index: 0,
        account: 0,
        recipient: vec![1, 2, 3],
        value: 3,
        memo: None,
    };
    let tx_ref2 = w.store_sent_tx(&stx, 1_700_000_000).unwrap();
    assert_eq!(tx_ref, tx_ref2);

    // the input note is locked, so a second identical spend cannot select it
    let r = w.plan_spend(
        0,
        &vec![1u8; 8],
        Recipient::Shielded(vec![1, 2, 3]),
        3,
        None,
        OvkPolicy::Sender,
        1,
    );
    assert!(matches!(r, Err(WalletError::InsufficientBalance(0, 4))));

    // the change note exists but is spendable only once a block advance gives
    // it a witness at a confirmed anchor
    assert_eq!(w.get_memo(NoteId::ReceivedNoteId(1)), Ok(Some(vec![0xf6])));
    assert_eq!(w.get_spendable_notes(0, 10).len(), 0);
    let mut confirm = block_with_notes(11, 200, &[]);
    confirm.txs[0].outputs.push(ShieldedOutput {
        output_index: 1,
        account: 0,
        diversifier: vec![7; 11],
        value: 1,
        rcm: vec![8; 32],
        nf: Some(vec![77u8; 32]),
        is_change: true,
        witness: vec![11, 1],
    });
    w.advance_by_block(&confirm, &Vec::new()).unwrap();
    let spendable = w.get_spendable_notes(0, 11);
    assert_eq!(spendable.len(), 1);
    assert_eq!(spendable[0].value, 1);
}

#[test]
fn ovk_policy_resolves_custom_and_discard() {
    let mut w = WalletStore::new(vec![account(1)]);
    w.advance_by_block(&block_with_notes(10, 1, &[(5, 11)]), &Vec::new())
        .unwrap();
    let custom = w
        .plan_spend(
            0,
            &vec![1u8; 8],
            Recipient::Transparent(vec![4, 4]),
            3,
            None,
            OvkPolicy::Custom(vec![0x55; 4]),
            1,
        )
        .unwrap();
    assert_eq!(custom.ovk, Some(vec![0x55; 4]));
    let discard = w
        .plan_spend(
            0,
            &vec![1u8; 8],
            Recipient::Transparent(vec![4, 4]),
            3,
            None,
            OvkPolicy::Discard,
            1,
        )
        .unwrap();
    assert_eq!(discard.ovk, None);
}

#[test]
fn expired_pending_spend_frees_its_notes() {
    // pending sent transaction with expiry height 100, not mined by block 101
    let mut w = WalletStore::new(vec![account(1)]);
    w.advance_by_block(&block_with_notes(10, 1, &[(5, 11)]), &Vec::new())
        .unwrap();
    let stx = SentTx {
        txid: vec![200u8; 32],
        expiry_height: 100,
        raw: vec![1],
        spends: vec![vec![11u8; 32]],
        output_index: 0,
        account: 0,
        recipient: vec![1, 2, 3],
        value: 3,
        memo: None,
    };
    w.store_sent_tx(&stx, 1_700_000_000).unwrap();
    assert_eq!(w.get_spendable_notes(0, 10).len(), 0);

    // a block at height 100 does not yet free it (100 < 100 is false)
    let mut b100 = block_with_notes(100, 2, &[]);
    b100.txs.clear();
    w.advance_by_block(&b100, &Vec::new()).unwrap();
    assert_eq!(w.get_spendable_notes(0, 10).len(), 0);

    // at block 101 the expiry sweep reverts spent-by to unspent
    let mut b101 = block_with_notes(101, 3, &[]);
    b101.txs.clear();
    w.advance_by_block(&b101, &Vec::new()).unwrap();
    assert_eq!(w.get_nullifiers(), vec![(0u32, vec![11u8; 32])]);
    assert_eq!(w.get_spendable_notes(0, 10).len(), 1);
}

#[test]
fn mined_sent_tx_is_not_swept() {
    let mut w = WalletStore::new(vec![account(1)]);
    w.advance_by_block(&block_with_notes(10, 1, &[(5, 11)]), &Vec::new())
        .unwrap();
    let stx = SentTx {
        txid: vec![200u8; 32],
        expiry_height: 100,
        raw: vec![1],
        spends: vec![vec![11u8; 32]],
        output_index: 0,
        account: 0,
        recipient: vec![1, 2, 3],
        value: 3,
        memo: None,
    };
    w.store_sent_tx(&stx, 1_700_000_000).unwrap();
    // the transaction is mined at height 50: the sweep must leave it alone
    let mined = Block {
        height: 50,
        hash: vec![50; 4],
        time: 1050,
        sapling_tree: vec![0xaa],
        txs: vec![BlockTx {
            txid: vec![200u8; 32],
            index: 0,
            spends: vec![vec![11u8; 32]],
            outputs: Vec::new(),
        }],
    };
    w.advance_by_block(&mined, &Vec::new()).unwrap();
    assert_eq!(w.get_tx_height(&vec![200u8; 32]), Some(50));
    let mut b101 = Block {
        height: 101,
        hash: vec![101; 4],
        time: 1101,
        sapling_tree: vec![0xaa],
        txs: Vec::new(),
    };
    w.advance_by_block(&b101, &Vec::new()).unwrap();
    assert_eq!(w.get_spendable_notes(0, 101).len(), 0);
}

#[test]
fn sent_and_received_memos_and_record_with_clock() {
    let mut w = WalletStore::new(vec![account(1)]);
    w.advance_by_block(&block_with_notes(10, 1, &[(5, 11)]), &Vec::new())
        .unwrap();
    let stx = SentTx {
        txid: vec![201u8; 32],
        expiry_height: 0,
        raw: vec![2],
        spends: Vec::new(),
        output_index: 0,
        account: 0,
        recipient: vec![9, 9],
        value: 1,
        memo: Some(vec![0x4d]),
    };
    let tx_ref = w.record_sent_tx(&stx).unwrap();
    assert_eq!(w.get_memo(NoteId::SentNoteId(0)), Ok(Some(vec![0x4d])));
    assert_eq!(w.get_memo(NoteId::ReceivedNoteId(0)), Ok(None));
    assert!(matches!(
        w.get_memo(NoteId::SentNoteId(5)),
        Err(WalletError::InvalidNoteReference)
    ));
    assert!(matches!(
        w.get_memo(NoteId::ReceivedNoteId(9)),
        Err(WalletError::InvalidNoteReference)
    ));
    assert_eq!(w.get_tx_height(&vec![201u8; 32]), None);
    assert!(tx_ref >= 1);
}

#[test]
fn tx_scan_height_tracks_tip_and_mined_height() {
    let mut w = WalletStore::new(vec![account(1)]);
    assert!(matches!(
        w.tx_scan_height(&vec![1u8; 32]),
        Err(WalletError::ScanRequired)
    ));
    w.advance_by_block(&block_with_notes(10, 1, &[(5, 11)]), &Vec::new())
        .unwrap();
    assert_eq!(w.tx_scan_height(&vec![1u8; 32]), Ok(10));
    assert_eq!(w.tx_scan_height(&vec![9u8; 32]), Ok(11));
    assert_eq!(w.get_target_and_anchor_heights(), Some((11, 10)));
    for h in 11u32..=40 {
        let b = Block {
            height: h,
            hash: vec![h as u8; 4],
            time: 1000 + h,
            sapling_tree: vec![0xaa],
            txs: Vec::new(),
        };
        w.advance_by_block(&b, &Vec::new()).unwrap();
    }
    assert_eq!(w.get_target_and_anchor_heights(), Some((41, 31)));
}

#[test]
fn selection_stops_exactly_at_target() {
    let mut w = WalletStore::new(vec![account(1)]);
    w.advance_by_block(&block_with_notes(10, 1, &[(2, 11), (2, 12), (2, 13)]), &Vec::new())
        .unwrap();
    // 2 + 2 reaches 4 exactly: the third note stays unselected
    let sel = w.select_spendable_notes(0, 4, 10);
    assert_eq!(sel.len(), 2);
    // a zero target selects nothing
    assert_eq!(w.select_spendable_notes(0, 0, 10).len(), 0);
}

#[test]
fn latest_witness_at_or_below_anchor_is_used() {
    let mut w = WalletStore::new(vec![account(1)]);
    w.advance_by_block(&block_with_notes(10, 1, &[(5, 11)]), &Vec::new())
        .unwrap();
    // later blocks refresh the note's witness
    for h in [11u32, 12] {
        let updated = vec![(NoteId::ReceivedNoteId(0), vec![h as u8, 0xcc])];
        let mut b = Block {
            height: h,
            hash: vec![h as u8; 4],
            time: 1000 + h,
            sapling_tree: vec![0xaa],
            txs: Vec::new(),
        };
        b.txs.clear();
        w.advance_by_block(&b, &updated).unwrap();
    }
    // at anchor 11 the witness recorded at 11 wins over the one at 10
    let at11 = w.get_spendable_notes(0, 11);
    assert_eq!(at11.len(), 1);
    assert_eq!(at11[0].witness, vec![11u8, 0xcc]);
    // at anchor 12 the latest witness wins
    let at12 = w.get_spendable_notes(0, 12);
    assert_eq!(at12[0].witness, vec![12u8, 0xcc]);
}
