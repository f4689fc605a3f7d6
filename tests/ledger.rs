use blockhead::address::Address;
use blockhead::ledger::{Blockhead, LedgerError, CHAIN_ID, GAS_PRICE};
use blockhead::transaction::Transaction;

fn transfer(from: u8, to: u8, value: u64) -> Transaction {
    Transaction {
        from_address: Address([from; 32]),
        to_address: Address([to; 32]),
        value,
        data: vec![],
    }
}

fn seeded(allocations: &[(u8, u64)]) -> Blockhead {
    let mut ledger = Blockhead::new();
    let allocations: Vec<(Address, u64)> =
        allocations.iter().map(|&(a, v)| (Address([a; 32]), v)).collect();
    ledger.commit_genesis(1000, &allocations).unwrap();
    ledger
}

#[test]
fn test_get_none_block_by_hash() {
    let blockhead = Blockhead::new();
    let block_result = blockhead.get_block_by_hash(&blockhead::hash::Hash::from_text("abcdef"));
    assert!(block_result.is_none());
    let blockhead = seeded(&[]);
    let block_result = blockhead.get_block_by_hash(&blockhead::hash::Hash::from_text("abcdef"));
    assert!(block_result.is_none());
}

#[test]
fn test_get_inserted_block_by_hash() {
    let mut blockhead = seeded(&[(0, 100)]);
    let latest_block = blockhead.get_latest_block().unwrap();
    assert_eq!(latest_block.number(), 0);

    let transaction = Transaction {
        from_address: Address([0; 32]),
        to_address: Address([1; 32]),
        value: 100,
        data: vec![1, 2, 3],
    };
    let transaction_hash = blockhead.send_transaction(transaction, 2000).unwrap();
    let block_result = blockhead.get_block_by_hash(&transaction_hash);
    assert!(block_result.is_none());
    assert_eq!(blockhead.get_transaction(&transaction_hash).unwrap().data, vec![1, 2, 3]);
}

#[test]
fn genesis_is_latest_and_balances_default_to_zero() {
    let ledger = seeded(&[]);
    let genesis = ledger.get_latest_block().unwrap();
    assert_eq!(genesis.number(), 0);
    assert_eq!(genesis.transaction_count(), 0);
    assert_eq!(genesis.parent_hash(), blockhead::hash::Hash::zero());
    assert_eq!(genesis.timestamp(), 1000);
    assert_eq!(ledger.get_balance(&Address([7; 32])), 0);
    assert_eq!(ledger.get_nonce(&Address([7; 32])), 0);
    let by_hash = ledger.get_block_by_hash(&genesis.hash()).unwrap();
    assert_eq!(by_hash.number(), 0);
}

#[test]
fn genesis_records_its_allocations() {
    let ledger = seeded(&[(1, 5), (2, 7), (1, 3)]);
    let genesis = ledger.get_latest_block().unwrap();
    assert_eq!(genesis.transaction_count(), 3);
    assert_eq!(genesis.transactions[0].from_address, Address([0; 32]));
    assert_eq!(genesis.transactions[2].to_address, Address([1; 32]));
    assert_eq!(genesis.transactions[2].value, 3);
    assert_eq!(ledger.get_balance(&Address([1; 32])), 8);
    assert_eq!(ledger.get_balance(&Address([2; 32])), 7);
    assert_eq!(ledger.get_balance(&Address([0; 32])), 0);
    assert_eq!(ledger.get_nonce(&Address([0; 32])), 3);
    assert_ne!(genesis.hash(), seeded(&[(1, 5), (2, 7)]).get_latest_block().unwrap().hash());
}

#[test]
fn transfer_moves_value_and_advances_nonce() {
    let mut ledger = seeded(&[(0xa, 100)]);
    let h = ledger.append_block(vec![transfer(0xa, 0xb, 40)], 1001).unwrap();
    assert_eq!(ledger.get_balance(&Address([0xa; 32])), 60);
    assert_eq!(ledger.get_balance(&Address([0xb; 32])), 40);
    assert_eq!(ledger.get_nonce(&Address([0xa; 32])), 1);
    assert_eq!(ledger.get_nonce(&Address([0xb; 32])), 0);
    assert_eq!(ledger.get_latest_block().unwrap().hash(), h);
}

#[test]
fn overdraft_rejects_block_and_changes_nothing() {
    let mut ledger = seeded(&[(0xa, 10)]);
    let tip = ledger.get_latest_block().unwrap().hash();
    let r = ledger.append_block(vec![transfer(0xa, 0xb, 40)], 1001);
    assert_eq!(r, Err(LedgerError::InsufficientBalance));
    assert_eq!(ledger.get_balance(&Address([0xa; 32])), 10);
    assert_eq!(ledger.get_balance(&Address([0xb; 32])), 0);
    assert_eq!(ledger.get_nonce(&Address([0xa; 32])), 0);
    assert_eq!(ledger.block_count(), 1);
    assert_eq!(ledger.get_latest_block().unwrap().hash(), tip);
}

#[test]
fn late_overdraft_undoes_earlier_transfers() {
    let mut ledger = seeded(&[(1, 50), (2, 5)]);
    let txs = vec![transfer(1, 2, 30), transfer(2, 3, 36)];
    assert_eq!(ledger.append_block(txs, 1001), Err(LedgerError::InsufficientBalance));
    assert_eq!(ledger.get_balance(&Address([1; 32])), 50);
    assert_eq!(ledger.get_balance(&Address([2; 32])), 5);
    assert_eq!(ledger.get_nonce(&Address([1; 32])), 0);
    assert_eq!(ledger.block_count(), 1);
    assert!(ledger.get_block_by_number(1).is_none());
}

#[test]
fn transfers_apply_in_order() {
    let mut ledger = seeded(&[(1, 50), (2, 5)]);
    let txs = vec![transfer(1, 2, 30), transfer(2, 3, 35)];
    ledger.append_block(txs, 1001).unwrap();
    assert_eq!(ledger.get_balance(&Address([1; 32])), 20);
    assert_eq!(ledger.get_balance(&Address([2; 32])), 0);
    assert_eq!(ledger.get_balance(&Address([3; 32])), 35);
    assert_eq!(ledger.get_nonce(&Address([2; 32])), 1);
}

#[test]
fn missing_block_number_is_not_found() {
    let mut ledger = seeded(&[(1, 10)]);
    ledger.append_block(vec![], 1001).unwrap();
    ledger.append_block(vec![transfer(1, 2, 3)], 1002).unwrap();
    assert_eq!(ledger.block_count(), 3);
    assert!(ledger.get_block_by_number(999).is_none());
    assert_eq!(ledger.get_block_by_number(2).unwrap().number(), 2);
}

#[test]
fn blocks_link_to_previous_tip() {
    let mut ledger = seeded(&[(1, 10)]);
    for i in 0..3u64 {
        let tip = ledger.get_latest_block().unwrap();
        let (tip_hash, tip_number) = (tip.hash(), tip.number());
        ledger.append_block(vec![transfer(1, 2, 1)], 1001 + i).unwrap();
        let b = ledger.get_latest_block().unwrap();
        assert_eq!(b.parent_hash(), tip_hash);
        assert_eq!(b.number(), tip_number + 1);
    }
}

#[test]
fn supply_is_conserved() {
    let mut ledger = seeded(&[(1, 70), (2, 30)]);
    let addrs: Vec<Address> = (1..5u8).map(|a| Address([a; 32])).collect();
    let total = |l: &Blockhead| addrs.iter().map(|a| l.get_balance(a)).sum::<u64>();
    assert_eq!(total(&ledger), 100);
    ledger.append_block(vec![transfer(1, 3, 25), transfer(2, 4, 30), transfer(3, 3, 5)], 1001).unwrap();
    assert_eq!(total(&ledger), 100);
    assert_eq!(ledger.get_balance(&Address([3; 32])), 25);
    assert_eq!(ledger.get_nonce(&Address([3; 32])), 1);
}

#[test]
fn lookups_repeat() {
    let mut ledger = seeded(&[(1, 10)]);
    let h = ledger.append_block(vec![transfer(1, 2, 4)], 1001).unwrap();
    let first = ledger.get_block_by_hash(&h).unwrap().number();
    let second = ledger.get_block_by_hash(&h).unwrap().number();
    assert_eq!(first, 1);
    assert_eq!(first, second);
}

#[test]
fn timestamps_never_go_back() {
    let mut ledger = seeded(&[]);
    ledger.append_block(vec![], 500).unwrap();
    assert_eq!(ledger.get_latest_block().unwrap().timestamp(), 1000);
    ledger.append_block(vec![], 1500).unwrap();
    assert_eq!(ledger.get_latest_block().unwrap().timestamp(), 1500);
}

#[test]
fn block_hash_commits_to_transaction_order() {
    let mut a = seeded(&[(1, 10), (2, 10)]);
    let mut b = seeded(&[(1, 10), (2, 10)]);
    let ha = a.append_block(vec![transfer(1, 3, 1), transfer(2, 3, 1)], 1001).unwrap();
    let hb = b.append_block(vec![transfer(2, 3, 1), transfer(1, 3, 1)], 1001).unwrap();
    assert_ne!(ha, hb);
    let block = a.get_latest_block().unwrap();
    assert_eq!(block.transaction_hashes.len(), 2);
    assert_ne!(block.transaction_hashes[0], ha);
}

#[test]
fn transactions_are_found_by_hash() {
    let mut ledger = seeded(&[(1, 10)]);
    let h = ledger.send_transaction(transfer(1, 2, 7), 1001).unwrap();
    let t = ledger.get_transaction(&h).unwrap();
    assert_eq!(t.value, 7);
    assert_eq!(ledger.get_latest_block().unwrap().transaction_hashes[0], h);
    assert!(ledger.get_transaction(&blockhead::hash::Hash::from_text("nothing")).is_none());
}

#[test]
fn empty_chain_errors() {
    let mut ledger = Blockhead::new();
    assert_eq!(ledger.get_latest_block().err(), Some(LedgerError::EmptyChain));
    assert_eq!(ledger.append_block(vec![], 1), Err(LedgerError::EmptyChain));
    assert_eq!(ledger.send_transaction(transfer(1, 2, 0), 1), Err(LedgerError::EmptyChain));
    assert!(ledger.get_block_by_number(0).is_none());
}

#[test]
fn genesis_errors() {
    let mut ledger = seeded(&[(1, 10)]);
    assert_eq!(ledger.commit_genesis(5, &vec![]), Err(LedgerError::GenesisExists));
    let mut fresh = Blockhead::new();
    let too_much = vec![(Address([1; 32]), u64::MAX), (Address([2; 32]), 1)];
    assert_eq!(fresh.commit_genesis(5, &too_much), Err(LedgerError::SupplyOverflow));
    assert_eq!(fresh.block_count(), 0);
    let full = vec![(Address([1; 32]), u64::MAX - 1), (Address([1; 32]), 1)];
    fresh.commit_genesis(5, &full).unwrap();
    assert_eq!(fresh.get_balance(&Address([1; 32])), u64::MAX);
}

#[test]
fn reported_metadata() {
    let ledger = Blockhead::new();
    assert_eq!(ledger.chain_id(), CHAIN_ID);
    assert_eq!(ledger.chain_id(), 1);
    assert_eq!(ledger.gas_price(), GAS_PRICE);
    assert_eq!(ledger.gas_price(), 20_000_000_000);
    assert!(!ledger.syncing());
}
