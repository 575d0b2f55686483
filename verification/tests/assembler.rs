use sol_accounts_plugin::accounts::AccountChanges;
use sol_accounts_plugin::records::{Account, BlockInfo, Timestamp};
use sol_accounts_plugin::utils::{assemble, convert_sol_timestamp, create_account_block, create_block};

fn info() -> BlockInfo {
    BlockInfo {
        slot: 10,
        parent_slot: 9,
        block_hash: String::from("H10"),
        parent_hash: String::from("H9"),
        timestamp: Timestamp { seconds: 1_700_000_000, nanos: 0 },
    }
}

fn changes_of(writes: &[(Vec<u8>, Vec<u8>)]) -> AccountChanges {
    let mut changes = AccountChanges::new();
    for (key, data) in writes {
        changes.insert(key.clone(), data.clone());
    }
    changes
}

#[test]
fn timestamp_has_whole_seconds_only() {
    assert_eq!(convert_sol_timestamp(1_700_000_000), Timestamp { seconds: 1_700_000_000, nanos: 0 });
    assert_eq!(convert_sol_timestamp(-1), Timestamp { seconds: -1, nanos: 0 });
    assert_eq!(convert_sol_timestamp(i64::MAX), Timestamp { seconds: i64::MAX, nanos: 0 });
}

#[test]
fn account_block_carries_header_and_sorted_accounts() {
    let changes = changes_of(&[
        (vec![3], vec![30]),
        (vec![1, 2], vec![12]),
        (vec![1], vec![10]),
        (vec![], vec![0]),
        (vec![255], vec![]),
    ]);
    let block = create_account_block(&changes, &info());
    assert_eq!(block.slot, 10);
    assert_eq!(block.hash, "H10");
    assert_eq!(block.parent_hash, "H9");
    assert_eq!(block.parent_slot, 9);
    assert_eq!(block.timestamp, Some(Timestamp { seconds: 1_700_000_000, nanos: 0 }));
    assert_eq!(
        block.accounts,
        vec![
            Account { address: vec![], data: vec![0] },
            Account { address: vec![1], data: vec![10] },
            Account { address: vec![1, 2], data: vec![12] },
            Account { address: vec![3], data: vec![30] },
            Account { address: vec![255], data: vec![] },
        ]
    );
}

#[test]
fn account_block_of_no_changes_has_no_accounts() {
    let block = create_account_block(&AccountChanges::new(), &info());
    assert!(block.accounts.is_empty());
    assert_eq!(block.slot, 10);
}

#[test]
fn every_order_of_writes_gives_the_same_block() {
    let writes = [
        (vec![9u8, 1], vec![1u8]),
        (vec![2], vec![2]),
        (vec![9], vec![3]),
        (vec![2, 0], vec![4]),
    ];
    let orders: [[usize; 4]; 6] = [
        [0, 1, 2, 3],
        [3, 2, 1, 0],
        [1, 3, 0, 2],
        [2, 0, 3, 1],
        [0, 2, 1, 3],
        [3, 0, 2, 1],
    ];
    let expected = vec![
        Account { address: vec![2], data: vec![2] },
        Account { address: vec![2, 0], data: vec![4] },
        Account { address: vec![9], data: vec![3] },
        Account { address: vec![9, 1], data: vec![1] },
    ];
    for order in orders {
        let arranged: Vec<(Vec<u8>, Vec<u8>)> = order.iter().map(|i| writes[*i].clone()).collect();
        let block = create_account_block(&changes_of(&arranged), &info());
        assert_eq!(block.accounts, expected);
    }
}

#[test]
fn overwritten_writes_leave_one_account() {
    let early = changes_of(&[(vec![5], vec![1]), (vec![4], vec![7]), (vec![5], vec![2])]);
    let late = changes_of(&[(vec![5], vec![2]), (vec![4], vec![7])]);
    let expected = vec![
        Account { address: vec![4], data: vec![7] },
        Account { address: vec![5], data: vec![2] },
    ];
    assert_eq!(create_account_block(&early, &info()).accounts, expected);
    assert_eq!(create_account_block(&late, &info()).accounts, expected);
}

#[test]
fn block_carries_the_header() {
    let block = create_block(&info());
    assert_eq!(block.slot, 10);
    assert_eq!(block.parent_slot, 9);
    assert_eq!(block.blockhash, "H10");
    assert_eq!(block.previous_blockhash, "H9");
    assert_eq!(block.block_time, Some(Timestamp { seconds: 1_700_000_000, nanos: 0 }));
}

#[test]
fn record_holds_both_halves() {
    let changes = changes_of(&[(vec![1], vec![0xAA])]);
    let record = assemble(&changes, &info());
    assert_eq!(record.block, create_block(&info()));
    assert_eq!(record.account_block, create_account_block(&changes, &info()));
    assert_eq!(record.account_block.accounts.len(), 1);
}

#[test]
fn accounts_come_out_in_key_order_from_the_changes() {
    let changes = changes_of(&[(vec![7], vec![1]), (vec![6, 255], vec![2]), (vec![6], vec![3])]);
    let listed = changes.accounts();
    let keys: Vec<Vec<u8>> = listed.iter().map(|a| a.address.clone()).collect();
    assert_eq!(keys, vec![vec![6], vec![6, 255], vec![7]]);
    assert_eq!(listed[0].clone(), Account { address: vec![6], data: vec![3] });
}
