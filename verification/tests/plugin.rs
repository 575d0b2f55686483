use sol_accounts_plugin::plugins::{Plugin, SlotStatus, FINALITY_LAG};
use sol_accounts_plugin::records::{Account, Timestamp};
use sol_accounts_plugin::state::SlotPhase;

#[test]
fn processed_without_block_info_emits_nothing() {
    let mut plugin = Plugin::new();
    plugin.update_account(10, vec![1], vec![0xAA]);
    assert!(plugin.update_slot_status(10, SlotStatus::Processed).is_none());
    assert_eq!(plugin.state().phase(10), SlotPhase::Accumulating);
    assert_eq!(plugin.state().account_changes(10).unwrap().len(), 1);
}

#[test]
fn processed_without_account_changes_emits_nothing() {
    let mut plugin = Plugin::new();
    plugin.notify_block_metadata(10, 9, "H10", "H9", 1_700_000_000);
    assert!(plugin.update_slot_status(10, SlotStatus::Processed).is_none());
    assert!(plugin.update_slot_status(11, SlotStatus::Processed).is_none());
    assert_eq!(plugin.state().phase(10), SlotPhase::Accumulating);
    assert!(plugin.state().block_info(10).is_some());
}

#[test]
fn a_ready_slot_is_emitted_once() {
    let mut plugin = Plugin::new();
    plugin.notify_block_metadata(10, 9, "H10", "H9", 1_700_000_000);
    plugin.update_account(10, vec![2], vec![0xBB]);
    plugin.update_account(10, vec![1], vec![0xAA]);
    let emission = plugin.update_slot_status(10, SlotStatus::Processed).unwrap();
    assert_eq!(emission.lib, 0);
    assert_eq!(emission.block_info.slot, 10);
    assert_eq!(emission.block_info.parent_slot, 9);
    assert_eq!(emission.block_info.block_hash, "H10");
    assert_eq!(emission.block_info.parent_hash, "H9");
    assert_eq!(emission.block_info.timestamp, Timestamp { seconds: 1_700_000_000, nanos: 0 });
    assert_eq!(emission.record.block.slot, 10);
    assert_eq!(emission.record.block.blockhash, "H10");
    assert_eq!(emission.record.block.previous_blockhash, "H9");
    assert_eq!(
        emission.record.account_block.accounts,
        vec![
            Account { address: vec![1], data: vec![0xAA] },
            Account { address: vec![2], data: vec![0xBB] },
        ]
    );
    assert_eq!(plugin.state().phase(10), SlotPhase::Emitted);
    assert!(plugin.update_slot_status(10, SlotStatus::Processed).is_none());
}

#[test]
fn redelivered_metadata_is_what_gets_emitted() {
    let mut plugin = Plugin::new();
    plugin.notify_block_metadata(4, 3, "old", "p", 1);
    plugin.notify_block_metadata(4, 2, "new", "q", 2);
    plugin.update_account(4, vec![1], vec![1]);
    let emission = plugin.update_slot_status(4, SlotStatus::Processed).unwrap();
    assert_eq!(emission.block_info.block_hash, "new");
    assert_eq!(emission.block_info.parent_hash, "q");
    assert_eq!(emission.block_info.parent_slot, 2);
    assert_eq!(emission.record.account_block.timestamp, Some(Timestamp { seconds: 2, nanos: 0 }));
}

#[test]
fn confirmed_moves_the_watermarks_and_purges_earlier_slots() {
    let mut plugin = Plugin::new();
    for slot in [98u64, 99, 100, 101] {
        plugin.notify_block_metadata(slot, slot - 1, "h", "p", 0);
        plugin.update_account(slot, vec![1], vec![slot as u8]);
    }
    assert!(plugin.update_slot_status(100, SlotStatus::Confirmed).is_none());
    let state = plugin.state();
    assert_eq!(state.last_confirmed(), Some(100));
    assert_eq!(state.last_finalized(), Some(100 - FINALITY_LAG));
    assert_eq!(state.last_finalized(), Some(69));
    assert!(state.account_changes(98).is_none());
    assert!(state.account_changes(99).is_none());
    assert!(state.block_info(99).is_none());
    assert_eq!(state.phase(100), SlotPhase::Ready);
    assert_eq!(state.phase(101), SlotPhase::Ready);
    let emission = plugin.update_slot_status(100, SlotStatus::Processed).unwrap();
    assert_eq!(emission.lib, 69);
}

#[test]
fn confirmed_near_slot_zero_does_not_wrap() {
    let mut plugin = Plugin::new();
    plugin.update_account(0, vec![1], vec![1]);
    assert!(plugin.update_slot_status(0, SlotStatus::Confirmed).is_none());
    assert_eq!(plugin.state().last_finalized(), Some(0));
    assert_eq!(plugin.state().last_confirmed(), Some(0));
    assert_eq!(plugin.state().account_changes(0).unwrap().len(), 1);
    assert!(plugin.update_slot_status(30, SlotStatus::Confirmed).is_none());
    assert_eq!(plugin.state().last_finalized(), Some(0));
    assert!(plugin.state().account_changes(0).is_none());
    assert!(plugin.update_slot_status(31, SlotStatus::Confirmed).is_none());
    assert_eq!(plugin.state().last_finalized(), Some(0));
    assert!(plugin.update_slot_status(32, SlotStatus::Confirmed).is_none());
    assert_eq!(plugin.state().last_finalized(), Some(1));
    assert!(plugin.update_slot_status(5, SlotStatus::Confirmed).is_none());
    assert_eq!(plugin.state().last_finalized(), Some(1));
    assert_eq!(plugin.state().last_confirmed(), Some(32));
}

#[test]
fn confirmed_at_the_last_slot_keeps_the_lag() {
    let mut plugin = Plugin::new();
    assert!(plugin.update_slot_status(u64::MAX, SlotStatus::Confirmed).is_none());
    assert_eq!(plugin.state().last_confirmed(), Some(u64::MAX));
    assert_eq!(plugin.state().last_finalized(), Some(u64::MAX - 31));
}

#[test]
fn rooted_changes_nothing() {
    let mut plugin = Plugin::new();
    plugin.notify_block_metadata(10, 9, "H10", "H9", 5);
    plugin.update_account(10, vec![1], vec![0xAA]);
    let before = plugin.stats();
    assert!(plugin.update_slot_status(10, SlotStatus::Rooted).is_none());
    assert!(plugin.update_slot_status(500, SlotStatus::Rooted).is_none());
    assert_eq!(plugin.stats(), before);
    assert_eq!(plugin.state().phase(10), SlotPhase::Ready);
    assert_eq!(plugin.state().last_confirmed(), None);
    assert_eq!(plugin.state().last_finalized(), None);
}

#[test]
fn on_load_starts_over() {
    let mut plugin = Plugin::new();
    plugin.update_account(1, vec![1], vec![1]);
    plugin.update_slot_status(50, SlotStatus::Confirmed);
    plugin.on_load("config.json", false);
    let stats = plugin.stats();
    assert_eq!(stats.account_slots, 0);
    assert_eq!(stats.block_slots, 0);
    assert_eq!(stats.last_confirmed, None);
    assert_eq!(stats.last_finalized, None);
}

#[test]
fn on_unload_keeps_what_is_held() {
    let mut plugin = Plugin::new();
    plugin.update_account(1, vec![1], vec![1]);
    plugin.on_unload();
    assert_eq!(plugin.stats().account_slots, 1);
}

#[test]
fn notifications_are_enabled() {
    let plugin = Plugin::new();
    assert!(plugin.account_data_notifications_enabled());
    assert!(plugin.transaction_notifications_enabled());
    assert!(plugin.entry_notifications_enabled());
}
