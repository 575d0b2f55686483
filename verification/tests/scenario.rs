use base64::Engine;
use sol_accounts_plugin::block_printer::{write_cursor, BlockPrinter};
use sol_accounts_plugin::cursor::CursorTracker;
use sol_accounts_plugin::plugins::{Plugin, SlotStatus};
use sol_accounts_plugin::records::AccountBlock;

/// A stand-in for the record's wire form: each account as its two lengths and
/// its bytes.
fn serialized(block: &AccountBlock) -> Vec<u8> {
    let mut out = Vec::new();
    for account in &block.accounts {
        out.push(account.address.len() as u8);
        out.extend_from_slice(&account.address);
        out.push(account.data.len() as u8);
        out.extend_from_slice(&account.data);
    }
    out
}

#[test]
fn one_slot_from_notification_to_cursor() {
    let timestamp: i64 = 1_700_000_123;
    let mut plugin = Plugin::new();
    plugin.notify_block_metadata(10, 9, "H10", "H9", timestamp);
    plugin.update_account(10, vec![0x01], vec![0xAA]);
    let emission = plugin.update_slot_status(10, SlotStatus::Processed).unwrap();
    assert_eq!(emission.record.account_block.accounts.len(), 1);
    assert_eq!(emission.record.account_block.accounts[0].address, vec![0x01]);

    let block_payload = vec![0x0A];
    let account_payload = serialized(&emission.record.account_block);
    assert_eq!(account_payload, vec![1, 0x01, 1, 0xAA]);

    let printer = BlockPrinter::new(false);
    let (block_unit, account_unit) = printer
        .print(&emission.block_info, emission.lib, block_payload, account_payload.clone())
        .unwrap();
    let mut block_channel = String::new();
    let mut account_channel = String::new();
    let mut cursor_file = String::new();
    let mut tracker = CursorTracker::new();

    block_channel.push_str(&block_unit.line());
    if let Some(content) = write_cursor(&mut tracker, block_unit.slot) {
        cursor_file = content;
    }
    assert_eq!(cursor_file, "");

    account_channel.push_str(&account_unit.line());
    if let Some(content) = write_cursor(&mut tracker, account_unit.slot) {
        cursor_file = content;
    }
    assert_eq!(cursor_file, "10");

    assert_eq!(block_channel, "FIRE BLOCK 10 H10 9 H9 0 1700000123000000000 Cg==\n");
    assert_eq!(account_channel, "FIRE BLOCK 10 H10 9 H9 0 1700000123000000000 AQEBqg==\n");
    for channel in [&block_channel, &account_channel] {
        assert_eq!(channel.lines().count(), 1);
        let fields: Vec<&str> = channel.trim_end().split(' ').collect();
        assert_eq!(fields.len(), 9);
        assert_eq!(fields[0], "FIRE");
        assert_eq!(fields[1], "BLOCK");
        assert_eq!(fields[2], "10");
        assert_eq!(fields[3], "H10");
        assert_eq!(fields[4], "9");
        assert_eq!(fields[5], "H9");
    }
    let payload = account_channel.trim_end().rsplit(' ').next().unwrap();
    let decoded = base64::engine::general_purpose::STANDARD.decode(payload).unwrap();
    assert_eq!(decoded, account_payload);
    assert_eq!(decoded[1], 0x01);
}

#[test]
fn units_finishing_out_of_step_move_the_cursor_every_other_slot() {
    let mut tracker = CursorTracker::new();
    let mut cursor_file = String::new();
    let mut history = Vec::new();
    for slot in [1u64, 1, 2, 3, 2, 3, 4, 4] {
        if let Some(content) = write_cursor(&mut tracker, slot) {
            cursor_file = content;
            history.push(cursor_file.clone());
        }
    }
    assert_eq!(history, vec!["1", "3", "4"]);
    assert_eq!(cursor_file, "4");
}
