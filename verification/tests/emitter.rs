use base64::Engine;
use sol_accounts_plugin::block_printer::{
    format_block_line, format_init_line, BlockPrinter, WriterUnit,
};
use sol_accounts_plugin::cursor::Channel;
use sol_accounts_plugin::records::{BlockInfo, Timestamp};
use sol_accounts_plugin::text::decimal_text;

fn info(seconds: i64) -> BlockInfo {
    BlockInfo {
        slot: 10,
        parent_slot: 9,
        block_hash: String::from("H10"),
        parent_hash: String::from("H9"),
        timestamp: Timestamp { seconds, nanos: 0 },
    }
}

#[test]
fn decimal_text_of_the_edges() {
    assert_eq!(decimal_text(0), "0");
    assert_eq!(decimal_text(7), "7");
    assert_eq!(decimal_text(10), "10");
    assert_eq!(decimal_text(1_234_567_890), "1234567890");
    assert_eq!(decimal_text(u64::MAX), "18446744073709551615");
}

#[test]
fn init_line_names_the_schema() {
    assert_eq!(
        format_init_line("sf.solana.type.v1.Block"),
        "FIRE INIT 3.0 sf.solana.type.v1.Block\n"
    );
    assert_eq!(format_init_line(""), "FIRE INIT 3.0 \n");
}

#[test]
fn block_line_has_every_field_in_order() {
    let line = format_block_line(10, "H10", 9, "H9", 3, 1_700_000_000_000_000_000, "qg==");
    assert_eq!(line, "FIRE BLOCK 10 H10 9 H9 3 1700000000000000000 qg==\n");
}

#[test]
fn block_line_of_the_largest_values() {
    let line = format_block_line(
        u64::MAX,
        "a",
        u64::MAX,
        "b",
        u64::MAX,
        i64::MAX as i128 * 1_000_000_000,
        "",
    );
    assert_eq!(
        line,
        "FIRE BLOCK 18446744073709551615 a 18446744073709551615 b 18446744073709551615 \
         9223372036854775807000000000 \n"
    );
}

#[test]
fn block_line_of_a_time_before_the_epoch() {
    assert_eq!(
        format_block_line(0, "h", 0, "p", 0, -1_000_000_000, "AA=="),
        "FIRE BLOCK 0 h 0 p 0 -1000000000 AA==\n"
    );
    assert_eq!(
        format_block_line(0, "h", 0, "p", 0, i128::MIN, "x"),
        "FIRE BLOCK 0 h 0 p 0 -170141183460469231731687303715884105728 x\n"
    );
}

#[test]
fn print_gives_one_unit_per_channel() {
    let printer = BlockPrinter::new(false);
    assert!(!printer.is_noop());
    let (block_unit, account_unit) =
        printer.print(&info(1_700_000_000), 3, vec![1, 2, 3], vec![0xAA]).unwrap();
    for unit in [&block_unit, &account_unit] {
        assert_eq!(unit.slot, 10);
        assert_eq!(unit.block_hash, "H10");
        assert_eq!(unit.parent_slot, 9);
        assert_eq!(unit.parent_hash, "H9");
        assert_eq!(unit.lib, 3);
        assert_eq!(unit.timestamp_nano, 1_700_000_000_000_000_000);
    }
    assert_eq!(block_unit.channel, Channel::Block);
    assert_eq!(account_unit.channel, Channel::Account);
    assert_eq!(block_unit.payload, vec![1, 2, 3]);
    assert_eq!(account_unit.payload, vec![0xAA]);
    assert_eq!(block_unit.line(), "FIRE BLOCK 10 H10 9 H9 3 1700000000000000000 AQID\n");
    assert_eq!(account_unit.line(), "FIRE BLOCK 10 H10 9 H9 3 1700000000000000000 qg==\n");
}

#[test]
fn timestamp_is_scaled_without_overflow() {
    let printer = BlockPrinter::new(false);
    let (high, _) = printer.print(&info(i64::MAX), 0, vec![], vec![]).unwrap();
    assert_eq!(high.timestamp_nano, 9_223_372_036_854_775_807_000_000_000);
    let (low, _) = printer.print(&info(i64::MIN), 0, vec![], vec![]).unwrap();
    assert_eq!(low.timestamp_nano, -9_223_372_036_854_775_808_000_000_000);
    assert_eq!(low.line(), "FIRE BLOCK 10 H10 9 H9 0 -9223372036854775808000000000 \n");
}

#[test]
fn payload_is_standard_padded_base64() {
    let bytes: Vec<u8> = vec![0xfb, 0xff, 0x00, 0x10, 0x83];
    let unit = WriterUnit {
        channel: Channel::Account,
        slot: 1,
        block_hash: String::from("h"),
        parent_slot: 0,
        parent_hash: String::from("p"),
        lib: 0,
        timestamp_nano: 0,
        payload: bytes.clone(),
    };
    let line = unit.line();
    assert_eq!(line, "FIRE BLOCK 1 h 0 p 0 0 +/8AEIM=\n");
    let text = line.trim_end().rsplit(' ').next().unwrap();
    let decoded = base64::engine::general_purpose::STANDARD.decode(text).unwrap();
    assert_eq!(decoded, bytes);
}

#[test]
fn noop_printer_gives_nothing_to_write() {
    let printer = BlockPrinter::new(true);
    assert!(printer.is_noop());
    assert!(printer.print_init("block", "accounts").is_none());
    assert!(printer.print(&info(1), 0, vec![1], vec![2]).is_none());
}

#[test]
fn print_init_opens_both_channels() {
    let printer = BlockPrinter::new(false);
    let (block_line, account_line) =
        printer.print_init("sf.solana.type.v1.Block", "sf.solana.type.v1.AccountBlock").unwrap();
    assert_eq!(block_line, "FIRE INIT 3.0 sf.solana.type.v1.Block\n");
    assert_eq!(account_line, "FIRE INIT 3.0 sf.solana.type.v1.AccountBlock\n");
}
