//! The emitter: the lines of the two output channels, the two writer units of
//! a slot, and the text of the cursor file.

use vstd::prelude::*;
use vstd::string::*;
use crate::cursor::{next_last, persisted, Channel, CursorTracker};
use crate::encoding::{base64_encode, base64_text};
use crate::records::BlockInfo;
use crate::text::{append_decimal, append_signed_decimal, decimal, decimal_text, signed_decimal};

verus! {

/// The line that opens a channel: the protocol version and the name of the
/// schema of the payloads that follow.
pub open spec fn init_line(schema: Seq<char>) -> Seq<char> {
    "FIRE INIT 3.0 "@ + schema + "\n"@
}

/// The line of one slot on one channel, `payload` being the base64 text of
/// the channel's record.
pub open spec fn block_line(
    slot: u64,
    block_hash: Seq<char>,
    parent_slot: u64,
    parent_hash: Seq<char>,
    lib: u64,
    timestamp_nano: int,
    payload: Seq<char>,
) -> Seq<char> {
    "FIRE BLOCK "@ + decimal(slot as nat) + " "@ + block_hash + " "@ + decimal(parent_slot as nat)
        + " "@ + parent_hash + " "@ + decimal(lib as nat) + " "@ + signed_decimal(timestamp_nano)
        + " "@ + payload + "\n"@
}

/// A block time in nanoseconds: its whole seconds, scaled.
pub open spec fn nanoseconds(seconds: i64) -> int {
    seconds * 1_000_000_000
}

/// Writes the line that opens a channel.
pub fn format_init_line(schema: &str) -> (line: String)
    ensures
        line@ == init_line(schema@),
{
    let mut line = String::new();
    line.append("FIRE INIT 3.0 ");
    line.append(schema);
    line.append("\n");
    assert(line@ =~= init_line(schema@));
    line
}

/// Writes the line of one slot on one channel from its fields and the base64
/// text of its payload.
pub fn format_block_line(
    slot: u64,
    block_hash: &str,
    parent_slot: u64,
    parent_hash: &str,
    lib: u64,
    timestamp_nano: i128,
    payload: &str,
) -> (line: String)
    ensures
        line@ == block_line(
            slot,
            block_hash@,
            parent_slot,
            parent_hash@,
            lib,
            timestamp_nano as int,
            payload@,
        ),
{
    let mut line = String::new();
    line.append("FIRE BLOCK ");
    append_decimal(&mut line, slot as u128);
    line.append(" ");
    line.append(block_hash);
    line.append(" ");
    append_decimal(&mut line, parent_slot as u128);
    line.append(" ");
    line.append(parent_hash);
    line.append(" ");
    append_decimal(&mut line, lib as u128);
    line.append(" ");
    append_signed_decimal(&mut line, timestamp_nano);
    line.append(" ");
    line.append(payload);
    line.append("\n");
    assert(line@ =~= block_line(
        slot,
        block_hash@,
        parent_slot,
        parent_hash@,
        lib,
        timestamp_nano as int,
        payload@,
    ));
    line
}

/// What one writer is given for one slot: the fields of its line and the
/// serialized record of its channel.
#[derive(Debug)]
pub struct WriterUnit {
    pub channel: Channel,
    pub slot: u64,
    pub block_hash: String,
    pub parent_slot: u64,
    pub parent_hash: String,
    pub lib: u64,
    pub timestamp_nano: i128,
    pub payload: Vec<u8>,
}

impl WriterUnit {
    /// The line this unit appends to its channel.
    pub open spec fn line_text(&self) -> Seq<char> {
        block_line(
            self.slot,
            self.block_hash@,
            self.parent_slot,
            self.parent_hash@,
            self.lib,
            self.timestamp_nano as int,
            base64_text(self.payload@),
        )
    }

    /// The unit of `channel` for the slot of `block_info`, carrying `payload`.
    pub open spec fn carries(
        &self,
        channel: Channel,
        block_info: BlockInfo,
        lib: u64,
        payload: Seq<u8>,
    ) -> bool {
        &&& self.channel == channel
        &&& self.slot == block_info.slot
        &&& self.block_hash@ == block_info.block_hash@
        &&& self.parent_slot == block_info.parent_slot
        &&& self.parent_hash@ == block_info.parent_hash@
        &&& self.lib == lib
        &&& self.timestamp_nano == nanoseconds(block_info.timestamp.seconds)
        &&& self.payload@ == payload
    }

    /// Encodes the payload as base64 and writes the unit's line. The writer
    /// appends it to its channel and then reports the slot to the cursor
    /// tracker.
    pub fn line(&self) -> (line: String)
        ensures
            line@ == self.line_text(),
    {
        let payload = base64_encode(self.payload.as_slice());
        format_block_line(
            self.slot,
            self.block_hash.as_str(),
            self.parent_slot,
            self.parent_hash.as_str(),
            self.lib,
            self.timestamp_nano,
            payload.as_str(),
        )
    }
}

/// The emitter's rules. It writes nothing itself: it says what is to be
/// written, and in no-op mode that is nothing.
#[derive(Clone, Copy, Debug, PartialEq, Eq, Structural)]
pub struct BlockPrinter {
    noop: bool,
}

impl BlockPrinter {
    /// Whether this printer is in no-op mode.
    pub closed spec fn noop(&self) -> bool {
        self.noop
    }

    /// A printer; in no-op mode if `noop` is set.
    pub fn new(noop: bool) -> (printer: Self)
        ensures
            printer.noop() == noop,
    {
        BlockPrinter { noop }
    }

    /// Whether this printer is in no-op mode.
    pub fn is_noop(&self) -> (noop: bool)
        ensures
            noop == self.noop(),
    {
        self.noop
    }

    /// The opening lines of the block channel and of the account channel, in
    /// that order; none in no-op mode.
    pub fn print_init(&self, block_type: &str, account_block_type: &str) -> (lines: Option<
        (String, String),
    >)
        ensures
            match lines {
                Some((block_text, account_text)) => {
                    &&& !self.noop()
                    &&& block_text@ == init_line(block_type@)
                    &&& account_text@ == init_line(account_block_type@)
                },
                None => self.noop(),
            },
    {
        if self.noop {
            None
        } else {
            Some((format_init_line(block_type), format_init_line(account_block_type)))
        }
    }

    /// The two writer units of a slot, the block channel's first: each is to
    /// be run on its own, without the caller waiting. None in no-op mode.
    pub fn print(
        &self,
        block_info: &BlockInfo,
        lib: u64,
        block: Vec<u8>,
        account_block: Vec<u8>,
    ) -> (units: Option<(WriterUnit, WriterUnit)>)
        ensures
            match units {
                Some((block_unit, account_unit)) => {
                    &&& !self.noop()
                    &&& block_unit.carries(Channel::Block, *block_info, lib, block@)
                    &&& account_unit.carries(Channel::Account, *block_info, lib, account_block@)
                },
                None => self.noop(),
            },
    {
        if self.noop {
            return None;
        }
        let timestamp_nano: i128 = block_info.timestamp.seconds as i128 * 1_000_000_000;
        let block_unit = WriterUnit {
            channel: Channel::Block,
            slot: block_info.slot,
            block_hash: block_info.block_hash.clone(),
            parent_slot: block_info.parent_slot,
            parent_hash: block_info.parent_hash.clone(),
            lib,
            timestamp_nano,
            payload: block,
        };
        let account_unit = WriterUnit {
            channel: Channel::Account,
            slot: block_info.slot,
            block_hash: block_info.block_hash.clone(),
            parent_slot: block_info.parent_slot,
            parent_hash: block_info.parent_hash.clone(),
            lib,
            timestamp_nano,
            payload: account_block,
        };
        Some((block_unit, account_unit))
    }
}

/// Reports to the tracker that one channel has written `cursor`, and returns
/// the new content of the cursor file where the report makes the slot
/// durable: its decimal text, to overwrite what the file held.
pub fn write_cursor(tracker: &mut CursorTracker, cursor: u64) -> (content: Option<String>)
    ensures
        final(tracker).last_seen() == next_last(old(tracker).last_seen(), cursor),
        match content {
            Some(text) => {
                &&& persisted(old(tracker).last_seen(), cursor) == Some(cursor)
                &&& text@ == decimal(cursor as nat)
            },
            None => persisted(old(tracker).last_seen(), cursor) is None,
        },
{
    match tracker.advance(cursor) {
        Some(slot) => Some(decimal_text(slot)),
        None => None,
    }
}

} // verus!
