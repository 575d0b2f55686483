//! The assembler: from the writes and the metadata buffered for one slot to
//! the record that is emitted for it.

use vstd::prelude::*;
use crate::accounts::{is_sorted_listing, keys_ascending, sorted_listing, AccountChanges};
use crate::records::{AccountBlock, AccountBlockView, Block, BlockInfo, BlockInfoView, BlockView,
    EmissionRecord, Timestamp};

verus! {

/// The host's block time, whole seconds since the Unix epoch, as a timestamp.
pub fn convert_sol_timestamp(sol_timestamp: i64) -> (timestamp: Timestamp)
    ensures
        timestamp == (Timestamp { seconds: sol_timestamp, nanos: 0 }),
{
    Timestamp { seconds: sol_timestamp, nanos: 0 }
}

/// The account block of a slot: the slot's header, and the accounts of the
/// logical map `changes` in ascending key order.
pub open spec fn account_block_of(
    changes: Map<Seq<u8>, Seq<u8>>,
    info: BlockInfoView,
) -> AccountBlockView {
    AccountBlockView {
        slot: info.slot,
        hash: info.block_hash,
        parent_hash: info.parent_hash,
        parent_slot: info.parent_slot,
        accounts: sorted_listing(changes),
        timestamp: Some(info.timestamp),
    }
}

/// The block of a slot: its header.
pub open spec fn block_of(info: BlockInfoView) -> BlockView {
    BlockView {
        previous_blockhash: info.parent_hash,
        blockhash: info.block_hash,
        parent_slot: info.parent_slot,
        block_time: Some(info.timestamp),
        slot: info.slot,
    }
}

/// Builds the account block of a slot. The accounts are exactly the values of
/// the map, ascending by key: nothing is filtered and nothing is added.
pub fn create_account_block(account_changes: &AccountChanges, block_info: &BlockInfo) -> (block:
    AccountBlock)
    ensures
        block@ == account_block_of(account_changes@, block_info@),
        is_sorted_listing(block@.accounts, account_changes@),
{
    AccountBlock {
        slot: block_info.slot,
        hash: block_info.block_hash.clone(),
        parent_hash: block_info.parent_hash.clone(),
        parent_slot: block_info.parent_slot,
        accounts: account_changes.accounts(),
        timestamp: Some(block_info.timestamp),
    }
}

/// Builds the block of a slot from its metadata.
pub fn create_block(block_info: &BlockInfo) -> (block: Block)
    ensures
        block@ == block_of(block_info@),
{
    Block {
        previous_blockhash: block_info.parent_hash.clone(),
        blockhash: block_info.block_hash.clone(),
        parent_slot: block_info.parent_slot,
        block_time: Some(block_info.timestamp),
        slot: block_info.slot,
    }
}

/// Builds the record emitted for one slot.
pub fn assemble(account_changes: &AccountChanges, block_info: &BlockInfo) -> (record:
    EmissionRecord)
    ensures
        record.block@ == block_of(block_info@),
        record.account_block@ == account_block_of(account_changes@, block_info@),
{
    EmissionRecord {
        block: create_block(block_info),
        account_block: create_account_block(account_changes, block_info),
    }
}

/// The assembled account list depends on the logical map alone. Two sets of
/// changes that hold the same writes, in whatever order those arrived, give
/// the same account block, and its accounts ascend by key.
pub proof fn lemma_assembly_ignores_write_order(
    a: AccountChanges,
    b: AccountChanges,
    info: BlockInfoView,
)
    requires
        a.wf(),
        b.wf(),
        a@ == b@,
    ensures
        account_block_of(a@, info) == account_block_of(b@, info),
        a.listing() == b.listing(),
        account_block_of(a@, info).accounts == a.listing(),
        keys_ascending(account_block_of(a@, info).accounts),
{
    a.lemma_listing();
    b.lemma_listing();
}

} // verus!
