//! The plain records that travel between the accumulator, the assembler and
//! the two output channels.

use vstd::prelude::*;

verus! {

/// A point in time: whole seconds since the Unix epoch and a sub-second part.
#[derive(Clone, Copy, Debug, PartialEq, Eq, Structural)]
pub struct Timestamp {
    pub seconds: i64,
    pub nanos: i32,
}

/// The latest payload written to one account.
#[derive(Debug, PartialEq, Eq)]
pub struct Account {
    pub address: Vec<u8>,
    pub data: Vec<u8>,
}

/// What an [`Account`] holds, as mathematical sequences.
pub ghost struct AccountView {
    pub address: Seq<u8>,
    pub data: Seq<u8>,
}

impl View for Account {
    type V = AccountView;

    open spec fn view(&self) -> AccountView {
        AccountView { address: self.address@, data: self.data@ }
    }
}

impl Clone for Account {
    fn clone(&self) -> (copy: Self)
        ensures
            copy@ == self@,
    {
        let address = self.address.clone();
        let data = self.data.clone();
        assert(address@ =~= self.address@);
        assert(data@ =~= self.data@);
        Account { address, data }
    }
}

/// The views of a run of accounts, in the same order.
pub open spec fn account_views(accounts: Seq<Account>) -> Seq<AccountView> {
    accounts.map_values(|a: Account| a@)
}

/// Metadata of one slot, as the host reports it.
#[derive(Debug, PartialEq, Eq)]
pub struct BlockInfo {
    pub slot: u64,
    pub parent_slot: u64,
    pub block_hash: String,
    pub parent_hash: String,
    pub timestamp: Timestamp,
}

/// What a [`BlockInfo`] holds, with its hashes as character sequences.
pub ghost struct BlockInfoView {
    pub slot: u64,
    pub parent_slot: u64,
    pub block_hash: Seq<char>,
    pub parent_hash: Seq<char>,
    pub timestamp: Timestamp,
}

impl View for BlockInfo {
    type V = BlockInfoView;

    open spec fn view(&self) -> BlockInfoView {
        BlockInfoView {
            slot: self.slot,
            parent_slot: self.parent_slot,
            block_hash: self.block_hash@,
            parent_hash: self.parent_hash@,
            timestamp: self.timestamp,
        }
    }
}

impl Clone for BlockInfo {
    fn clone(&self) -> (copy: Self)
        ensures
            copy@ == self@,
    {
        BlockInfo {
            slot: self.slot,
            parent_slot: self.parent_slot,
            block_hash: self.block_hash.clone(),
            parent_hash: self.parent_hash.clone(),
            timestamp: self.timestamp,
        }
    }
}

/// The account half of an emission: the slot's header and every account
/// written in it, ascending by address.
#[derive(Debug, PartialEq, Eq)]
pub struct AccountBlock {
    pub slot: u64,
    pub hash: String,
    pub parent_hash: String,
    pub parent_slot: u64,
    pub accounts: Vec<Account>,
    pub timestamp: Option<Timestamp>,
}

/// What an [`AccountBlock`] holds.
pub ghost struct AccountBlockView {
    pub slot: u64,
    pub hash: Seq<char>,
    pub parent_hash: Seq<char>,
    pub parent_slot: u64,
    pub accounts: Seq<AccountView>,
    pub timestamp: Option<Timestamp>,
}

impl View for AccountBlock {
    type V = AccountBlockView;

    open spec fn view(&self) -> AccountBlockView {
        AccountBlockView {
            slot: self.slot,
            hash: self.hash@,
            parent_hash: self.parent_hash@,
            parent_slot: self.parent_slot,
            accounts: account_views(self.accounts@),
            timestamp: self.timestamp,
        }
    }
}

/// The block half of an emission: the slot's header alone.
#[derive(Debug, PartialEq, Eq)]
pub struct Block {
    pub previous_blockhash: String,
    pub blockhash: String,
    pub parent_slot: u64,
    pub block_time: Option<Timestamp>,
    pub slot: u64,
}

/// What a [`Block`] holds.
pub ghost struct BlockView {
    pub previous_blockhash: Seq<char>,
    pub blockhash: Seq<char>,
    pub parent_slot: u64,
    pub block_time: Option<Timestamp>,
    pub slot: u64,
}

impl View for Block {
    type V = BlockView;

    open spec fn view(&self) -> BlockView {
        BlockView {
            previous_blockhash: self.previous_blockhash@,
            blockhash: self.blockhash@,
            parent_slot: self.parent_slot,
            block_time: self.block_time,
            slot: self.slot,
        }
    }
}

/// Everything emitted for one slot, built once and never changed.
#[derive(Debug, PartialEq, Eq)]
pub struct EmissionRecord {
    pub block: Block,
    pub account_block: AccountBlock,
}

} // verus!
