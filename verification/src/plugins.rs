//! The event consumer: it turns the host's notifications into steps of the
//! accumulator and says when a slot's record is to be emitted.

use vstd::prelude::*;
use vstd::string::*;
use crate::cursor::not_above;
use crate::records::{AccountBlockView, BlockInfo, BlockInfoView, BlockView, EmissionRecord,
    Timestamp};
use crate::state::{SlotPhase, State, StateView, Stats};
use crate::utils::{account_block_of, assemble, block_of, convert_sol_timestamp};

verus! {

/// How far the finalized slot trails a confirmed one.
pub const FINALITY_LAG: u64 = 31;

/// What the host says of a slot.
#[derive(Clone, Copy, Debug, PartialEq, Eq, Structural)]
pub enum SlotStatus {
    /// The slot was processed: its record is emitted if it is ready.
    Processed,
    /// The slot was confirmed: the watermarks move and older slots are purged.
    Confirmed,
    /// The slot was rooted: nothing follows from it here.
    Rooted,
}

/// A record to emit, with what its two lines carry beside the payloads.
#[derive(Debug)]
pub struct Emission {
    pub block_info: BlockInfo,
    /// The finalized watermark at the time of emission; zero while unset.
    pub lib: u64,
    pub record: EmissionRecord,
}

/// What an [`Emission`] holds.
pub ghost struct EmissionView {
    pub block_info: BlockInfoView,
    pub lib: u64,
    pub block: BlockView,
    pub account_block: AccountBlockView,
}

impl View for Emission {
    type V = EmissionView;

    open spec fn view(&self) -> EmissionView {
        EmissionView {
            block_info: self.block_info@,
            lib: self.lib,
            block: self.record.block@,
            account_block: self.record.account_block@,
        }
    }
}

/// The finalized watermark as a line carries it: zero while it is unset.
pub open spec fn lib_of(v: StateView) -> u64 {
    match v.last_finalized {
        Some(mark) => mark,
        None => 0,
    }
}

/// The accumulator after a slot status: a processed slot that is ready
/// becomes emitted; a confirmed slot raises both watermarks, the finalized one
/// to `FINALITY_LAG` slots earlier and never below zero, and purges every
/// earlier slot; a rooted slot changes nothing.
pub open spec fn after_status(v: StateView, slot: u64, status: SlotStatus) -> StateView {
    match status {
        SlotStatus::Processed => if v.phase(slot) == SlotPhase::Ready {
            v.mark_emitted(slot)
        } else {
            v
        },
        SlotStatus::Confirmed => {
            let marked = v.advance_confirmed(slot).advance_finalized(slot - FINALITY_LAG);
            if slot > 0 {
                marked.purge_through((slot - 1) as u64)
            } else {
                marked
            }
        },
        SlotStatus::Rooted => v,
    }
}

/// What a slot status gives to emit: the record of a processed slot that is
/// ready, and nothing otherwise.
pub open spec fn emission_at(v: StateView, slot: u64, status: SlotStatus) -> Option<EmissionView> {
    if status == SlotStatus::Processed && v.phase(slot) == SlotPhase::Ready {
        Some(
            EmissionView {
                block_info: v.blocks[slot],
                lib: lib_of(v),
                block: block_of(v.blocks[slot]),
                account_block: account_block_of(v.accounts[slot], v.blocks[slot]),
            },
        )
    } else {
        None
    }
}

/// The plugin's core: the accumulator and the rules that drive it.
#[derive(Debug)]
pub struct Plugin {
    state: State,
}

impl View for Plugin {
    type V = StateView;

    closed spec fn view(&self) -> StateView {
        self.state@
    }
}

impl Default for Plugin {
    fn default() -> (plugin: Self)
        ensures
            plugin@ == StateView::fresh(),
    {
        Plugin::new()
    }
}

impl Plugin {
    /// A plugin that has seen nothing.
    pub fn new() -> (plugin: Self)
        ensures
            plugin@ == StateView::fresh(),
    {
        Plugin { state: State::new() }
    }

    /// Starts over with an empty accumulator.
    pub fn on_load(&mut self, config_file: &str, is_reload: bool)
        ensures
            final(self)@ == StateView::fresh(),
    {
        self.state = State::new();
    }

    /// Nothing is held that needs releasing.
    pub fn on_unload(&mut self)
        ensures
            *final(self) == *old(self),
    {
    }

    /// Takes one account update of `slot`.
    pub fn update_account(&mut self, slot: u64, account_key: Vec<u8>, account_data: Vec<u8>)
        ensures
            final(self)@ == old(self)@.record_account(slot, account_key@, account_data@),
    {
        self.state.record_account(slot, account_key, account_data);
    }

    /// Takes the block metadata of `slot`, its time in whole seconds since the
    /// Unix epoch. A redelivery overwrites what was held.
    pub fn notify_block_metadata(
        &mut self,
        slot: u64,
        parent_slot: u64,
        block_hash: &str,
        parent_hash: &str,
        block_time: i64,
    )
        ensures
            final(self)@ == old(self)@.record_block_info(
                slot,
                (BlockInfoView {
                    slot,
                    parent_slot,
                    block_hash: block_hash@,
                    parent_hash: parent_hash@,
                    timestamp: Timestamp { seconds: block_time, nanos: 0 },
                }),
            ),
    {
        let block_info = BlockInfo {
            block_hash: block_hash.to_owned(),
            parent_hash: parent_hash.to_owned(),
            parent_slot,
            slot,
            timestamp: convert_sol_timestamp(block_time),
        };
        self.state.record_block_info(slot, block_info);
    }

    /// Takes a slot status and returns the record to emit, if the status makes
    /// one due. The caller encodes and writes it; nothing here waits for that.
    pub fn update_slot_status(&mut self, slot: u64, status: SlotStatus) -> (emission: Option<
        Emission,
    >)
        ensures
            final(self)@ == after_status(old(self)@, slot, status),
            match emission {
                Some(e) => emission_at(old(self)@, slot, status) == Some(e@),
                None => emission_at(old(self)@, slot, status) is None,
            },
    {
        match status {
            SlotStatus::Processed => {
                let emission = match self.state.ready(slot) {
                    Some((account_changes, block_info)) => Emission {
                        block_info: block_info.clone(),
                        lib: match self.state.last_finalized() {
                            Some(mark) => mark,
                            None => 0,
                        },
                        record: assemble(account_changes, block_info),
                    },
                    None => {
                        return None;
                    },
                };
                self.state.mark_emitted(slot);
                Some(emission)
            },
            SlotStatus::Confirmed => {
                self.state.advance_confirmed(slot);
                self.state.advance_finalized(slot as i128 - FINALITY_LAG as i128);
                if slot > 0 {
                    self.state.purge_through(slot - 1);
                }
                None
            },
            SlotStatus::Rooted => None,
        }
    }

    /// The accumulator, to read.
    pub fn state(&self) -> (state: &State)
        ensures
            state@ == self@,
    {
        &self.state
    }

    /// How much is buffered and where the watermarks stand.
    pub fn stats(&self) -> (stats: Stats)
        ensures
            stats.account_slots == self@.accounts.len(),
            stats.block_slots == self@.blocks.len(),
            stats.last_confirmed == self@.last_confirmed,
            stats.last_finalized == self@.last_finalized,
    {
        self.state.stats()
    }

    /// Account updates are wanted.
    pub fn account_data_notifications_enabled(&self) -> (enabled: bool)
        ensures
            enabled,
    {
        true
    }

    /// Transaction notifications are switched on, though nothing is done
    /// with them.
    pub fn transaction_notifications_enabled(&self) -> (enabled: bool)
        ensures
            enabled,
    {
        true
    }

    /// Entry notifications are switched on, though nothing is done with them.
    pub fn entry_notifications_enabled(&self) -> (enabled: bool)
        ensures
            enabled,
    {
        true
    }
}

/// A slot is emitted once: when it has been processed, processing it again
/// gives nothing, whatever was emitted the first time.
pub proof fn lemma_processed_again_emits_nothing(v: StateView, slot: u64)
    ensures
        emission_at(after_status(v, slot, SlotStatus::Processed), slot, SlotStatus::Processed)
            is None,
{
}

/// An emitted slot stays emitted while its data is buffered: later writes and
/// redelivered metadata do not make it ready again.
pub proof fn lemma_emitted_stays_emitted(
    v: StateView,
    slot: u64,
    key: Seq<u8>,
    data: Seq<u8>,
    info: BlockInfoView,
)
    requires
        v.phase(slot) == SlotPhase::Emitted,
    ensures
        v.record_account(slot, key, data).phase(slot) == SlotPhase::Emitted,
        v.record_block_info(slot, info).phase(slot) == SlotPhase::Emitted,
{
}

/// No slot status moves a watermark back, and only a confirmed slot moves
/// one at all.
pub proof fn lemma_watermarks_never_move_back(v: StateView, slot: u64, status: SlotStatus)
    ensures
        not_above(v.last_confirmed, after_status(v, slot, status).last_confirmed),
        not_above(v.last_finalized, after_status(v, slot, status).last_finalized),
        status != SlotStatus::Confirmed ==> after_status(v, slot, status).last_confirmed
            == v.last_confirmed && after_status(v, slot, status).last_finalized
            == v.last_finalized,
{
}

/// A confirmed slot never purges itself or a later slot: what is buffered for
/// the slot being confirmed is still there to be emitted.
pub proof fn lemma_confirmed_keeps_later_slots(v: StateView, slot: u64, s: u64)
    requires
        s >= slot,
    ensures
        after_status(v, slot, SlotStatus::Confirmed).phase(s) == v.phase(s),
        after_status(v, slot, SlotStatus::Confirmed).changes_at(s) == v.changes_at(s),
        after_status(v, slot, SlotStatus::Confirmed).blocks.contains_key(s)
            == v.blocks.contains_key(s),
        v.blocks.contains_key(s) ==> after_status(v, slot, SlotStatus::Confirmed).blocks[s]
            == v.blocks[s],
{
}

} // verus!
