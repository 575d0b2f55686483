//! The accumulator: per-slot account writes and block metadata, the two
//! watermarks, and the purge that bounds memory.

use vstd::prelude::*;
use std::collections::{HashMap, HashSet};
use crate::accounts::AccountChanges;
use crate::records::{BlockInfo, BlockInfoView};

verus! {

broadcast use vstd::std_specs::hash::group_hash_axioms;

/// What `m` holds at slots after `slot`.
pub open spec fn after_slot<V>(m: Map<u64, V>, slot: u64) -> Map<u64, V> {
    m.restrict(Set::new(|s: u64| s > slot))
}

/// Drops every entry of `m` at a slot up to and including `slot`.
fn purge_map<V>(m: &mut HashMap<u64, V>, slot: u64)
    ensures
        final(m)@ == after_slot(old(m)@, slot),
{
    let mut doomed: Vec<u64> = Vec::new();
    for k in it: m.keys()
        invariant
            forall|j: int| 0 <= j < doomed.len() ==> #[trigger] doomed@[j] <= slot,
            forall|i: int|
                0 <= i < it.index() && *(#[trigger] it.seq()[i]) <= slot ==> doomed@.contains(
                    *it.seq()[i],
                ),
    {
        let ghost before = doomed@;
        if *k <= slot {
            doomed.push(*k);
        }
        proof {
            assert forall|i: int|
                0 <= i < it.index() + 1 && *(#[trigger] it.seq()[i]) <= slot implies doomed@.contains(
                *it.seq()[i],
            ) by {
                if i < it.index() {
                    let w = choose|w: int| 0 <= w < before.len() && before[w] == *it.seq()[i];
                    assert(doomed@[w] == before[w]);
                } else {
                    assert(doomed@[doomed.len() - 1] == *k);
                }
            }
        }
    }
    assert(forall|s: u64| m@.contains_key(s) && s <= slot ==> doomed@.contains(s));
    let mut j: usize = 0;
    while j < doomed.len()
        invariant
            j <= doomed.len(),
            forall|s: u64| #[trigger]
                m@.contains_key(s) ==> old(m)@.contains_key(s) && m@[s] == old(m)@[s],
            forall|s: u64| #[trigger] old(m)@.contains_key(s) && s > slot ==> m@.contains_key(s),
            forall|i: int| 0 <= i < j ==> !m@.contains_key(#[trigger] doomed@[i]),
            forall|j: int| 0 <= j < doomed.len() ==> #[trigger] doomed@[j] <= slot,
            forall|s: u64| old(m)@.contains_key(s) && s <= slot ==> doomed@.contains(s),
        decreases doomed.len() - j,
    {
        m.remove(&doomed[j]);
        j += 1;
    }
    assert(m@ =~= after_slot(old(m)@, slot));
}

/// Drops every slot of `set` up to and including `slot`.
fn purge_set(set: &mut HashSet<u64>, slot: u64)
    ensures
        final(set)@ == old(set)@.filter(|s: u64| s > slot),
{
    let mut doomed: Vec<u64> = Vec::new();
    for k in it: set.iter()
        invariant
            forall|j: int| 0 <= j < doomed.len() ==> #[trigger] doomed@[j] <= slot,
            forall|i: int|
                0 <= i < it.index() && *(#[trigger] it.seq()[i]) <= slot ==> doomed@.contains(
                    *it.seq()[i],
                ),
    {
        let ghost before = doomed@;
        if *k <= slot {
            doomed.push(*k);
        }
        proof {
            assert forall|i: int|
                0 <= i < it.index() + 1 && *(#[trigger] it.seq()[i]) <= slot implies doomed@.contains(
                *it.seq()[i],
            ) by {
                if i < it.index() {
                    let w = choose|w: int| 0 <= w < before.len() && before[w] == *it.seq()[i];
                    assert(doomed@[w] == before[w]);
                } else {
                    assert(doomed@[doomed.len() - 1] == *k);
                }
            }
        }
    }
    assert(forall|s: u64| set@.contains(s) && s <= slot ==> doomed@.contains(s));
    let mut j: usize = 0;
    while j < doomed.len()
        invariant
            j <= doomed.len(),
            forall|s: u64| #[trigger] set@.contains(s) ==> old(set)@.contains(s),
            forall|s: u64| #[trigger] old(set)@.contains(s) && s > slot ==> set@.contains(s),
            forall|i: int| 0 <= i < j ==> !set@.contains(#[trigger] doomed@[i]),
            forall|j: int| 0 <= j < doomed.len() ==> #[trigger] doomed@[j] <= slot,
            forall|s: u64| old(set)@.contains(s) && s <= slot ==> doomed@.contains(s),
        decreases doomed.len() - j,
    {
        set.remove(&doomed[j]);
        j += 1;
    }
    assert(set@ =~= old(set)@.filter(|s: u64| s > slot));
}

/// Where one slot stands on its way from first notification to emission.
#[derive(Clone, Copy, Debug, PartialEq, Eq, Structural)]
pub enum SlotPhase {
    /// Nothing is buffered for the slot: never seen, or purged.
    Empty,
    /// Account writes or block metadata are buffered, but not yet both.
    Accumulating,
    /// Block metadata and at least one account write are buffered.
    Ready,
    /// The slot's record has been handed out for emission.
    Emitted,
}

/// A watermark raised to `to`: it never moves back.
pub open spec fn raised(current: Option<u64>, to: u64) -> Option<u64> {
    match current {
        Some(mark) if mark >= to => current,
        _ => Some(to),
    }
}

/// A candidate slot brought into the range of slots: below zero it is zero.
pub open spec fn clamped_slot(candidate: int) -> u64 {
    if candidate < 0 {
        0
    } else if candidate > u64::MAX {
        u64::MAX
    } else {
        candidate as u64
    }
}

/// What the accumulator holds, as mathematical maps.
pub ghost struct StateView {
    /// For each slot with account activity, its logical map of writes.
    pub accounts: Map<u64, Map<Seq<u8>, Seq<u8>>>,
    /// For each slot with block metadata, the metadata last delivered.
    pub blocks: Map<u64, BlockInfoView>,
    /// The slots whose record has been handed out.
    pub emitted: Set<u64>,
    pub last_confirmed: Option<u64>,
    pub last_finalized: Option<u64>,
}

impl StateView {
    /// Nothing buffered, no watermark set.
    pub open spec fn fresh() -> StateView {
        StateView {
            accounts: Map::empty(),
            blocks: Map::empty(),
            emitted: Set::empty(),
            last_confirmed: None,
            last_finalized: None,
        }
    }

    /// The writes buffered for `slot`; none where the slot has no activity.
    pub open spec fn changes_at(self, slot: u64) -> Map<Seq<u8>, Seq<u8>> {
        if self.accounts.contains_key(slot) {
            self.accounts[slot]
        } else {
            Map::empty()
        }
    }

    /// After one account write: the slot's map holds `data` at `key`, and
    /// nothing else has changed.
    pub open spec fn record_account(self, slot: u64, key: Seq<u8>, data: Seq<u8>) -> StateView {
        StateView {
            accounts: self.accounts.insert(slot, self.changes_at(slot).insert(key, data)),
            ..self
        }
    }

    /// After block metadata was delivered for `slot`: it replaces what the
    /// slot had.
    pub open spec fn record_block_info(self, slot: u64, info: BlockInfoView) -> StateView {
        StateView { blocks: self.blocks.insert(slot, info), ..self }
    }

    /// After `slot` was confirmed: the confirmed watermark is the higher of
    /// the two.
    pub open spec fn advance_confirmed(self, slot: u64) -> StateView {
        StateView { last_confirmed: raised(self.last_confirmed, slot), ..self }
    }

    /// After a candidate for the finalized watermark: the watermark is the
    /// higher of itself and the candidate, the candidate taken as zero where
    /// it is negative.
    pub open spec fn advance_finalized(self, candidate: int) -> StateView {
        StateView { last_finalized: raised(self.last_finalized, clamped_slot(candidate)), ..self }
    }

    /// After a purge through `slot`: only later slots are left.
    pub open spec fn purge_through(self, slot: u64) -> StateView {
        StateView {
            accounts: after_slot(self.accounts, slot),
            blocks: after_slot(self.blocks, slot),
            emitted: self.emitted.filter(|s: u64| s > slot),
            ..self
        }
    }

    /// After the record of `slot` was handed out.
    pub open spec fn mark_emitted(self, slot: u64) -> StateView {
        StateView { emitted: self.emitted.insert(slot), ..self }
    }

    /// Block metadata and at least one account write are buffered for `slot`.
    pub open spec fn complete(self, slot: u64) -> bool {
        self.blocks.contains_key(slot) && self.accounts.contains_key(slot)
            && self.accounts[slot].len() > 0
    }

    /// Where `slot` stands. A purged slot is empty again: nothing tells it
    /// from a slot that was never seen.
    pub open spec fn phase(self, slot: u64) -> SlotPhase {
        if self.emitted.contains(slot) {
            SlotPhase::Emitted
        } else if self.complete(slot) {
            SlotPhase::Ready
        } else if self.blocks.contains_key(slot) || self.accounts.contains_key(slot) {
            SlotPhase::Accumulating
        } else {
            SlotPhase::Empty
        }
    }
}

/// Counts for observability.
#[derive(Clone, Copy, Debug, PartialEq, Eq, Structural)]
pub struct Stats {
    /// Slots with buffered account writes.
    pub account_slots: usize,
    /// Slots with buffered block metadata.
    pub block_slots: usize,
    pub last_confirmed: Option<u64>,
    pub last_finalized: Option<u64>,
}

/// The state accumulator. Its one owner feeds it the host's notifications;
/// every operation is a single step from one view to the next.
#[derive(Debug)]
pub struct State {
    account_changes: HashMap<u64, AccountChanges>,
    block_infos: HashMap<u64, BlockInfo>,
    emitted: HashSet<u64>,
    last_confirmed: Option<u64>,
    last_finalized: Option<u64>,
}

impl View for State {
    type V = StateView;

    closed spec fn view(&self) -> StateView {
        StateView {
            accounts: self.account_changes@.map_values(|c: AccountChanges| c@),
            blocks: self.block_infos@.map_values(|b: BlockInfo| b@),
            emitted: self.emitted@,
            last_confirmed: self.last_confirmed,
            last_finalized: self.last_finalized,
        }
    }
}

impl State {
    /// An accumulator that has seen nothing.
    pub fn new() -> (state: Self)
        ensures
            state@ == StateView::fresh(),
    {
        let state = State {
            account_changes: HashMap::new(),
            block_infos: HashMap::new(),
            emitted: HashSet::new(),
            last_confirmed: None,
            last_finalized: None,
        };
        assert(state@.accounts =~= Map::empty());
        assert(state@.blocks =~= Map::empty());
        state
    }

    /// Buffers one account write for `slot`. A later write to the same key of
    /// the same slot replaces the earlier one.
    pub fn record_account(&mut self, slot: u64, key: Vec<u8>, data: Vec<u8>)
        ensures
            final(self)@ == old(self)@.record_account(slot, key@, data@),
    {
        let mut changes = match self.account_changes.remove(&slot) {
            Some(changes) => changes,
            None => AccountChanges::new(),
        };
        assert(changes@ == old(self)@.changes_at(slot));
        changes.insert(key, data);
        self.account_changes.insert(slot, changes);
        assert(self@.accounts =~= old(self)@.record_account(slot, key@, data@).accounts);
    }

    /// Buffers the block metadata of `slot`. A redelivery overwrites what was
    /// held.
    pub fn record_block_info(&mut self, slot: u64, info: BlockInfo)
        ensures
            final(self)@ == old(self)@.record_block_info(slot, info@),
    {
        self.block_infos.insert(slot, info);
        assert(self@.blocks =~= old(self)@.record_block_info(slot, info@).blocks);
    }

    /// The account writes buffered for `slot`. Absent where none was ever
    /// recorded and where they were purged: the two cannot be told apart.
    pub fn account_changes(&self, slot: u64) -> (changes: Option<&AccountChanges>)
        ensures
            match changes {
                Some(c) => self@.accounts.contains_key(slot) && c@ == self@.accounts[slot],
                None => !self@.accounts.contains_key(slot),
            },
    {
        self.account_changes.get(&slot)
    }

    /// The block metadata buffered for `slot`.
    pub fn block_info(&self, slot: u64) -> (info: Option<&BlockInfo>)
        ensures
            match info {
                Some(i) => self@.blocks.contains_key(slot) && i@ == self@.blocks[slot],
                None => !self@.blocks.contains_key(slot),
            },
    {
        self.block_infos.get(&slot)
    }

    /// The confirmed watermark, unset until a slot is confirmed.
    pub fn last_confirmed(&self) -> (mark: Option<u64>)
        ensures
            mark == self@.last_confirmed,
    {
        self.last_confirmed
    }

    /// The finalized watermark, unset until a candidate is given.
    pub fn last_finalized(&self) -> (mark: Option<u64>)
        ensures
            mark == self@.last_finalized,
    {
        self.last_finalized
    }

    /// Raises the confirmed watermark to `slot`; a lower slot leaves it where
    /// it is.
    pub fn advance_confirmed(&mut self, slot: u64)
        ensures
            final(self)@ == old(self)@.advance_confirmed(slot),
    {
        self.last_confirmed = Some(
            match self.last_confirmed {
                Some(mark) => if mark >= slot { mark } else { slot },
                None => slot,
            },
        );
    }

    /// Raises the finalized watermark to `candidate`, which the caller may
    /// have computed by a subtraction that went below zero: such a candidate
    /// counts as slot zero. The watermark never moves back and never wraps.
    pub fn advance_finalized(&mut self, candidate: i128)
        ensures
            final(self)@ == old(self)@.advance_finalized(candidate as int),
            candidate <= 0 ==> final(self)@.last_finalized == raised(old(self)@.last_finalized, 0),
    {
        let target: u64 = if candidate < 0 {
            0
        } else if candidate > u64::MAX as i128 {
            u64::MAX
        } else {
            candidate as u64
        };
        self.last_finalized = Some(
            match self.last_finalized {
                Some(mark) => if mark >= target { mark } else { target },
                None => target,
            },
        );
    }

    /// Forgets everything buffered for slots up to and including `slot`.
    /// Slots after `slot` keep exactly what they had; purging again changes
    /// nothing.
    pub fn purge_through(&mut self, slot: u64)
        ensures
            final(self)@ == old(self)@.purge_through(slot),
            forall|s: u64|
                s <= slot ==> !final(self)@.accounts.contains_key(s)
                    && !final(self)@.blocks.contains_key(s),
            forall|s: u64|
                s > slot ==> {
                    &&& final(self)@.accounts.contains_key(s) == old(self)@.accounts.contains_key(s)
                    &&& final(self)@.blocks.contains_key(s) == old(self)@.blocks.contains_key(s)
                    &&& final(self)@.changes_at(s) == old(self)@.changes_at(s)
                    &&& final(self)@.blocks.contains_key(s) ==> final(self)@.blocks[s]
                        == old(self)@.blocks[s]
                },
    {
        purge_map(&mut self.account_changes, slot);
        purge_map(&mut self.block_infos, slot);
        purge_set(&mut self.emitted, slot);
        assert(self@.accounts =~= old(self)@.purge_through(slot).accounts);
        assert(self@.blocks =~= old(self)@.purge_through(slot).blocks);
    }

    /// Records that the record of `slot` has been handed out.
    pub fn mark_emitted(&mut self, slot: u64)
        ensures
            final(self)@ == old(self)@.mark_emitted(slot),
    {
        self.emitted.insert(slot);
    }

    /// Where `slot` stands.
    pub fn phase(&self, slot: u64) -> (phase: SlotPhase)
        ensures
            phase == self@.phase(slot),
    {
        if self.emitted.contains(&slot) {
            return SlotPhase::Emitted;
        }
        let has_block = self.block_infos.contains_key(&slot);
        match self.account_changes.get(&slot) {
            Some(changes) => {
                if has_block && !changes.is_empty() {
                    SlotPhase::Ready
                } else {
                    SlotPhase::Accumulating
                }
            },
            None => {
                if has_block {
                    SlotPhase::Accumulating
                } else {
                    SlotPhase::Empty
                }
            },
        }
    }

    /// What is buffered for `slot`, where the slot is ready to be emitted.
    pub fn ready(&self, slot: u64) -> (buffered: Option<(&AccountChanges, &BlockInfo)>)
        ensures
            match buffered {
                Some((changes, info)) => {
                    &&& self@.phase(slot) == SlotPhase::Ready
                    &&& changes@ == self@.accounts[slot]
                    &&& info@ == self@.blocks[slot]
                },
                None => self@.phase(slot) != SlotPhase::Ready,
            },
    {
        if self.emitted.contains(&slot) {
            return None;
        }
        match (self.account_changes.get(&slot), self.block_infos.get(&slot)) {
            (Some(changes), Some(info)) => {
                if changes.is_empty() {
                    None
                } else {
                    Some((changes, info))
                }
            },
            _ => None,
        }
    }

    /// How much is buffered and where the watermarks stand. Changes nothing.
    pub fn stats(&self) -> (stats: Stats)
        ensures
            stats.account_slots == self@.accounts.len(),
            stats.block_slots == self@.blocks.len(),
            stats.last_confirmed == self@.last_confirmed,
            stats.last_finalized == self@.last_finalized,
    {
        assert(self@.accounts.dom() =~= self.account_changes@.dom());
        assert(self@.blocks.dom() =~= self.block_infos@.dom());
        Stats {
            account_slots: self.account_changes.len(),
            block_slots: self.block_infos.len(),
            last_confirmed: self.last_confirmed,
            last_finalized: self.last_finalized,
        }
    }
}

/// Last write wins: of two writes to one key of one slot, the later is what
/// the slot holds for the key, and the earlier leaves no trace at all.
pub proof fn lemma_last_write_wins(
    v: StateView,
    slot: u64,
    key: Seq<u8>,
    first: Seq<u8>,
    second: Seq<u8>,
)
    ensures
        ({
            let twice = v.record_account(slot, key, first).record_account(slot, key, second);
            &&& twice.accounts.contains_key(slot)
            &&& twice.accounts[slot].contains_key(key)
            &&& twice.accounts[slot][key] == second
            &&& twice == v.record_account(slot, key, second)
        }),
{
    let once = v.record_account(slot, key, first);
    let twice = once.record_account(slot, key, second);
    let direct = v.record_account(slot, key, second);
    assert(twice.accounts[slot] =~= direct.accounts[slot]);
    assert(twice.accounts =~= direct.accounts);
}

/// Writes to different keys of a slot can arrive in either order: what the
/// slot holds afterwards is the same.
pub proof fn lemma_writes_to_different_keys_commute(
    v: StateView,
    slot: u64,
    key_a: Seq<u8>,
    data_a: Seq<u8>,
    key_b: Seq<u8>,
    data_b: Seq<u8>,
)
    requires
        key_a != key_b,
    ensures
        v.record_account(slot, key_a, data_a).record_account(slot, key_b, data_b)
            == v.record_account(slot, key_b, data_b).record_account(slot, key_a, data_a),
{
    let ab = v.record_account(slot, key_a, data_a).record_account(slot, key_b, data_b);
    let ba = v.record_account(slot, key_b, data_b).record_account(slot, key_a, data_a);
    assert(ab.accounts[slot] =~= ba.accounts[slot]);
    assert(ab.accounts =~= ba.accounts);
}

/// Purge safety: after a purge through `slot` nothing is buffered at or below
/// it, every later slot holds exactly what it held, and the watermarks stand
/// where they stood.
pub proof fn lemma_purge_safety(v: StateView, slot: u64, s: u64)
    ensures
        ({
            let purged = v.purge_through(slot);
            &&& s <= slot ==> {
                &&& !purged.accounts.contains_key(s)
                &&& !purged.blocks.contains_key(s)
                &&& purged.phase(s) == SlotPhase::Empty
            }
            &&& s > slot ==> {
                &&& purged.accounts.contains_key(s) == v.accounts.contains_key(s)
                &&& purged.blocks.contains_key(s) == v.blocks.contains_key(s)
                &&& purged.changes_at(s) == v.changes_at(s)
                &&& v.blocks.contains_key(s) ==> purged.blocks[s] == v.blocks[s]
                &&& purged.phase(s) == v.phase(s)
            }
            &&& purged.last_confirmed == v.last_confirmed
            &&& purged.last_finalized == v.last_finalized
        }),
{
}

/// Purging what is already purged changes nothing.
pub proof fn lemma_purge_again_is_noop(v: StateView, slot: u64, again: u64)
    requires
        again <= slot,
    ensures
        v.purge_through(slot).purge_through(again) == v.purge_through(slot),
{
    let once = v.purge_through(slot);
    let twice = once.purge_through(again);
    assert(twice.accounts =~= once.accounts);
    assert(twice.blocks =~= once.blocks);
    assert(twice.emitted =~= once.emitted);
}

/// The finalized watermark never underflows: a candidate below zero counts as
/// slot zero, and no candidate ever lowers the watermark.
pub proof fn lemma_finalized_never_wraps(v: StateView, candidate: int)
    ensures
        ({
            let after = v.advance_finalized(candidate).last_finalized;
            &&& after is Some
            &&& candidate < 0 ==> after == raised(v.last_finalized, 0)
            &&& candidate < 0 && v.last_finalized is None ==> after == Some(0u64)
            &&& v.last_finalized matches Some(mark) ==> after->0 >= mark
            &&& 0 <= candidate <= u64::MAX ==> after->0 >= candidate
        }),
{
}

} // verus!
