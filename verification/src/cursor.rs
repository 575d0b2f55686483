//! The durable cursor: it moves to a slot only when that slot has been
//! reported twice, once by each output channel.

use vstd::prelude::*;

verus! {

/// The last slot reported, after `slot` is reported to a tracker that last saw
/// `last`. `None` sorts below every slot.
pub open spec fn next_last(last: Option<u64>, slot: u64) -> Option<u64> {
    match last {
        Some(seen) if slot <= seen => last,
        _ => Some(slot),
    }
}

/// The slot to make durable, if any, when `slot` is reported to a tracker that
/// last saw `last`: the second report of the slot seen last.
pub open spec fn persisted(last: Option<u64>, slot: u64) -> Option<u64> {
    if last == Some(slot) {
        Some(slot)
    } else {
        None
    }
}

/// One of the two append-only outputs.
#[derive(Clone, Copy, Debug, PartialEq, Eq, Structural)]
pub enum Channel {
    /// The channel of the blocks.
    Block,
    /// The channel of the account blocks.
    Account,
}

/// The last slot seen by the two channel writers, shared by all slots.
#[derive(Debug)]
pub struct CursorTracker {
    last: Option<u64>,
}

impl CursorTracker {
    /// The last slot reported, if any was.
    pub closed spec fn last_seen(&self) -> Option<u64> {
        self.last
    }

    /// A tracker that has seen no report.
    pub fn new() -> (tracker: Self)
        ensures
            tracker.last_seen() == None::<u64>,
    {
        CursorTracker { last: None }
    }

    /// The last slot reported, if any was.
    pub fn last(&self) -> (last: Option<u64>)
        ensures
            last == self.last_seen(),
    {
        self.last
    }

    /// Takes the report that one channel has written `slot`. A first report of
    /// a newer slot is remembered; a second report of the remembered slot
    /// returns it, to be made durable; an older slot changes nothing.
    pub fn advance(&mut self, slot: u64) -> (durable: Option<u64>)
        ensures
            final(self).last_seen() == next_last(old(self).last_seen(), slot),
            durable == persisted(old(self).last_seen(), slot),
    {
        match self.last {
            Some(seen) => {
                if seen < slot {
                    self.last = Some(slot);
                    None
                } else if seen == slot {
                    Some(slot)
                } else {
                    None
                }
            },
            None => {
                self.last = Some(slot);
                None
            },
        }
    }
}

/// `a` is not above `b`, where `None` is below every slot.
pub open spec fn not_above(a: Option<u64>, b: Option<u64>) -> bool {
    match (a, b) {
        (None, _) => true,
        (Some(x), Some(y)) => x <= y,
        (Some(_), None) => false,
    }
}

/// What a tracker that last saw `last` has seen last after the reports
/// `slots`, taken in order.
pub open spec fn last_after(last: Option<u64>, slots: Seq<u64>) -> Option<u64>
    decreases slots.len(),
{
    if slots.len() == 0 {
        last
    } else {
        next_last(last_after(last, slots.drop_last()), slots.last())
    }
}

/// The slots that the reports `slots` make durable, in the order in which
/// they do, on a tracker that last saw `last`.
pub open spec fn durable_after(last: Option<u64>, slots: Seq<u64>) -> Seq<u64>
    decreases slots.len(),
{
    if slots.len() == 0 {
        Seq::empty()
    } else {
        let earlier = durable_after(last, slots.drop_last());
        match persisted(last_after(last, slots.drop_last()), slots.last()) {
            Some(slot) => earlier.push(slot),
            None => earlier,
        }
    }
}

/// A report never lowers what the tracker has seen last, and afterwards the
/// tracker has seen at least the reported slot.
pub proof fn lemma_last_never_decreases(last: Option<u64>, slot: u64)
    ensures
        not_above(last, next_last(last, slot)),
        not_above(Some(slot), next_last(last, slot)),
{
}

/// After a report of `newer`, a report of an older slot is ignored: what was
/// seen last neither falls nor changes, and the older slot is not made
/// durable.
pub proof fn lemma_stale_report_is_ignored(last: Option<u64>, newer: u64, older: u64)
    requires
        older < newer,
    ensures
        not_above(last, next_last(last, newer)),
        next_last(next_last(last, newer), older) == next_last(last, newer),
        persisted(next_last(last, newer), older) is None,
{
}

/// Whatever the reports, nothing made durable is above what was seen last,
/// and what was seen last has not fallen.
proof fn lemma_durable_bounded(last: Option<u64>, slots: Seq<u64>)
    ensures
        not_above(last, last_after(last, slots)),
        forall|i: int|
            0 <= i < durable_after(last, slots).len() ==> not_above(
                Some(#[trigger] durable_after(last, slots)[i]),
                last_after(last, slots),
            ),
    decreases slots.len(),
{
    if slots.len() > 0 {
        let earlier = slots.drop_last();
        let before = durable_after(last, earlier);
        let now = durable_after(last, slots);
        lemma_durable_bounded(last, earlier);
        lemma_last_never_decreases(last_after(last, earlier), slots.last());
        assert forall|i: int| 0 <= i < now.len() implies not_above(
            Some(#[trigger] now[i]),
            last_after(last, slots),
        ) by {
            if i < before.len() {
                assert(now[i] == before[i]);
                assert(not_above(Some(before[i]), last_after(last, earlier)));
            }
        }
    }
}

/// The durable cursor never regresses: whatever the order of the reports,
/// each slot made durable is at least the one made durable before it.
pub proof fn lemma_durable_never_regresses(last: Option<u64>, slots: Seq<u64>)
    ensures
        forall|i: int, j: int|
            0 <= i <= j < durable_after(last, slots).len() ==> durable_after(last, slots)[i]
                <= durable_after(last, slots)[j],
    decreases slots.len(),
{
    if slots.len() > 0 {
        let earlier = slots.drop_last();
        let before = durable_after(last, earlier);
        let now = durable_after(last, slots);
        lemma_durable_never_regresses(last, earlier);
        lemma_durable_bounded(last, earlier);
        assert forall|i: int, j: int| 0 <= i <= j < now.len() implies now[i] <= now[j] by {
            if j < before.len() {
                assert(now[i] == before[i] && now[j] == before[j]);
            } else if i < before.len() {
                assert(now[i] == before[i]);
                assert(not_above(Some(before[i]), last_after(last, earlier)));
            }
        }
    }
}

/// On a fresh tracker, what was seen last is one of the reports.
proof fn lemma_last_was_reported(slots: Seq<u64>)
    ensures
        last_after(None, slots) matches Some(seen) ==> exists|a: int|
            0 <= a < slots.len() && slots[a] == seen,
        slots.len() > 0 ==> last_after(None, slots) is Some,
    decreases slots.len(),
{
    if slots.len() > 0 {
        let earlier = slots.drop_last();
        lemma_last_was_reported(earlier);
        let seen = last_after(None, slots)->0;
        if seen == slots.last() {
            assert(slots[slots.len() - 1] == seen);
        } else {
            let a = choose|a: int| 0 <= a < earlier.len() && earlier[a] == seen;
            assert(slots[a] == seen);
        }
    }
}

/// On a fresh tracker a slot is made durable only after it was reported
/// twice: by then both channels have written it.
pub proof fn lemma_durable_was_reported_twice(slots: Seq<u64>, i: int)
    requires
        0 <= i < durable_after(None, slots).len(),
    ensures
        exists|a: int, b: int|
            0 <= a < b < slots.len() && slots[a] == durable_after(None, slots)[i] && slots[b]
                == durable_after(None, slots)[i],
    decreases slots.len(),
{
    let earlier = slots.drop_last();
    let before = durable_after(None, earlier);
    let slot = durable_after(None, slots)[i];
    if i < before.len() {
        lemma_durable_was_reported_twice(earlier, i);
        let (a, b) = choose|a: int, b: int|
            0 <= a < b < earlier.len() && earlier[a] == slot && earlier[b] == slot;
        assert(slots[a] == slot && slots[b] == slot);
    } else {
        lemma_last_was_reported(earlier);
        let a = choose|a: int| 0 <= a < earlier.len() && earlier[a] == slot;
        let b = slots.len() - 1;
        assert(slots[a] == slot && slots[b] == slot);
    }
}

/// The slots of a run of reports, each report being a channel and the slot it
/// has written.
pub open spec fn reported_slots(reports: Seq<(Channel, u64)>) -> Seq<u64> {
    reports.map_values(|report: (Channel, u64)| report.1)
}

/// Where no channel reports a slot twice, a slot is made durable only after
/// both channels have reported it. This holds of the reports up to any
/// moment, so the cursor never names a slot that one channel still lacks.
pub proof fn lemma_durable_after_both_channels(reports: Seq<(Channel, u64)>, i: int)
    requires
        reports.no_duplicates(),
        0 <= i < durable_after(None, reported_slots(reports)).len(),
    ensures
        reports.contains((Channel::Block, durable_after(None, reported_slots(reports))[i])),
        reports.contains((Channel::Account, durable_after(None, reported_slots(reports))[i])),
{
    let slots = reported_slots(reports);
    let slot = durable_after(None, slots)[i];
    lemma_durable_was_reported_twice(slots, i);
    let (a, b) = choose|a: int, b: int|
        0 <= a < b < slots.len() && slots[a] == slot && slots[b] == slot;
    assert(reports[a].1 == slot && reports[b].1 == slot);
    assert(reports[a] != reports[b]);
    assert(reports[a].0 != reports[b].0);
    if reports[a].0 == Channel::Block {
        assert(reports[a] == (Channel::Block, slot));
        assert(reports[b] == (Channel::Account, slot));
    } else {
        assert(reports[a] == (Channel::Account, slot));
        assert(reports[b] == (Channel::Block, slot));
    }
}

} // verus!
