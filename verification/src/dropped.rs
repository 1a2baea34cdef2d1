//! The count of telemetry messages that were dropped.

use vstd::prelude::*;

verus! {

/// How handing a message to the exporter ended.
#[derive(Clone, Copy, Debug, PartialEq, Eq)]
pub enum Handover {
    /// The message is in the channel.
    Sent,
    /// The channel was full.
    Full,
    /// The exporter has stopped.
    Closed,
}

/// The count after a handover: one more where the channel was full. It wraps around.
pub open spec fn noted(count: u64, handover: Handover) -> u64 {
    if handover is Full {
        count.wrapping_add(1)
    } else {
        count
    }
}

/// The count after handovers, one after the other.
pub open spec fn noted_all(count: u64, handovers: Seq<Handover>) -> u64
    decreases handovers.len(),
{
    if handovers.len() == 0 {
        count
    } else {
        noted(noted_all(count, handovers.drop_last()), handovers.last())
    }
}

/// How many of the handovers met a full channel.
pub open spec fn refused(handovers: Seq<Handover>) -> nat
    decreases handovers.len(),
{
    if handovers.len() == 0 {
        0
    } else {
        refused(handovers.drop_last()) + if handovers.last() is Full {
            1nat
        } else {
            0
        }
    }
}

/// Counts the messages that were dropped due to a full channel.
#[derive(Clone, Copy, Debug, Default)]
pub struct DropCounter {
    dropped: u64,
}

impl DropCounter {
    /// How many messages were dropped.
    pub closed spec fn count(&self) -> u64 {
        self.dropped
    }

    /// A counter that has seen no message dropped.
    pub fn new() -> (counter: DropCounter)
        ensures
            counter.count() == 0,
    {
        DropCounter { dropped: 0 }
    }

    /// Take note of how a handover ended. The count wraps around.
    pub fn note(&mut self, handover: Handover)
        ensures
            final(self).count() == noted(old(self).count(), handover),
    {
        match handover {
            Handover::Full => {
                self.dropped = self.dropped.wrapping_add(1);
            },
            _ => {},
        }
    }
}

/// Return the total number of telemetry messages dropped due to a full channel.
pub fn telemetry_dropped_total(counter: &DropCounter) -> (total: u64)
    ensures
        total == counter.count(),
{
    counter.dropped
}

/// After any handovers the count is the one before plus the number of messages that were dropped,
/// as long as it can hold that; beyond, it is what remains of it. So until then it never goes down,
/// and messages that were not dropped leave it.
pub proof fn law_dropped_total(count: u64, handovers: Seq<Handover>)
    ensures
        noted_all(count, handovers) == (count + refused(handovers)) % 0x1_0000_0000_0000_0000,
        count + refused(handovers) <= u64::MAX ==> noted_all(count, handovers) == count + refused(
            handovers,
        ),
        refused(handovers) == 0 ==> noted_all(count, handovers) == count,
    decreases handovers.len(),
{
    if handovers.len() > 0 {
        law_dropped_total(count, handovers.drop_last());
    }
}

/// Handovers that follow others add to the count that those left.
pub proof fn law_dropped_in_turn(count: u64, first: Seq<Handover>, second: Seq<Handover>)
    ensures
        noted_all(count, first + second) == noted_all(noted_all(count, first), second),
        refused(first + second) == refused(first) + refused(second),
    decreases second.len(),
{
    if second.len() == 0 {
        assert(first + second =~= first);
    } else {
        assert((first + second).drop_last() =~= first + second.drop_last());
        law_dropped_in_turn(count, first, second.drop_last());
    }
}

} // verus!
