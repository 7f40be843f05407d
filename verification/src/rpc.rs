//! The feed of slots from an RPC node.

use crate::clock::NANOS_PER_MILLI;
use crate::clock::NANOS_PER_SEC;
use vstd::prelude::*;

verus! {

/// What happened to the feed.
#[derive(Clone, Copy, Debug, PartialEq, Eq)]
pub enum SlotEvent {
    /// The feed was started.
    Started,
    /// A subscription stands.
    Subscribed,
    /// No subscription came about.
    SubscribeFailed,
    /// A slot came in.
    Slot(u64),
    /// No slot came in time.
    Timeout,
    /// The subscription ended.
    Disconnected,
    /// A pause is over.
    Slept,
}

/// What the feed does next.
#[derive(Clone, Copy, Debug, PartialEq, Eq)]
pub enum SlotAction {
    /// Ask for a subscription.
    Subscribe,
    /// Wait for a slot, so many nanoseconds at most.
    Receive(u64),
    /// Pause for so many nanoseconds.
    Sleep(u64),
    /// The feed is over.
    Stop,
}

/// One step of the feed: first a slot goes out, where one came in.
#[derive(Clone, Copy, Debug, PartialEq, Eq)]
pub struct SlotStep {
    pub publish: Option<u64>,
    pub action: SlotAction,
}

/// The slot that goes out on an event.
pub open spec fn published(event: SlotEvent) -> Option<u64> {
    match event {
        SlotEvent::Slot(slot) => Some(slot),
        _ => None,
    }
}

/// What is done after an event. Whatever ends a subscription is followed by a
/// pause, and the pause by a new subscription.
pub open spec fn slot_action(event: SlotEvent, exit: bool) -> SlotAction {
    if exit {
        SlotAction::Stop
    } else {
        match event {
            SlotEvent::Started | SlotEvent::Slept => SlotAction::Subscribe,
            SlotEvent::Subscribed | SlotEvent::Slot(_) => SlotAction::Receive(Rpc::SLOT_TIMEOUT),
            SlotEvent::SubscribeFailed | SlotEvent::Timeout | SlotEvent::Disconnected =>
            SlotAction::Sleep(Rpc::RETRY_PAUSE),
        }
    }
}

/// The link to an RPC node.
pub struct Rpc;

impl Rpc {
    /// Slots that a slow reader may be behind.
    pub const SLOT_CHANNEL_CAPACITY: usize = 128;

    /// How long to wait for a slot, in nanoseconds.
    pub const SLOT_TIMEOUT: u64 = 1000 * NANOS_PER_MILLI;

    /// How long to wait before a new subscription, in nanoseconds.
    pub const RETRY_PAUSE: u64 = 1 * NANOS_PER_SEC;

    /// One step of the feed. `exit` is whether the program shuts down.
    pub fn start_slot_sender(event: SlotEvent, exit: bool) -> (r: SlotStep)
        ensures
            r.publish == published(event),
            r.action == slot_action(event, exit),
    {
        let publish = match event {
            SlotEvent::Slot(slot) => Some(slot),
            _ => None,
        };
        let action = if exit {
            SlotAction::Stop
        } else {
            match event {
                SlotEvent::Started | SlotEvent::Slept => SlotAction::Subscribe,
                SlotEvent::Subscribed | SlotEvent::Slot(_) => SlotAction::Receive(
                    Self::SLOT_TIMEOUT,
                ),
                SlotEvent::SubscribeFailed | SlotEvent::Timeout | SlotEvent::Disconnected =>
                SlotAction::Sleep(Self::RETRY_PAUSE),
            }
        };
        SlotStep { publish, action }
    }
}

/// A shutdown ends the feed at whatever comes next, and a slot that came in
/// still goes out.
pub proof fn law_exit_stops_the_feed(event: SlotEvent)
    ensures
        slot_action(event, true) is Stop,
        event matches SlotEvent::Slot(slot) ==> published(event) == Some(slot),
{
}

} // verus!
