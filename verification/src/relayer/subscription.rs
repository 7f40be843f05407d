//! The queue of a subscriber.

use crate::identity::Pubkey;
use crate::protos::relayer::ResponseView;
use crate::protos::relayer::SubscribePacketsResponse;
use tokio::sync::mpsc::Receiver;
use tokio::sync::mpsc::Sender;
use tokio::sync::mpsc::error::TrySendError;
use vstd::prelude::*;

verus! {

/// `tokio::sync::mpsc::Sender`, the end of a bounded queue that takes messages.
#[verifier::external_type_specification]
#[verifier::external_body]
#[verifier::reject_recursive_types(T)]
pub struct ExSender<T>(tokio::sync::mpsc::Sender<T>);

/// `tokio::sync::mpsc::Receiver`, the end of a bounded queue that hands messages
/// out.
#[verifier::external_type_specification]
#[verifier::external_body]
#[verifier::reject_recursive_types(T)]
pub struct ExReceiver<T>(tokio::sync::mpsc::Receiver<T>);

/// How many messages the queue behind a sender can hold.
pub uninterp spec fn queue_capacity(sender: Sender<SubscribePacketsResponse>) -> nat;

/// What a sender takes, a receiver hands out.
pub uninterp spec fn queue_joins(
    sender: Sender<SubscribePacketsResponse>,
    receiver: Receiver<SubscribePacketsResponse>,
) -> bool;

/// `tokio::sync::mpsc::channel`: the two ends of a new queue that can hold
/// `capacity` messages.
#[verifier::external_body]
pub(crate) fn new_queue(capacity: usize) -> (r: (
    Sender<SubscribePacketsResponse>,
    Receiver<SubscribePacketsResponse>,
))
    requires
        0 < capacity <= 0x1fff_ffff,
    ensures
        queue_capacity(r.0) == capacity,
        queue_joins(r.0, r.1),
{
    tokio::sync::mpsc::channel(capacity)
}

/// What became of a message to a subscriber.
#[derive(Clone, Copy, Debug, PartialEq, Eq, Structural)]
pub enum Delivery {
    /// The queue took it.
    Sent,
    /// The queue was full.
    Full,
    /// The subscriber is gone.
    Closed,
}

/// The queue of a subscriber, and what was put to it so far.
pub struct Subscription {
    sender: Sender<SubscribePacketsResponse>,
    log: Ghost<Seq<(ResponseView, Delivery)>>,
}

impl Subscription {
    /// The sender of the queue.
    pub closed spec fn sender(&self) -> Sender<SubscribePacketsResponse> {
        self.sender
    }

    /// The messages that were put to the queue, oldest first, and what became of
    /// each.
    pub closed spec fn offered(&self) -> Seq<(ResponseView, Delivery)> {
        self.log@
    }

    /// A queue to which nothing was put yet.
    pub fn new(sender: Sender<SubscribePacketsResponse>) -> (r: Self)
        ensures
            r.sender() == sender,
            r.offered() == Seq::<(ResponseView, Delivery)>::empty(),
    {
        Subscription { sender, log: Ghost(Seq::empty()) }
    }

    /// `tokio::sync::mpsc::Sender::try_send`: puts a message to the queue, without
    /// waiting. The message and what became of it are the latest that was put to
    /// the queue. Nothing is claimed of the outcome, which rests with the reader of
    /// the queue.
    #[verifier::external_body]
    pub(crate) fn offer(&mut self, message: SubscribePacketsResponse) -> (r: Delivery)
        ensures
            final(self).sender() == old(self).sender(),
            final(self).offered() == old(self).offered().push((message@, r)),
    {
        match self.sender.try_send(message) {
            Ok(()) => Delivery::Sent,
            Err(TrySendError::Full(_)) => Delivery::Full,
            Err(TrySendError::Closed(_)) => Delivery::Closed,
        }
    }
}

/// How many messages came to `outcome`.
pub open spec fn deliveries(log: Seq<(ResponseView, Delivery)>, outcome: Delivery) -> nat
    decreases log.len(),
{
    if log.len() == 0 {
        0
    } else {
        deliveries(log.drop_last(), outcome) + (if log.last().1 == outcome {
            1nat
        } else {
            0nat
        })
    }
}

/// What was put to a queue between two states of it.
pub open spec fn newly_offered(before: Subscription, after: Subscription) -> Seq<
    (ResponseView, Delivery),
> {
    after.offered().skip(before.offered().len() as int)
}

/// Between two states of a queue `messages` were put to it, in order, and nothing
/// else.
pub open spec fn offered_between(
    before: Subscription,
    after: Subscription,
    messages: Seq<ResponseView>,
) -> bool {
    &&& after.sender() == before.sender()
    &&& before.offered().len() <= after.offered().len()
    &&& after.offered().take(before.offered().len() as int) == before.offered()
    &&& newly_offered(before, after).map_values(|e: (ResponseView, Delivery)| e.0) == messages
}

pub proof fn lemma_offer_one_more(
    before: Subscription,
    middle: Subscription,
    after: Subscription,
    messages: Seq<ResponseView>,
    message: ResponseView,
    outcome: Delivery,
)
    requires
        offered_between(before, middle, messages),
        after.sender() == middle.sender(),
        after.offered() == middle.offered().push((message, outcome)),
    ensures
        offered_between(before, after, messages.push(message)),
        newly_offered(before, after) == newly_offered(before, middle).push((message, outcome)),
        deliveries(newly_offered(before, after), Delivery::Closed) == deliveries(
            newly_offered(before, middle),
            Delivery::Closed,
        ) + (if outcome is Closed {
            1nat
        } else {
            0nat
        }),
        deliveries(newly_offered(before, after), Delivery::Full) == deliveries(
            newly_offered(before, middle),
            Delivery::Full,
        ) + (if outcome is Full {
            1nat
        } else {
            0nat
        }),
{
    let n = before.offered().len() as int;
    let first = newly_offered(before, middle);
    let second = newly_offered(before, after);
    assert(second =~= first.push((message, outcome)));
    assert(second.drop_last() =~= first);
    assert(after.offered().take(n) =~= middle.offered().take(n));
    let text = |e: (ResponseView, Delivery)| e.0;
    assert(second.map_values(text) =~= first.map_values(text).push(message));
}

pub proof fn lemma_nothing_offered(subscription: Subscription)
    ensures
        offered_between(subscription, subscription, Seq::empty()),
        newly_offered(subscription, subscription) == Seq::<(ResponseView, Delivery)>::empty(),
{
    let n = subscription.offered().len() as int;
    assert(subscription.offered().take(n) =~= subscription.offered());
    assert(newly_offered(subscription, subscription) =~= Seq::<(ResponseView, Delivery)>::empty());
    assert(newly_offered(subscription, subscription).map_values(
        |e: (ResponseView, Delivery)| e.0,
    ) =~= Seq::<ResponseView>::empty());
}

pub proof fn lemma_offered_in_turn(
    first: Subscription,
    second: Subscription,
    third: Subscription,
    earlier: Seq<ResponseView>,
    later: Seq<ResponseView>,
)
    requires
        offered_between(first, second, earlier),
        offered_between(second, third, later),
    ensures
        offered_between(first, third, earlier + later),
{
    let n = first.offered().len() as int;
    let m = second.offered().len() as int;
    let text = |e: (ResponseView, Delivery)| e.0;
    assert(third.offered().take(n) =~= third.offered().take(m).take(n));
    assert(newly_offered(first, third) =~= newly_offered(first, second) + newly_offered(
        second,
        third,
    )) by {
        assert forall|i: int| n <= i < m implies #[trigger] third.offered()[i]
            == second.offered()[i] by {
            assert(third.offered().take(m)[i] == second.offered()[i]);
        }
    }
    assert(newly_offered(first, third).map_values(text) =~= newly_offered(
        first,
        second,
    ).map_values(text) + newly_offered(second, third).map_values(text));
}

pub proof fn lemma_deliveries_bound(log: Seq<(ResponseView, Delivery)>, outcome: Delivery)
    ensures
        deliveries(log, outcome) <= log.len(),
    decreases log.len(),
{
    if log.len() > 0 {
        lemma_deliveries_bound(log.drop_last(), outcome);
    }
}

/// Notes what became of a message to a subscriber: one that found its queue full
/// is counted, one that found it gone names it.
pub fn record_delivery(
    outcome: Delivery,
    pubkey: &Pubkey,
    failed_forwards: &mut Vec<Pubkey>,
    dropped: &mut u64,
)
    requires
        *old(dropped) < u64::MAX,
    ensures
        match outcome {
            Delivery::Sent => final(failed_forwards)@ == old(failed_forwards)@ && *final(dropped)
                == *old(dropped),
            Delivery::Full => final(failed_forwards)@ == old(failed_forwards)@ && *final(dropped)
                == *old(dropped) + 1,
            Delivery::Closed => final(failed_forwards)@ == old(failed_forwards)@.push(*pubkey)
                && *final(dropped) == *old(dropped),
        },
{
    match outcome {
        Delivery::Sent => {},
        Delivery::Full => {
            *dropped = *dropped + 1;
        },
        Delivery::Closed => {
            failed_forwards.push(*pubkey);
        },
    }
}

/// Each message to a subscriber is taken, dropped, or finds it gone.
pub proof fn law_every_message_is_accounted_for(log: Seq<(ResponseView, Delivery)>)
    ensures
        deliveries(log, Delivery::Sent) + deliveries(log, Delivery::Full) + deliveries(
            log,
            Delivery::Closed,
        ) == log.len(),
    decreases log.len(),
{
    if log.len() > 0 {
        law_every_message_is_accounted_for(log.drop_last());
    }
}

} // verus!
