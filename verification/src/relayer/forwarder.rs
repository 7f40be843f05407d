//! Forwarding packets to the validator that subscribed to them.

use crate::identity::Pubkey;
use crate::identity::base58;
use crate::identity::pubkey_text;
use crate::protos::packet::BankingPacket;
use crate::protos::packet::BankingPacketBatch;
use crate::protos::packet::PacketBatch;
use crate::protos::packet::PacketView;
use crate::protos::relayer::GetTpuConfigsResponse;
use crate::protos::relayer::Msg;
use crate::protos::relayer::MsgView;
use crate::protos::relayer::ResponseView;
use crate::protos::relayer::SubscribePacketsResponse;
use crate::protos::shared::Header;
use crate::protos::shared::Heartbeat;
use crate::protos::shared::Socket;
use crate::protos::shared::Timestamp;
use crate::relayer::batching::batch_count;
use crate::relayer::batching::forwarded_packets;
use crate::relayer::batching::in_batches;
use crate::relayer::batching::packet_batches_of;
use crate::relayer::subscription::Delivery;
use crate::relayer::subscription::Subscription;
use crate::relayer::subscription::deliveries;
use crate::relayer::subscription::lemma_deliveries_bound;
use crate::relayer::subscription::lemma_nothing_offered;
use crate::relayer::subscription::lemma_offer_one_more;
use crate::relayer::subscription::lemma_offered_in_turn;
use crate::relayer::subscription::new_queue;
use crate::relayer::subscription::newly_offered;
use crate::relayer::subscription::offered_between;
use crate::relayer::subscription::queue_capacity;
use crate::relayer::subscription::queue_joins;
use crate::relayer::subscription::record_delivery;
use crate::table::Key;
use crossbeam_channel::RecvError;
use tokio::sync::mpsc::Receiver;
use tokio::sync::mpsc::Sender;
use vstd::prelude::*;
use vstd::string::StringExecFns;

verus! {

/// `crossbeam_channel::RecvError`: a channel is empty and will stay so.
#[verifier::external_type_specification]
#[verifier::external_body]
pub struct ExRecvError(crossbeam_channel::RecvError);

/// `Display` of `crossbeam_channel::RecvError`, which is the same for all.
#[verifier::external_body]
fn recv_error_text(error: &RecvError) -> (r: String)
    ensures
        r@ == "receiving on an empty and disconnected channel"@,
{
    error.to_string()
}

/// `prost_types::Timestamp::from` of `std::time::SystemTime::now`. Nothing is
/// claimed of the time; the nanoseconds are within the second.
#[verifier::external_body]
fn timestamp_now() -> (r: Timestamp)
    ensures
        0 <= r.nanos < 1_000_000_000,
{
    let ts = prost_types::Timestamp::from(std::time::SystemTime::now());
    Timestamp { seconds: ts.seconds, nanos: ts.nanos }
}

/// An identity, so many times.
pub open spec fn repeated(pubkey: Pubkey, n: nat) -> Seq<Pubkey> {
    Seq::new(n, |i: int| pubkey)
}

/// The message that carries a batch.
pub open spec fn batch_message(ts: Timestamp, batch: Seq<PacketView>) -> ResponseView {
    ResponseView { header: Some(Header { ts: Some(ts) }), msg: Some(MsgView::Batch(batch)) }
}

/// The messages that carry what goes to the validator out of `batches`.
pub open spec fn batch_messages(ts: Timestamp, batches: Seq<Vec<BankingPacket>>) -> Seq<
    ResponseView,
> {
    in_batches(
        forwarded_packets(batches),
        ForwarderService::VALIDATOR_PACKET_BATCH_SIZE as nat,
    ).map_values(|batch: Seq<PacketView>| batch_message(ts, batch))
}

/// The message that is a sign of life.
pub open spec fn heartbeat_message(count: u64) -> ResponseView {
    ResponseView { header: None, msg: Some(MsgView::Heartbeat(Heartbeat { count })) }
}

/// `messages` were put to the subscriber, where there is one. `failed` names it
/// once for each message that found it gone, and `dropped` counts the messages
/// that found its queue full.
pub open spec fn put_to_subscriber(
    before: ForwarderService,
    after: ForwarderService,
    messages: Seq<ResponseView>,
    failed: Seq<Pubkey>,
    dropped: u64,
) -> bool {
    &&& after.public_ip == before.public_ip
    &&& after.tpu_quic_port == before.tpu_quic_port
    &&& after.tpu_fwd_quic_port == before.tpu_fwd_quic_port
    &&& match before.packet_subscriptions {
        None => {
            &&& after.packet_subscriptions is None
            &&& failed.len() == 0
            &&& dropped == 0
        },
        Some((pubkey, subscription)) => {
            &&& after.packet_subscriptions is Some
            &&& (after.packet_subscriptions->0).0 == pubkey
            &&& offered_between(subscription, (after.packet_subscriptions->0).1, messages)
            &&& failed == repeated(
                pubkey,
                deliveries(
                    newly_offered(subscription, (after.packet_subscriptions->0).1),
                    Delivery::Closed,
                ),
            )
            &&& dropped == deliveries(
                newly_offered(subscription, (after.packet_subscriptions->0).1),
                Delivery::Full,
            )
        },
    }
}

/// What is left of a subscription when the subscribers in `failed` are dropped.
pub open spec fn subscription_without(
    subscription: Option<(Pubkey, Subscription)>,
    failed: Seq<Pubkey>,
) -> Option<(Pubkey, Subscription)> {
    match subscription {
        Some((pubkey, kept)) => if failed.contains(pubkey) {
            None
        } else {
            Some((pubkey, kept))
        },
        None => None,
    }
}

/// The text of the error that a second validator gets.
pub open spec fn too_many_text(connected: Pubkey) -> Seq<char> {
    "Too many subscriptions, max is 1, currently connected: [\""@ + base58(connected@) + "\"]"@
}

/// The service that forwards packets.
pub struct ForwarderService {
    /// The address under which the machine is reached.
    pub public_ip: String,
    /// The port for packets over QUIC.
    pub tpu_quic_port: u16,
    /// The port for forwarded packets over QUIC.
    pub tpu_fwd_quic_port: u16,
    /// The one validator that is subscribed, and its queue.
    pub packet_subscriptions: Option<(Pubkey, Subscription)>,
}

/// What the loop that forwards packets woke up for.
pub enum ForwardEvent {
    /// Packets came in, or none will come any more.
    Packets(Result<BankingPacketBatch, RecvError>),
    /// A sign of life is due.
    HeartbeatTick,
    /// A report of dropped messages is due.
    DropLogTick,
}

/// What the loop that forwards packets keeps from one event to the next.
#[derive(Clone, Copy, Debug, PartialEq, Eq)]
pub struct ForwardState {
    /// Signs of life so far.
    pub heartbeat_count: u64,
    /// Messages that were dropped since the last report.
    pub dropped_sends: u64,
}

impl ForwardState {
    /// The state in which the loop starts.
    pub fn new() -> (r: Self)
        ensures
            r == (ForwardState { heartbeat_count: 0, dropped_sends: 0 }),
    {
        ForwardState { heartbeat_count: 0, dropped_sends: 0 }
    }
}

/// How many messages an event puts to a subscriber.
pub open spec fn messages_for(event: ForwardEvent) -> nat {
    match event {
        ForwardEvent::Packets(Ok(batches)) => batch_count(
            forwarded_packets(batches@).len(),
            ForwarderService::VALIDATOR_PACKET_BATCH_SIZE as nat,
        ),
        ForwardEvent::HeartbeatTick => 1,
        _ => 0,
    }
}

/// What came of a turn of the loop.
pub struct Turn {
    /// How many messages were dropped, where that is to be reported.
    pub report: Option<u64>,
    /// The subscriber that was dropped.
    pub taken: Option<(Pubkey, Subscription)>,
}

/// `messages` were put to the subscriber, where there is one. It is taken out if
/// and only if one of them found it gone; else it stays, with its queue. The
/// messages that found its queue full are counted.
pub open spec fn forwarded(
    before: ForwarderService,
    after: ForwarderService,
    taken: Option<(Pubkey, Subscription)>,
    dropped_before: u64,
    dropped_after: u64,
    messages: Seq<ResponseView>,
) -> bool {
    &&& after.public_ip == before.public_ip
    &&& after.tpu_quic_port == before.tpu_quic_port
    &&& after.tpu_fwd_quic_port == before.tpu_fwd_quic_port
    &&& match before.packet_subscriptions {
        None => {
            &&& after.packet_subscriptions is None
            &&& taken is None
            &&& dropped_after == dropped_before
        },
        Some((pubkey, subscription)) => {
            let served = if taken is Some {
                taken
            } else {
                after.packet_subscriptions
            };
            &&& served is Some
            &&& (served->0).0 == pubkey
            &&& offered_between(subscription, (served->0).1, messages)
            &&& taken is Some ==> after.packet_subscriptions is None
            &&& taken is Some <==> deliveries(
                newly_offered(subscription, (served->0).1),
                Delivery::Closed,
            ) > 0
            &&& dropped_after == dropped_before + deliveries(
                newly_offered(subscription, (served->0).1),
                Delivery::Full,
            )
        },
    }
}

/// What a turn of the loop is about.
pub enum TurnKind {
    /// Packets, in these messages.
    Packets(Seq<ResponseView>),
    /// A sign of life.
    Heartbeat,
    /// A report of dropped messages.
    Report,
}

/// What a turn puts to the subscriber, after so many signs of life.
pub open spec fn turn_messages(turn: TurnKind, count: u64) -> Seq<ResponseView> {
    match turn {
        TurnKind::Packets(messages) => messages,
        TurnKind::Heartbeat => seq![heartbeat_message(count)],
        TurnKind::Report => Seq::empty(),
    }
}

/// One turn of the loop, from a service and a state to those after it.
pub open spec fn loop_turn(
    before: ForwarderService,
    after: ForwarderService,
    state_before: ForwardState,
    state_after: ForwardState,
    turn: TurnKind,
    taken: Option<(Pubkey, Subscription)>,
) -> bool {
    match turn {
        TurnKind::Report => {
            &&& after == before
            &&& taken is None
            &&& state_after == (ForwardState { dropped_sends: 0, ..state_before })
        },
        _ => {
            &&& state_after.heartbeat_count == state_before.heartbeat_count + (if turn is Heartbeat {
                1int
            } else {
                0int
            })
            &&& forwarded(
                before,
                after,
                taken,
                state_before.dropped_sends,
                state_after.dropped_sends,
                turn_messages(turn, state_before.heartbeat_count),
            )
        },
    }
}

/// How many signs of life there were in some turns.
pub open spec fn heartbeats(turns: Seq<TurnKind>) -> nat
    decreases turns.len(),
{
    if turns.len() == 0 {
        0
    } else {
        heartbeats(turns.drop_last()) + (if turns.last() is Heartbeat {
            1nat
        } else {
            0nat
        })
    }
}

/// What some turns put to a subscriber that stays, the signs of life numbered on
/// from `count`.
pub open spec fn messages_of_turns(turns: Seq<TurnKind>, count: u64) -> Seq<ResponseView>
    decreases turns.len(),
{
    if turns.len() == 0 {
        Seq::empty()
    } else {
        let earlier = turns.drop_last();
        messages_of_turns(earlier, count) + turn_messages(
            turns.last(),
            (count + heartbeats(earlier)) as u64,
        )
    }
}

impl ForwarderService {
    /// Messages that may wait for a subscriber.
    pub const SUBSCRIBER_QUEUE_CAPACITY: usize = 50_000;

    /// Packets that travel in one message, at most.
    pub const VALIDATOR_PACKET_BATCH_SIZE: usize = 64;

    /// Milliseconds between two signs of life.
    pub const HEARTBEAT_INTERVAL_MS: u64 = 100;

    /// Seconds between two reports of dropped messages.
    pub const DROP_LOG_INTERVAL_SECS: u64 = 5;

    /// How far the port that is announced lies below the port for QUIC.
    pub const QUIC_PORT_OFFSET: u16 = 6;

    /// A service to which nobody is subscribed.
    pub fn new(public_ip: String, tpu_quic_port: u16, tpu_fwd_quic_port: u16) -> (r: Self)
        ensures
            r.public_ip == public_ip,
            r.tpu_quic_port == tpu_quic_port,
            r.tpu_fwd_quic_port == tpu_fwd_quic_port,
            r.packet_subscriptions is None,
    {
        ForwarderService {
            public_ip,
            tpu_quic_port,
            tpu_fwd_quic_port,
            packet_subscriptions: None,
        }
    }

    /// The validator that is subscribed.
    pub fn connected_validator(&self) -> (r: Option<Pubkey>)
        ensures
            r == (match self.packet_subscriptions {
                Some((pubkey, _)) => Some(pubkey),
                None => None,
            }),
    {
        match &self.packet_subscriptions {
            Some((pubkey, _)) => Some(*pubkey),
            None => None,
        }
    }

    /// Subscribes a validator. One that is subscribed already gets a new queue in
    /// place of the old; while another is subscribed, it is refused.
    pub fn add_subscription(
        &mut self,
        identity: Pubkey,
        sender: Sender<SubscribePacketsResponse>,
    ) -> (r: Result<(), String>)
        ensures
            final(self).public_ip == old(self).public_ip,
            final(self).tpu_quic_port == old(self).tpu_quic_port,
            final(self).tpu_fwd_quic_port == old(self).tpu_fwd_quic_port,
            match old(self).packet_subscriptions {
                Some((connected, _)) if connected != identity => {
                    &&& r is Err
                    &&& r->Err_0@ == too_many_text(connected)
                    &&& final(self).packet_subscriptions == old(self).packet_subscriptions
                },
                _ => {
                    &&& r is Ok
                    &&& final(self).packet_subscriptions is Some
                    &&& (final(self).packet_subscriptions->0).0 == identity
                    &&& (final(self).packet_subscriptions->0).1.sender() == sender
                    &&& (final(self).packet_subscriptions->0).1.offered().len() == 0
                },
            },
    {
        match &self.packet_subscriptions {
            Some((connected, _)) => {
                if !connected.same(&identity) {
                    let mut text = String::from_str(
                        "Too many subscriptions, max is 1, currently connected: [\"",
                    );
                    let name = pubkey_text(connected);
                    text.append(name.as_str());
                    text.append("\"]");
                    return Err(text);
                }
            },
            None => {},
        }
        self.packet_subscriptions = Some((identity, Subscription::new(sender)));
        Ok(())
    }

    /// Answers a request for packets. The validator gets the end of a new queue
    /// that hands the messages out.
    pub fn subscribe_packets(&mut self, identity: Option<Pubkey>) -> (r: Result<
        Receiver<SubscribePacketsResponse>,
        String,
    >)
        ensures
            final(self).public_ip == old(self).public_ip,
            final(self).tpu_quic_port == old(self).tpu_quic_port,
            final(self).tpu_fwd_quic_port == old(self).tpu_fwd_quic_port,
            match (identity, old(self).packet_subscriptions) {
                (None, _) => {
                    &&& r is Err
                    &&& r->Err_0@ == "internal error fetching public key"@
                    &&& final(self).packet_subscriptions == old(self).packet_subscriptions
                },
                (Some(pubkey), Some((connected, _))) if connected != pubkey => {
                    &&& r is Err
                    &&& r->Err_0@ == too_many_text(connected)
                    &&& final(self).packet_subscriptions == old(self).packet_subscriptions
                },
                (Some(pubkey), _) => {
                    &&& r is Ok
                    &&& final(self).packet_subscriptions is Some
                    &&& (final(self).packet_subscriptions->0).0 == pubkey
                    &&& queue_joins((final(self).packet_subscriptions->0).1.sender(), r->Ok_0)
                    &&& queue_capacity((final(self).packet_subscriptions->0).1.sender())
                        == Self::SUBSCRIBER_QUEUE_CAPACITY
                    &&& queue_capacity((final(self).packet_subscriptions->0).1.sender()) == 50_000
                    &&& (final(self).packet_subscriptions->0).1.offered().len() == 0
                },
            },
    {
        match identity {
            Some(pubkey) => {
                let (sender, receiver) = new_queue(Self::SUBSCRIBER_QUEUE_CAPACITY);
                match self.add_subscription(pubkey, sender) {
                    Ok(()) => Ok(receiver),
                    Err(text) => Err(text),
                }
            },
            None => Err(String::from_str("internal error fetching public key")),
        }
    }

    /// Puts a message to a subscriber, and notes what became of it.
    pub fn try_forward(
        subscription: &mut Subscription,
        pubkey: &Pubkey,
        response: SubscribePacketsResponse,
        failed_forwards: &mut Vec<Pubkey>,
        dropped: &mut u64,
    )
        requires
            *old(dropped) < u64::MAX,
        ensures
            final(subscription).sender() == old(subscription).sender(),
            final(subscription).offered().len() == old(subscription).offered().len() + 1,
            final(subscription).offered() == old(subscription).offered().push(
                (response@, final(subscription).offered().last().1),
            ),
            match final(subscription).offered().last().1 {
                Delivery::Sent => final(failed_forwards)@ == old(failed_forwards)@
                    && *final(dropped) == *old(dropped),
                Delivery::Full => final(failed_forwards)@ == old(failed_forwards)@
                    && *final(dropped) == *old(dropped) + 1,
                Delivery::Closed => final(failed_forwards)@ == old(failed_forwards)@.push(*pubkey)
                    && *final(dropped) == *old(dropped),
            },
    {
        let outcome = subscription.offer(response);
        record_delivery(outcome, pubkey, failed_forwards, dropped);
    }

    /// Forwards packets to the subscriber, where there is one. Returns it once
    /// for each message that found it gone, and how many messages found its queue
    /// full.
    pub fn forward_packets(
        &mut self,
        maybe_packet_batches: Result<BankingPacketBatch, RecvError>,
    ) -> (r: Result<(Vec<Pubkey>, u64), String>)
        ensures
            match maybe_packet_batches {
                Ok(batches) => {
                    &&& r is Ok
                    &&& exists|ts: Timestamp|
                        0 <= ts.nanos < 1_000_000_000 && put_to_subscriber(
                            *old(self),
                            *final(self),
                            #[trigger] batch_messages(ts, batches@),
                            (r->Ok_0).0@,
                            (r->Ok_0).1,
                        )
                },
                Err(_) => {
                    &&& r is Err
                    &&& r->Err_0@ == "receiving on an empty and disconnected channel"@
                    &&& *final(self) == *old(self)
                },
            },
    {
        match maybe_packet_batches {
            Ok(batches) => {
                let ts = timestamp_now();
                Ok(self.forward_packets_at(batches, ts))
            },
            Err(error) => Err(recv_error_text(&error)),
        }
    }

    /// Forwards packets to the subscriber, where there is one, in messages that
    /// are marked with `ts`.
    pub fn forward_packets_at(&mut self, packet_batches: BankingPacketBatch, ts: Timestamp) -> (r: (
        Vec<Pubkey>,
        u64,
    ))
        ensures
            put_to_subscriber(
                *old(self),
                *final(self),
                batch_messages(ts, packet_batches@),
                r.0@,
                r.1,
            ),
    {
        let batches = packet_batches_of(
            &packet_batches,
            Self::VALIDATOR_PACKET_BATCH_SIZE,
        );
        let mut failed_forwards: Vec<Pubkey> = Vec::new();
        let mut dropped: u64 = 0;
        match self.packet_subscriptions.take() {
            None => (failed_forwards, dropped),
            Some((pubkey, mut subscription)) => {
                let ghost before = subscription;
                let ghost messages = batch_messages(ts, packet_batches@);
                let ghost cut = batches@.map_values(|b: PacketBatch| b@);
                proof {
                    lemma_nothing_offered(before);
                    assert(messages.take(0) =~= Seq::<ResponseView>::empty());
                    assert(failed_forwards@ =~= repeated(pubkey, 0));
                    assert(messages.len() == batches@.len());
                }
                let n: usize = batches.len();
                for batch in it: batches.into_iter()
                    invariant
                        it.seq() == batches@,
                        n == batches@.len(),
                        cut == batches@.map_values(|b: PacketBatch| b@),
                        messages == cut.map_values(|b: Seq<PacketView>| batch_message(ts, b)),
                        messages.len() == batches@.len(),
                        offered_between(before, subscription, messages.take(it.index() as int)),
                        failed_forwards@ == repeated(
                            pubkey,
                            deliveries(newly_offered(before, subscription), Delivery::Closed),
                        ),
                        dropped == deliveries(newly_offered(before, subscription), Delivery::Full),
                {
                    let ghost middle = subscription;
                    let ghost k = it.index() as int;
                    let ghost failed_before = failed_forwards@;
                    proof {
                        lemma_deliveries_bound(newly_offered(before, middle), Delivery::Full);
                        assert(newly_offered(before, middle).len() == messages.take(k).len());
                        assert(messages[k] == batch_message(ts, batch@));
                    }
                    let response = SubscribePacketsResponse {
                        header: Some(Header { ts: Some(ts) }),
                        msg: Some(Msg::Batch(batch)),
                    };
                    Self::try_forward(
                        &mut subscription,
                        &pubkey,
                        response,
                        &mut failed_forwards,
                        &mut dropped,
                    );
                    proof {
                        let outcome = subscription.offered().last().1;
                        lemma_offer_one_more(
                            before,
                            middle,
                            subscription,
                            messages.take(k),
                            messages[k],
                            outcome,
                        );
                        assert(messages.take(k + 1) =~= messages.take(k).push(messages[k]));
                        let gone = deliveries(newly_offered(before, middle), Delivery::Closed);
                        assert(repeated(pubkey, gone + 1) =~= repeated(pubkey, gone).push(
                            pubkey,
                        ));
                    }
                }
                assert(messages.take(messages.len() as int) =~= messages);
                self.packet_subscriptions = Some((pubkey, subscription));
                (failed_forwards, dropped)
            },
        }
    }

    /// Drops the subscriber, where it is among those that are gone, and hands it
    /// back.
    pub fn drop_connections(&mut self, failed_forwards: Vec<Pubkey>) -> (r: Option<
        (Pubkey, Subscription),
    >)
        ensures
            *final(self) == (ForwarderService {
                packet_subscriptions: subscription_without(
                    old(self).packet_subscriptions,
                    failed_forwards@,
                ),
                ..*old(self)
            }),
            r == (if final(self).packet_subscriptions is None {
                old(self).packet_subscriptions
            } else {
                None
            }),
    {
        let gone = match &self.packet_subscriptions {
            Some((pubkey, _)) => {
                let n: usize = failed_forwards.len();
                let mut i: usize = 0;
                let mut found = false;
                while i < n && !found
                    invariant
                        i <= n,
                        n == failed_forwards@.len(),
                        found ==> failed_forwards@.contains(*pubkey),
                        !found ==> forall|j: int| 0 <= j < i ==> failed_forwards@[j] != *pubkey,
                    decreases n - i,
                {
                    if failed_forwards[i].same(pubkey) {
                        assert(failed_forwards@[i as int] == *pubkey);
                        found = true;
                    }
                    i += 1;
                }
                found
            },
            None => false,
        };
        if gone {
            self.packet_subscriptions.take()
        } else {
            None
        }
    }

    /// Puts a sign of life to the subscriber, where there is one, and counts it.
    pub fn handle_heartbeat(&mut self, heartbeat_count: &mut u64) -> (r: Result<
        (Vec<Pubkey>, u64),
        String,
    >)
        requires
            *old(heartbeat_count) < u64::MAX,
        ensures
            *final(heartbeat_count) == *old(heartbeat_count) + 1,
            r is Ok,
            put_to_subscriber(
                *old(self),
                *final(self),
                seq![heartbeat_message(*old(heartbeat_count))],
                (r->Ok_0).0@,
                (r->Ok_0).1,
            ),
    {
        let mut failed_pubkey_updates: Vec<Pubkey> = Vec::new();
        let mut dropped: u64 = 0;
        match self.packet_subscriptions.take() {
            None => {},
            Some((pubkey, mut subscription)) => {
                let ghost before = subscription;
                let message = SubscribePacketsResponse {
                    header: None,
                    msg: Some(Msg::Heartbeat(Heartbeat { count: *heartbeat_count })),
                };
                Self::try_forward(
                    &mut subscription,
                    &pubkey,
                    message,
                    &mut failed_pubkey_updates,
                    &mut dropped,
                );
                proof {
                    let outcome = subscription.offered().last().1;
                    let view = heartbeat_message(*heartbeat_count);
                    lemma_nothing_offered(before);
                    lemma_offer_one_more(
                        before,
                        before,
                        subscription,
                        Seq::empty(),
                        view,
                        outcome,
                    );
                    assert(Seq::<ResponseView>::empty().push(view) =~= seq![view]);
                    assert(failed_pubkey_updates@ =~= repeated(
                        pubkey,
                        deliveries(newly_offered(before, subscription), Delivery::Closed),
                    ));
                }
                self.packet_subscriptions = Some((pubkey, subscription));
            },
        }
        *heartbeat_count = *heartbeat_count + 1;
        Ok((failed_pubkey_updates, dropped))
    }

    /// One turn of the loop that forwards packets.
    pub fn run_event_loop(&mut self, state: &mut ForwardState, event: ForwardEvent) -> (r: Result<
        Turn,
        String,
    >)
        requires
            old(state).heartbeat_count < u64::MAX,
            old(state).dropped_sends + messages_for(event) <= u64::MAX,
        ensures
            match event {
                ForwardEvent::Packets(Ok(batches)) => {
                    &&& r is Ok
                    &&& r->Ok_0.report is None
                    &&& exists|ts: Timestamp|
                        0 <= ts.nanos < 1_000_000_000 && loop_turn(
                            *old(self),
                            *final(self),
                            *old(state),
                            *final(state),
                            TurnKind::Packets(#[trigger] batch_messages(ts, batches@)),
                            r->Ok_0.taken,
                        )
                },
                ForwardEvent::Packets(Err(_)) => {
                    &&& r is Err
                    &&& r->Err_0@ == "receiving on an empty and disconnected channel"@
                    &&& *final(self) == *old(self)
                    &&& *final(state) == *old(state)
                },
                ForwardEvent::HeartbeatTick => {
                    &&& r is Ok
                    &&& r->Ok_0.report is None
                    &&& loop_turn(
                        *old(self),
                        *final(self),
                        *old(state),
                        *final(state),
                        TurnKind::Heartbeat,
                        r->Ok_0.taken,
                    )
                },
                ForwardEvent::DropLogTick => {
                    &&& r is Ok
                    &&& r->Ok_0.report == (if old(state).dropped_sends > 0 {
                        Some(old(state).dropped_sends)
                    } else {
                        None
                    })
                    &&& loop_turn(
                        *old(self),
                        *final(self),
                        *old(state),
                        *final(state),
                        TurnKind::Report,
                        r->Ok_0.taken,
                    )
                },
            },
    {
        match event {
            ForwardEvent::Packets(maybe_packet_batches) => {
                let ghost before = *self;
                match self.forward_packets(maybe_packet_batches) {
                    Ok((failed_forwards, dropped)) => {
                        let ghost middle = *self;
                        let ghost failed = failed_forwards@;
                        let ghost ts = choose|ts: Timestamp|
                            0 <= ts.nanos < 1_000_000_000 && put_to_subscriber(
                                before,
                                middle,
                                #[trigger] batch_messages(ts, maybe_packet_batches->Ok_0@),
                                failed,
                                dropped,
                            );
                        let ghost messages = batch_messages(ts, maybe_packet_batches->Ok_0@);
                        proof {
                            lemma_dropped_bound(before, middle, messages, failed, dropped);
                        }
                        state.dropped_sends = state.dropped_sends + dropped;
                        let taken = self.drop_connections(failed_forwards);
                        proof {
                            law_gone_subscriber_is_dropped(
                                before,
                                middle,
                                messages,
                                failed,
                                dropped,
                            );
                        }
                        Ok(Turn { report: None, taken })
                    },
                    Err(text) => Err(text),
                }
            },
            ForwardEvent::HeartbeatTick => {
                let ghost before = *self;
                let ghost messages = seq![heartbeat_message(state.heartbeat_count)];
                match self.handle_heartbeat(&mut state.heartbeat_count) {
                    Ok((failed_forwards, dropped)) => {
                        let ghost middle = *self;
                        let ghost failed = failed_forwards@;
                        proof {
                            lemma_dropped_bound(before, middle, messages, failed, dropped);
                        }
                        state.dropped_sends = state.dropped_sends + dropped;
                        let taken = self.drop_connections(failed_forwards);
                        proof {
                            law_gone_subscriber_is_dropped(
                                before,
                                middle,
                                messages,
                                failed,
                                dropped,
                            );
                        }
                        Ok(Turn { report: None, taken })
                    },
                    Err(text) => Err(text),
                }
            },
            ForwardEvent::DropLogTick => {
                let dropped: u64 = state.dropped_sends;
                state.dropped_sends = 0;
                let report = if dropped > 0 {
                    Some(dropped)
                } else {
                    None
                };
                Ok(Turn { report, taken: None })
            },
        }
    }

    /// Where the validator is to receive transactions: the ports for QUIC lie at
    /// a fixed distance above those that are announced.
    pub fn get_tpu_configs(&self) -> (r: GetTpuConfigsResponse)
        requires
            self.tpu_quic_port >= Self::QUIC_PORT_OFFSET,
            self.tpu_fwd_quic_port >= Self::QUIC_PORT_OFFSET,
        ensures
            r.tpu is Some,
            r.tpu->0.ip@ == self.public_ip@,
            r.tpu->0.port == self.tpu_quic_port - Self::QUIC_PORT_OFFSET,
            r.tpu_forward is Some,
            r.tpu_forward->0.ip@ == self.public_ip@,
            r.tpu_forward->0.port == self.tpu_fwd_quic_port - Self::QUIC_PORT_OFFSET,
            r.tpu->0.port + 6 == self.tpu_quic_port,
            r.tpu_forward->0.port + 6 == self.tpu_fwd_quic_port,
    {
        GetTpuConfigsResponse {
            tpu: Some(
                Socket {
                    ip: self.public_ip.clone(),
                    port: (self.tpu_quic_port - Self::QUIC_PORT_OFFSET) as i64,
                },
            ),
            tpu_forward: Some(
                Socket {
                    ip: self.public_ip.clone(),
                    port: (self.tpu_fwd_quic_port - Self::QUIC_PORT_OFFSET) as i64,
                },
            ),
        }
    }
}

proof fn lemma_dropped_bound(
    before: ForwarderService,
    after: ForwarderService,
    messages: Seq<ResponseView>,
    failed: Seq<Pubkey>,
    dropped: u64,
)
    requires
        put_to_subscriber(before, after, messages, failed, dropped),
    ensures
        dropped <= messages.len(),
{
    if before.packet_subscriptions is Some {
        let log = newly_offered(
            (before.packet_subscriptions->0).1,
            (after.packet_subscriptions->0).1,
        );
        lemma_deliveries_bound(log, Delivery::Full);
        assert(log.map_values(|e: (ResponseView, Delivery)| e.0).len() == log.len());
    }
}

/// A subscriber that a message found gone is dropped, and no other is.
pub proof fn law_gone_subscriber_is_dropped(
    before: ForwarderService,
    after: ForwarderService,
    messages: Seq<ResponseView>,
    failed: Seq<Pubkey>,
    dropped: u64,
)
    requires
        put_to_subscriber(before, after, messages, failed, dropped),
    ensures
        before.packet_subscriptions is Some ==> (subscription_without(
            after.packet_subscriptions,
            failed,
        ) is None <==> deliveries(
            newly_offered(
                (before.packet_subscriptions->0).1,
                (after.packet_subscriptions->0).1,
            ),
            Delivery::Closed,
        ) > 0),
{
    if failed.len() > 0 {
        assert(failed[0] == (before.packet_subscriptions->0).0);
    }
}

/// A subscriber that no message finds gone stays subscribed, turn after turn. It
/// is put the packets of every turn, and one sign of life for each turn that is
/// about one, numbered without a gap from the count that the loop had.
pub proof fn law_heartbeats_count_up(
    services: Seq<ForwarderService>,
    states: Seq<ForwardState>,
    turns: Seq<TurnKind>,
)
    requires
        services.len() == turns.len() + 1,
        states.len() == turns.len() + 1,
        services[0].packet_subscriptions is Some,
        forall|i: int|
            0 <= i < turns.len() ==> loop_turn(
                services[i],
                services[i + 1],
                states[i],
                states[i + 1],
                #[trigger] turns[i],
                None,
            ),
    ensures
        states.last().heartbeat_count == states[0].heartbeat_count + heartbeats(turns),
        services.last().packet_subscriptions is Some,
        (services.last().packet_subscriptions->0).0 == (services[0].packet_subscriptions->0).0,
        offered_between(
            (services[0].packet_subscriptions->0).1,
            (services.last().packet_subscriptions->0).1,
            messages_of_turns(turns, states[0].heartbeat_count),
        ),
    decreases turns.len(),
{
    let first = (services[0].packet_subscriptions->0).1;
    let count = states[0].heartbeat_count;
    if turns.len() == 0 {
        lemma_nothing_offered(first);
    } else {
        let n = turns.len() - 1;
        let earlier = turns.drop_last();
        assert forall|i: int| 0 <= i < earlier.len() implies loop_turn(
            services.drop_last()[i],
            services.drop_last()[i + 1],
            states.drop_last()[i],
            states.drop_last()[i + 1],
            #[trigger] earlier[i],
            None,
        ) by {
            assert(earlier[i] == turns[i]);
        }
        law_heartbeats_count_up(services.drop_last(), states.drop_last(), earlier);
        let middle = (services[n].packet_subscriptions->0).1;
        let last = (services[n + 1].packet_subscriptions->0).1;
        assert(loop_turn(services[n], services[n + 1], states[n], states[n + 1], turns[n], None));
        if turns[n] is Report {
            lemma_nothing_offered(middle);
        }
        lemma_offered_in_turn(
            first,
            middle,
            last,
            messages_of_turns(earlier, count),
            turn_messages(turns[n], states[n].heartbeat_count),
        );
    }
}

} // verus!
