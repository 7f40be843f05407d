//! What a validator gets.

use crate::identity::base58;
use crate::identity::Pubkey;
use crate::protos::packet::BankingPacket;
use crate::protos::packet::Packet;
use crate::protos::packet::PacketBatch;
use crate::protos::packet::PacketView;
use crate::protos::relayer::Msg;
use crate::protos::relayer::MsgView;
use crate::protos::relayer::ResponseView;
use crate::protos::relayer::SubscribePacketsResponse;
use crate::protos::shared::Header;
use crate::protos::shared::Heartbeat;
use crate::protos::shared::Timestamp;
use crate::proxy::packets::banking_payloads;
use crate::relayer::batching::forwarded_of_batch;
use crate::relayer::batching::forwarded_packets;
use crate::relayer::batching::in_batches;
use crate::relayer::batching::law_all_that_could_be_forwarded_is_mirrored;
use crate::relayer::forwarder::batch_messages;
use crate::relayer::forwarder::loop_turn;
use crate::relayer::forwarder::put_to_subscriber;
use crate::relayer::forwarder::subscription_without;
use crate::relayer::forwarder::too_many_text;
use crate::relayer::forwarder::ForwardState;
use crate::relayer::forwarder::ForwarderService;
use crate::relayer::forwarder::TurnKind;
use crate::relayer::subscription::deliveries;
use crate::relayer::subscription::newly_offered;
use crate::relayer::subscription::offered_between;
use crate::relayer::subscription::Delivery;
use crate::relayer::subscription::Subscription;
use vstd::prelude::*;

verus! {

/// All packets of some batches, in order.
pub open spec fn all_packets(batches: Seq<Vec<BankingPacket>>) -> Seq<BankingPacket>
    decreases batches.len(),
{
    if batches.len() == 0 {
        Seq::empty()
    } else {
        all_packets(batches.drop_last()) + batches.last()@
    }
}

/// Tells the packets that are not to be ignored and whose bytes can be read.
pub open spec fn live() -> spec_fn(BankingPacket) -> bool {
    |p: BankingPacket| !p.discard && p.data is Some
}

/// A packet with the bytes and the description that it came with.
pub open spec fn as_it_came() -> spec_fn(BankingPacket) -> PacketView {
    |p: BankingPacket| PacketView { data: p.data->0@, meta: Some(p.meta) }
}

proof fn lemma_live_of_a_batch(packets: Seq<BankingPacket>)
    ensures
        forwarded_of_batch(packets) == packets.filter(live()).map_values(as_it_came()),
    decreases packets.len(),
{
    reveal(Seq::filter);
    if packets.len() == 0 {
        assert(forwarded_of_batch(packets) =~= packets.filter(live()).map_values(as_it_came()));
    } else {
        let before = packets.drop_last();
        lemma_live_of_a_batch(before);
        if live()(packets.last()) {
            assert(before.filter(live()).push(packets.last()).map_values(as_it_came())
                =~= before.filter(live()).map_values(as_it_came()).push(
                as_it_came()(packets.last()),
            ));
        }
    }
}

/// A packet goes to the validator if and only if it is not to be ignored and its
/// bytes can be read. All such packets go, in order, each with the bytes and the
/// description that it came with; and the same bytes are mirrored.
pub proof fn law_every_live_packet_goes(batches: Seq<Vec<BankingPacket>>)
    ensures
        forwarded_packets(batches) == all_packets(batches).filter(live()).map_values(as_it_came()),
        banking_payloads(batches) == all_packets(batches).filter(live()).map_values(
            |p: BankingPacket| p.data->0@,
        ),
    decreases batches.len(),
{
    lemma_live_packets(batches);
    law_all_that_could_be_forwarded_is_mirrored(batches);
    assert(forwarded_packets(batches).map_values(|p: PacketView| p.data) =~= all_packets(
        batches,
    ).filter(live()).map_values(|p: BankingPacket| p.data->0@));
}

proof fn lemma_live_packets(batches: Seq<Vec<BankingPacket>>)
    ensures
        forwarded_packets(batches) == all_packets(batches).filter(live()).map_values(as_it_came()),
    decreases batches.len(),
{
    if batches.len() == 0 {
        reveal(Seq::filter);
        assert(forwarded_packets(batches) =~= all_packets(batches).filter(live()).map_values(
            as_it_came(),
        ));
    } else {
        let before = batches.drop_last();
        let last = batches.last()@;
        lemma_live_packets(before);
        lemma_live_of_a_batch(last);
        Seq::filter_distributes_over_add(all_packets(before), last, live());
        assert((all_packets(before).filter(live()) + last.filter(live())).map_values(as_it_came())
            =~= all_packets(before).filter(live()).map_values(as_it_came()) + last.filter(
            live(),
        ).map_values(as_it_came()));
    }
}

/// Where no packet is to be ignored and all can be read, none is left out: the
/// validator gets as many as came in, each in its place.
pub proof fn law_no_live_packet_is_left_out(batches: Seq<Vec<BankingPacket>>)
    requires
        forall|i: int|
            0 <= i < all_packets(batches).len() ==> !(#[trigger] all_packets(batches)[i]).discard
                && all_packets(batches)[i].data is Some,
    ensures
        forwarded_packets(batches).len() == all_packets(batches).len(),
        banking_payloads(batches).len() == all_packets(batches).len(),
        forall|i: int|
            0 <= i < all_packets(batches).len() ==> {
                &&& (#[trigger] forwarded_packets(batches)[i]).data
                    == all_packets(batches)[i].data->0@
                &&& forwarded_packets(batches)[i].meta == Some(all_packets(batches)[i].meta)
            },
        forall|i: int|
            0 <= i < all_packets(batches).len() ==> #[trigger] banking_payloads(batches)[i]
                == all_packets(batches)[i].data->0@,
{
    law_every_live_packet_goes(batches);
    lemma_filter_of_all(all_packets(batches), live());
}

proof fn lemma_filter_of_all<A>(s: Seq<A>, keep: spec_fn(A) -> bool)
    requires
        forall|i: int| 0 <= i < s.len() ==> keep(#[trigger] s[i]),
    ensures
        s.filter(keep) == s,
    decreases s.len(),
{
    reveal(Seq::filter);
    if s.len() > 0 {
        lemma_filter_of_all(s.drop_last(), keep);
        assert(s.drop_last().push(s.last()) =~= s);
    }
}

/// Packets travel sixty-four to a message, and only the last message may hold
/// fewer, but not none. Each message is marked with the time, and the packets in
/// the messages are, one after the other, those that go to the validator.
pub proof fn law_messages_carry_sixty_four_packets(
    ts: Timestamp,
    batches: Seq<Vec<BankingPacket>>,
)
    ensures
        ({
            let going = all_packets(batches).filter(live()).map_values(as_it_came());
            let messages = batch_messages(ts, batches);
            &&& going.len() <= 64 * messages.len()
            &&& messages.len() > 0 ==> 64 * (messages.len() - 1) < going.len()
            &&& forall|i: int|
                0 <= i < messages.len() ==> {
                    &&& (#[trigger] messages[i]).header == Some(Header { ts: Some(ts) })
                    &&& messages[i].msg is Some
                    &&& messages[i].msg->0 is Batch
                    &&& messages[i].msg->0->Batch_0 == going.subrange(
                        64 * i,
                        if 64 * i + 64 <= going.len() {
                            64 * i + 64
                        } else {
                            going.len() as int
                        },
                    )
                }
        }),
{
    law_every_live_packet_goes(batches);
    let going = all_packets(batches).filter(live()).map_values(as_it_came());
    let messages = batch_messages(ts, batches);
    let cut = in_batches(going, 64);
    assert(messages.len() == cut.len());
    assert forall|i: int| 0 <= i < messages.len() implies {
        &&& (#[trigger] messages[i]).header == Some(Header { ts: Some(ts) })
        &&& messages[i].msg is Some
        &&& messages[i].msg->0 is Batch
        &&& messages[i].msg->0->Batch_0 == going.subrange(
            64 * i,
            if 64 * i + 64 <= going.len() {
                64 * i + 64
            } else {
                going.len() as int
            },
        )
    } by {
        assert(messages[i].msg == Some(MsgView::Batch(cut[i])));
    }
}

/// A packet, a batch of packets and a message to a subscriber are told by all that
/// is in them.
pub proof fn law_views_leave_nothing_out(
    packet: Packet,
    batch: PacketBatch,
    response: SubscribePacketsResponse,
)
    ensures
        packet@.data == packet.data@,
        packet@.meta == packet.meta,
        batch@.len() == batch.packets@.len(),
        forall|i: int| 0 <= i < batch.packets@.len() ==> #[trigger] batch@[i] == batch.packets@[i]@,
        response@.header == response.header,
        response@.msg is Some <==> response.msg is Some,
        response.msg matches Some(Msg::Batch(b)) ==> response@.msg == Some(MsgView::Batch(b@)),
        response.msg matches Some(Msg::Heartbeat(h)) ==> response@.msg == Some(
            MsgView::Heartbeat(h),
        ),
{
}

/// Messages that came to an outcome are counted one by one.
pub proof fn law_outcomes_are_counted(log: Seq<(ResponseView, Delivery)>, outcome: Delivery)
    ensures
        deliveries(log, outcome) == log.filter(|e: (ResponseView, Delivery)| e.1 == outcome).len(),
    decreases log.len(),
{
    reveal(Seq::filter);
    if log.len() > 0 {
        law_outcomes_are_counted(log.drop_last(), outcome);
    }
}

/// What was put to a queue follows what was put to it before: as many entries as
/// messages, in order, each with its message. The queue stays the same.
pub proof fn law_messages_are_put_in_order(
    before: Subscription,
    after: Subscription,
    messages: Seq<ResponseView>,
)
    requires
        offered_between(before, after, messages),
    ensures
        after.sender() == before.sender(),
        after.offered().len() == before.offered().len() + messages.len(),
        forall|i: int|
            0 <= i < before.offered().len() ==> #[trigger] after.offered()[i]
                == before.offered()[i],
        forall|i: int|
            0 <= i < messages.len() ==> #[trigger] messages[i] == after.offered()[before.offered().len()
                + i].0,
        newly_offered(before, after) == after.offered().skip(before.offered().len() as int),
{
    let n = before.offered().len() as int;
    let text = |e: (ResponseView, Delivery)| e.0;
    let new = newly_offered(before, after);
    assert(new.map_values(text).len() == new.len());
    assert forall|i: int| 0 <= i < n implies #[trigger] after.offered()[i]
        == before.offered()[i] by {
        assert(after.offered().take(n)[i] == after.offered()[i]);
    }
    assert forall|i: int| 0 <= i < messages.len() implies #[trigger] messages[i]
        == after.offered()[n + i].0 by {
        assert(new.map_values(text)[i] == new[i].0);
    }
}

/// Where there is a subscriber, it is put the messages, and nothing else of the
/// service changes. It is named once for each message that found it gone, and the
/// messages that found its queue full are counted. Where there is none, nothing
/// happens.
pub proof fn law_the_subscriber_is_put_the_messages(
    before: ForwarderService,
    after: ForwarderService,
    messages: Seq<ResponseView>,
    failed: Seq<Pubkey>,
    dropped: u64,
)
    requires
        put_to_subscriber(before, after, messages, failed, dropped),
    ensures
        after.public_ip == before.public_ip,
        after.tpu_quic_port == before.tpu_quic_port,
        after.tpu_fwd_quic_port == before.tpu_fwd_quic_port,
        after.packet_subscriptions is Some <==> before.packet_subscriptions is Some,
        before.packet_subscriptions is None ==> failed.len() == 0 && dropped == 0,
        before.packet_subscriptions is Some ==> {
            let old_queue = (before.packet_subscriptions->0).1;
            let queue = (after.packet_subscriptions->0).1;
            let new = queue.offered().skip(old_queue.offered().len() as int);
            &&& (after.packet_subscriptions->0).0 == (before.packet_subscriptions->0).0
            &&& queue.sender() == old_queue.sender()
            &&& queue.offered().take(old_queue.offered().len() as int) == old_queue.offered()
            &&& new.len() == messages.len()
            &&& forall|i: int| 0 <= i < messages.len() ==> (#[trigger] new[i]).0 == messages[i]
            &&& forall|i: int|
                0 <= i < failed.len() ==> #[trigger] failed[i] == (before.packet_subscriptions->0).0
            &&& failed.len() == new.filter(
                |e: (ResponseView, Delivery)| e.1 == Delivery::Closed,
            ).len()
            &&& dropped == new.filter(|e: (ResponseView, Delivery)| e.1 == Delivery::Full).len()
        },
{
    if before.packet_subscriptions is Some {
        let old_queue = (before.packet_subscriptions->0).1;
        let queue = (after.packet_subscriptions->0).1;
        let new = queue.offered().skip(old_queue.offered().len() as int);
        law_messages_are_put_in_order(old_queue, queue, messages);
        law_outcomes_are_counted(new, Delivery::Closed);
        law_outcomes_are_counted(new, Delivery::Full);
        assert forall|i: int| 0 <= i < messages.len() implies (#[trigger] new[i]).0
            == messages[i] by {
            assert(messages[i] == queue.offered()[old_queue.offered().len() + i].0);
        }
    }
}

/// The subscriber that a turn was about: the one that was taken out, or else the
/// one that stays.
pub open spec fn served_one(
    taken: Option<(Pubkey, Subscription)>,
    after: ForwarderService,
) -> Option<(Pubkey, Subscription)> {
    if taken is Some {
        taken
    } else {
        after.packet_subscriptions
    }
}

/// A turn about a sign of life puts one message to the subscriber: it has no time,
/// and the number of signs of life before it. The subscriber is taken out if it was
/// gone and stays if it was not, and a full queue counts as one message dropped.
pub proof fn law_a_heartbeat_is_one_numbered_message(
    before: ForwarderService,
    after: ForwarderService,
    state_before: ForwardState,
    state_after: ForwardState,
    taken: Option<(Pubkey, Subscription)>,
)
    requires
        loop_turn(before, after, state_before, state_after, TurnKind::Heartbeat, taken),
    ensures
        state_after.heartbeat_count == state_before.heartbeat_count + 1,
        before.packet_subscriptions is None ==> {
            &&& after.packet_subscriptions is None
            &&& taken is None
            &&& state_after.dropped_sends == state_before.dropped_sends
        },
        before.packet_subscriptions is Some ==> {
            let old_queue = (before.packet_subscriptions->0).1;
            let served = served_one(taken, after);
            let log = (served->0).1.offered();
            &&& served is Some
            &&& (served->0).0 == (before.packet_subscriptions->0).0
            &&& log.len() == old_queue.offered().len() + 1
            &&& log.drop_last() == old_queue.offered()
            &&& log.last().0.header is None
            &&& log.last().0.msg == Some(
                MsgView::Heartbeat(Heartbeat { count: state_before.heartbeat_count }),
            )
            &&& taken is Some <==> log.last().1 == Delivery::Closed
            &&& taken is Some <==> after.packet_subscriptions is None
            &&& state_after.dropped_sends == state_before.dropped_sends + (if log.last().1
                == Delivery::Full {
                1int
            } else {
                0int
            })
        },
{
    if before.packet_subscriptions is Some {
        let old_queue = (before.packet_subscriptions->0).1;
        let served = served_one(taken, after);
        let queue = (served->0).1;
        let log = queue.offered();
        let message = ResponseView {
            header: None,
            msg: Some(
                MsgView::Heartbeat(Heartbeat { count: state_before.heartbeat_count }),
            ),
        };
        law_messages_are_put_in_order(old_queue, queue, seq![message]);
        assert(seq![message][0] == log[old_queue.offered().len() as int].0);
        let new = newly_offered(old_queue, queue);
        assert(new =~= seq![log.last()]);
        assert(new.drop_last() =~= Seq::<(ResponseView, Delivery)>::empty());
        assert(deliveries(new.drop_last(), Delivery::Closed) == 0);
        assert(deliveries(new.drop_last(), Delivery::Full) == 0);
        assert(log.drop_last() =~= old_queue.offered());
    }
}

/// A turn about packets puts their messages to the subscriber, in order and no
/// other, and counts no sign of life. The subscriber is taken out if and only if
/// one of the messages found it gone.
pub proof fn law_packets_are_put_to_the_subscriber(
    before: ForwarderService,
    after: ForwarderService,
    state_before: ForwardState,
    state_after: ForwardState,
    messages: Seq<ResponseView>,
    taken: Option<(Pubkey, Subscription)>,
)
    requires
        loop_turn(before, after, state_before, state_after, TurnKind::Packets(messages), taken),
    ensures
        state_after.heartbeat_count == state_before.heartbeat_count,
        before.packet_subscriptions is None ==> {
            &&& after.packet_subscriptions is None
            &&& taken is None
            &&& state_after.dropped_sends == state_before.dropped_sends
        },
        before.packet_subscriptions is Some ==> {
            let old_queue = (before.packet_subscriptions->0).1;
            let served = served_one(taken, after);
            let log = (served->0).1.offered();
            let new = log.skip(old_queue.offered().len() as int);
            &&& served is Some
            &&& (served->0).0 == (before.packet_subscriptions->0).0
            &&& log.take(old_queue.offered().len() as int) == old_queue.offered()
            &&& new.len() == messages.len()
            &&& forall|i: int| 0 <= i < messages.len() ==> (#[trigger] new[i]).0 == messages[i]
            &&& taken is Some <==> new.filter(
                |e: (ResponseView, Delivery)| e.1 == Delivery::Closed,
            ).len() > 0
            &&& taken is Some <==> after.packet_subscriptions is None
            &&& state_after.dropped_sends == state_before.dropped_sends + new.filter(
                |e: (ResponseView, Delivery)| e.1 == Delivery::Full,
            ).len()
        },
{
    if before.packet_subscriptions is Some {
        let old_queue = (before.packet_subscriptions->0).1;
        let served = served_one(taken, after);
        let queue = (served->0).1;
        let new = queue.offered().skip(old_queue.offered().len() as int);
        law_messages_are_put_in_order(old_queue, queue, messages);
        law_outcomes_are_counted(new, Delivery::Closed);
        law_outcomes_are_counted(new, Delivery::Full);
        assert forall|i: int| 0 <= i < messages.len() implies (#[trigger] new[i]).0
            == messages[i] by {
            assert(messages[i] == queue.offered()[old_queue.offered().len() + i].0);
        }
    }
}

/// A turn about a report starts the count of dropped messages over, and touches
/// nothing else.
pub proof fn law_a_report_starts_the_count_over(
    before: ForwarderService,
    after: ForwarderService,
    state_before: ForwardState,
    state_after: ForwardState,
    taken: Option<(Pubkey, Subscription)>,
)
    requires
        loop_turn(before, after, state_before, state_after, TurnKind::Report, taken),
    ensures
        after == before,
        taken is None,
        state_after.heartbeat_count == state_before.heartbeat_count,
        state_after.dropped_sends == 0,
{
}

/// A subscriber is dropped if its name is among those that are gone, at any place,
/// and stays with its queue if it is not.
pub proof fn law_only_the_named_subscriber_is_dropped(
    pubkey: Pubkey,
    queue: Subscription,
    failed: Seq<Pubkey>,
    i: int,
)
    ensures
        0 <= i < failed.len() && failed[i] == pubkey ==> subscription_without(
            Some((pubkey, queue)),
            failed,
        ) is None,
        (forall|j: int| 0 <= j < failed.len() ==> #[trigger] failed[j] != pubkey)
            ==> subscription_without(Some((pubkey, queue)), failed) == Some((pubkey, queue)),
        subscription_without(None, failed) is None,
{
}

/// The refusal of a second validator names the first between brackets and quotes,
/// behind a fixed text.
pub proof fn law_a_refusal_names_the_connected_validator(connected: Pubkey)
    ensures
        ({
            let text = too_many_text(connected);
            let name = base58(connected@);
            &&& text.len() == 59 + name.len()
            &&& text.take(57)
                == "Too many subscriptions, max is 1, currently connected: [\""@
            &&& text.subrange(57, 57 + name.len() as int) == name
            &&& text[57 + name.len() as int] == '"'
            &&& text[58 + name.len() as int] == ']'
        }),
{
    reveal_strlit("Too many subscriptions, max is 1, currently connected: [\"");
    reveal_strlit("\"]");
    let text = too_many_text(connected);
    let name = base58(connected@);
    assert(text.take(57) =~= "Too many subscriptions, max is 1, currently connected: [\""@);
    assert(text.subrange(57, 57 + name.len() as int) =~= name);
}

} // verus!
