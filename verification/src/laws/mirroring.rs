//! What the mirroring server sees.

use crate::protos::block_engine::SubscribeBundlesResponse;
use crate::protos::block_engine::SubscribePacketsResponse;
use crate::protos::packet::BankingPacket;
use crate::protos::packet::BankingPacketBatch;
use crate::laws::forwarding::all_packets;
use crate::laws::forwarding::law_every_live_packet_goes;
use crate::laws::forwarding::live;
use crate::proxy::bundle_stream::in_follows;
use crate::proxy::bundle_stream::out_follows;
use crate::proxy::bundle_stream::read_stream;
use crate::proxy::bundle_stream::InAction;
use crate::proxy::bundle_stream::InEvent;
use crate::proxy::bundle_stream::OutAction;
use crate::proxy::bundle_stream::OutEvent;
use crate::proxy::delay::Relayed;
use crate::proxy::frame::frame_bytes;
use crate::proxy::frame::frozen;
use crate::proxy::frame::law_frame_is_unambiguous;
use crate::proxy::packets::frames_for;
use crate::proxy::stats::report_of;
use crate::proxy::stats::with_send;
use crate::proxy::stats::MirrorStats;
use crate::proxy::stats::SendOutcome;
use prost::bytes::Bytes;
use vstd::bytes::spec_u32_from_le_bytes;
use vstd::prelude::*;

verus! {

/// While the link is up there is one datagram for each payload, in order: a byte
/// for the source, eight for the time, and the whole payload. While it is down
/// there is none.
pub proof fn law_each_payload_is_one_datagram(
    frames: Seq<Bytes>,
    connected: bool,
    source: u8,
    payloads: Seq<Seq<u8>>,
)
    requires
        frames_for(frames, connected, source, payloads),
    ensures
        frames.len() == if connected {
            payloads.len()
        } else {
            0
        },
        forall|i: int|
            0 <= i < frames.len() ==> {
                &&& frozen(#[trigger] frames[i]).len() == 9 + payloads[i].len()
                &&& frozen(frames[i])[0] == source
                &&& frozen(frames[i]).skip(9) == payloads[i]
            },
{
    assert forall|i: int| 0 <= i < frames.len() implies {
        &&& frozen(#[trigger] frames[i]).len() == 9 + payloads[i].len()
        &&& frozen(frames[i])[0] == source
        &&& frozen(frames[i]).skip(9) == payloads[i]
    } by {
        let nanos = choose|nanos: u64|
            frozen(frames[i]) == #[trigger] frame_bytes(source, nanos, payloads[i]);
        law_frame_is_unambiguous(source, nanos, payloads[i]);
    }
}

/// Of packets out of signature verification the bytes of each is mirrored that is
/// not to be ignored and can be read, marked with a zero.
pub proof fn law_verified_packets_are_mirrored(batches: BankingPacketBatch)
    ensures
        <BankingPacketBatch as Relayed>::source() == 0,
        batches.payloads() == all_packets(batches@).filter(live()).map_values(
            |p: BankingPacket| p.data->0@,
        ),
{
    law_every_live_packet_goes(batches@);
}

/// Of a block engine's packets the bytes of each is mirrored, marked with a one; of
/// its bundles nothing goes into datagrams.
pub proof fn law_block_engine_packets_are_mirrored(
    packets: SubscribePacketsResponse,
    bundles: SubscribeBundlesResponse,
)
    ensures
        <SubscribePacketsResponse as Relayed>::source() == 1,
        packets.batch is None ==> packets.payloads().len() == 0,
        packets.batch is Some ==> packets.payloads().len() == (packets.batch->0).packets@.len(),
        packets.batch is Some ==> forall|i: int|
            0 <= i < (packets.batch->0).packets@.len() ==> #[trigger] packets.payloads()[i] == (
            packets.batch->0).packets@[i].data@,
        bundles.payloads().len() == 0,
{
}

/// A datagram that was sent adds one to the count of its source, and one that was
/// not to the count of the reason. No other count changes.
pub proof fn law_each_outcome_has_its_count(stats: MirrorStats, source: u8, outcome: SendOutcome)
    requires
        stats.tpu_packets_sent < u64::MAX,
        stats.be_packets_sent < u64::MAX,
        stats.control_sent < u64::MAX,
        stats.dropped_oversized < u64::MAX,
        stats.dropped_other < u64::MAX,
    ensures
        ({
            let after = with_send(stats, source, outcome);
            let one = |b: bool|
                if b {
                    1int
                } else {
                    0int
                };
            let sent = outcome is Sent;
            &&& after.tpu_packets_sent == stats.tpu_packets_sent + one(sent && source == 0)
            &&& after.control_sent == stats.control_sent + one(sent && source == 2)
            &&& after.be_packets_sent == stats.be_packets_sent + one(
                sent && source != 0 && source != 2,
            )
            &&& after.dropped_oversized == stats.dropped_oversized + one(outcome is TooLarge)
            &&& after.dropped_other == stats.dropped_other + one(outcome is Failed)
            &&& after.bundles_sent == stats.bundles_sent
            &&& after.bundles_received == stats.bundles_received
            &&& after.filters_received == stats.filters_received
        }),
{
}

/// A report tells every count. It is left out where there is nothing to tell: of
/// what went on, where nothing but control datagrams did, and of what was dropped,
/// where nothing was.
pub proof fn law_a_report_tells_every_count(stats: MirrorStats)
    ensures
        report_of(stats).activity is None <==> stats.tpu_packets_sent == 0 && stats.be_packets_sent
            == 0 && stats.bundles_sent == 0 && stats.bundles_received == 0
            && stats.filters_received == 0,
        report_of(stats).activity matches Some(a) ==> {
            &&& a.tpu_packets == stats.tpu_packets_sent
            &&& a.be_packets == stats.be_packets_sent
            &&& a.bundles_sent == stats.bundles_sent
            &&& a.control_sent == stats.control_sent
            &&& a.bundles_received == stats.bundles_received
            &&& a.filters_received == stats.filters_received
        },
        report_of(stats).drops is None <==> stats.dropped_oversized == 0 && stats.dropped_other
            == 0,
        report_of(stats).drops matches Some(d) ==> d.oversized == stats.dropped_oversized && d.other
            == stats.dropped_other,
{
}

/// A message that was encoded is written as it is, behind its length in four
/// bytes; nothing else is written. A loss or a message that cannot be encoded does
/// not end the stream, a failed write does, and the end of the messages or of the
/// program finishes it.
pub proof fn law_the_writer_writes_length_and_message(event: OutEvent, action: OutAction)
    requires
        out_follows(event, action),
    ensures
        event matches OutEvent::Encoded { body, bundles } ==> {
            &&& action matches OutAction::Write { length, body: written, bundles: counted }
            &&& length@.len() == 4
            &&& body@.len() <= u32::MAX ==> spec_u32_from_le_bytes(length@) == body@.len()
            &&& written@ == body@
            &&& counted == bundles
        },
        action is Write ==> event is Encoded,
        action is Receive <==> event is EncodeFailed || event is Lagged || event is Written,
        action is Finish <==> event is Shutdown || event is Closed,
        action is Stop <==> event is WriteFailed,
{
    vstd::bytes::lemma_auto_spec_u32_to_from_le_bytes();
}

/// A length of at most four mebibytes is followed by reading as many bytes, and a
/// greater one by the end of the stream. What was read is decoded as it is, and
/// then the next length is read, whether or not it could be decoded, unless the
/// program shuts down.
pub proof fn law_the_reader_reads_length_and_message(
    event: InEvent,
    shutdown: bool,
    action: InAction,
)
    requires
        in_follows(event, shutdown, action),
    ensures
        event matches InEvent::Length(prefix) ==> {
            let len = spec_u32_from_le_bytes(prefix@);
            &&& len <= 4_194_304 ==> (action matches InAction::ReadBody(n) && n == len)
            &&& len > 4_194_304 ==> action is Stop
        },
        event matches InEvent::Body(body) ==> (action matches InAction::Decode(decoded) && decoded@
            == body@),
        event is ReadFailed ==> action is Stop,
        event is Started || event is Decoded || event is DecodeFailed ==> {
            &&& action is ReadLength <==> !shutdown
            &&& action is Stop <==> shutdown
        },
{
}

/// What a reader gets out of a stream that begins with a length and at least as
/// many bytes is those bytes and then what comes behind them; out of a stream that
/// is cut short, or whose length is over four mebibytes, it gets nothing.
pub proof fn law_a_stream_is_read_message_by_message(bytes: Seq<u8>)
    requires
        bytes.len() >= 4,
    ensures
        ({
            let len = spec_u32_from_le_bytes(bytes.take(4)) as int;
            if len <= 4_194_304 && bytes.len() >= 4 + len {
                &&& read_stream(bytes).len() > 0
                &&& read_stream(bytes)[0] == bytes.subrange(4, 4 + len)
                &&& read_stream(bytes).skip(1) == read_stream(bytes.skip(4 + len))
            } else {
                read_stream(bytes).len() == 0
            }
        }),
{
    let len = spec_u32_from_le_bytes(bytes.take(4)) as int;
    if len <= 4_194_304 && bytes.len() >= 4 + len {
        assert(read_stream(bytes).skip(1) =~= read_stream(bytes.skip(4 + len)));
    }
}

} // verus!
