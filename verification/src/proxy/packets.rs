//! What the proxy reads of packets and bundles: what to mirror of them, and which
//! of them are blocked.

use crate::protos::block_engine::SubscribeBundlesResponse;
use crate::protos::block_engine::SubscribePacketsResponse;
use crate::protos::bundle::Bundle;
use crate::protos::bundle::BundleUuid;
use crate::protos::packet::BankingPacket;
use crate::protos::packet::BankingPacketBatch;
use crate::protos::packet::Packet;
use crate::protos::packet::PacketBatch;
use crate::proxy::filter_set::filters_in_force;
use crate::proxy::filter_set::FilterSet;
use crate::proxy::filter_set::Signature;
use crate::proxy::frame::frozen;
use crate::proxy::mirror::fits_frame;
use crate::proxy::mirror::is_frame;
use crate::proxy::mirror::Mirror;
use crate::proxy::Proxy;
use prost::bytes::Bytes;
use vstd::prelude::*;

verus! {

/// The first signature of a transaction: the sixty-four bytes behind the count
/// of signatures.
pub open spec fn signature_bytes(data: Seq<u8>) -> Option<Seq<u8>> {
    if data.len() >= 65 {
        Some(data.subrange(1, 65))
    } else {
        None
    }
}

/// Reads the first signature of a transaction.
pub fn first_signature(data: &[u8]) -> (r: Option<Signature>)
    ensures
        match r {
            Some(signature) => signature_bytes(data@) == Some(signature@),
            None => signature_bytes(data@) is None,
        },
        r is Some <==> data@.len() >= 65,
        r matches Some(signature) ==> forall|j: int|
            0 <= j < 64 ==> #[trigger] signature@[j] == data@[j + 1],
{
    if data.len() < 65 {
        return None;
    }
    let mut signature: Signature = [0u8;64];
    let mut i: usize = 0;
    while i < 64
        invariant
            i <= 64,
            data@.len() >= 65,
            forall|j: int| 0 <= j < i ==> #[trigger] signature@[j] == data@[j + 1],
        decreases 64 - i,
    {
        signature[i] = data[i + 1];
        i += 1;
    }
    assert(signature@ =~= data@.subrange(1, 65));
    Some(signature)
}

/// A transaction is blocked where its first signature is.
pub open spec fn blocks(filters: Map<Signature, u64>, data: Seq<u8>) -> bool {
    exists|s: Signature| #[trigger]
        filters.contains_key(s) && signature_bytes(data) == Some(s@)
}

/// Whether a transaction is blocked.
pub fn is_blocked(filter_set: &FilterSet, data: &[u8]) -> (r: bool)
    requires
        filter_set.wf(),
    ensures
        r == blocks(filter_set@, data@),
{
    match first_signature(data) {
        Some(signature) => {
            let r = filter_set.contains_key(&signature);
            proof {
                assert forall|s: Signature| #[trigger]
                    filter_set@.contains_key(s) && signature_bytes(data@) == Some(
                        s@,
                    ) implies r by {
                    assert(s =~= signature) by {
                        assert forall|i: int| 0 <= i < 64 implies s[i] == signature[i] by {
                            assert(s@[i] == signature@[i]);
                        }
                    }
                }
            }
            r
        },
        None => false,
    }
}

/// What to mirror of a packet: its bytes, unless it is to be ignored or they
/// cannot be read.
pub open spec fn banking_payload(packet: BankingPacket) -> Option<Seq<u8>> {
    if packet.discard {
        None
    } else {
        match packet.data {
            Some(data) => Some(data@),
            None => None,
        }
    }
}

/// What to mirror of some packets, in order.
pub open spec fn batch_payloads(packets: Seq<BankingPacket>) -> Seq<Seq<u8>> {
    packets.filter_map(|p: BankingPacket| banking_payload(p))
}

/// What to mirror of some batches, in order.
pub open spec fn banking_payloads(batches: Seq<Vec<BankingPacket>>) -> Seq<Seq<u8>>
    decreases batches.len(),
{
    if batches.len() == 0 {
        Seq::empty()
    } else {
        banking_payloads(batches.drop_last()) + batch_payloads(batches.last()@)
    }
}

/// Each payload that is mirrored fits into a datagram.
pub open spec fn banking_fits(batches: Seq<Vec<BankingPacket>>) -> bool {
    forall|i: int, j: int|
        0 <= i < batches.len() && 0 <= j < batches[i]@.len() ==> (banking_payload(
            #[trigger] batches[i]@[j],
        ) matches Some(data) ==> fits_frame(data))
}

/// The datagrams for some payloads: one each, in order, where the link is up.
pub open spec fn frames_for(
    frames: Seq<Bytes>,
    connected: bool,
    source: u8,
    payloads: Seq<Seq<u8>>,
) -> bool {
    if connected {
        &&& frames.len() == payloads.len()
        &&& forall|i: int|
            0 <= i < payloads.len() ==> is_frame(
                frozen(#[trigger] frames[i]),
                source,
                payloads[i],
            )
    } else {
        frames.len() == 0
    }
}

/// The datagrams for the packets of a batch that are not to be ignored.
pub fn mirror_banking_batch(mirror: &mut Mirror, batch: &BankingPacketBatch) -> (frames: Vec<Bytes>)
    requires
        old(mirror).wf(),
        banking_fits(batch@),
    ensures
        final(mirror).wf(),
        final(mirror).cert_pin == old(mirror).cert_pin,
        final(mirror).connected == old(mirror).connected,
        final(mirror).stats == old(mirror).stats,
        frames_for(
            frames@,
            old(mirror).connected,
            Proxy::SOURCE_RELAYER,
            banking_payloads(batch@),
        ),
{
    let mut frames: Vec<Bytes> = Vec::new();
    let n: usize = batch.len();
    let mut i: usize = 0;
    assert(batch@.take(0) =~= Seq::<Vec<BankingPacket>>::empty());
    let ghost payload_of = |p: BankingPacket| banking_payload(p);
    while i < n
        invariant
            i <= n,
            n == batch@.len(),
            payload_of == (|p: BankingPacket| banking_payload(p)),
            banking_fits(batch@),
            mirror.wf(),
            mirror.cert_pin == old(mirror).cert_pin,
            mirror.connected == old(mirror).connected,
            mirror.stats == old(mirror).stats,
            frames_for(
                frames@,
                old(mirror).connected,
                Proxy::SOURCE_RELAYER,
                banking_payloads(batch@.take(i as int)),
            ),
        decreases n - i,
    {
        let packets = &batch[i];
        let m: usize = packets.len();
        let mut j: usize = 0;
        let ghost sofar = banking_payloads(batch@.take(i as int));
        assert(packets@.take(0) =~= Seq::<BankingPacket>::empty());
        assert(sofar + batch_payloads(packets@.take(0)) =~= sofar);
        while j < m
            invariant
                i < n,
                n == batch@.len(),
                j <= m,
                m == packets@.len(),
                *packets == batch@[i as int],
                payload_of == (|p: BankingPacket| banking_payload(p)),
                banking_fits(batch@),
                mirror.wf(),
                mirror.cert_pin == old(mirror).cert_pin,
                mirror.connected == old(mirror).connected,
                mirror.stats == old(mirror).stats,
                frames_for(
                    frames@,
                    old(mirror).connected,
                    Proxy::SOURCE_RELAYER,
                    sofar + batch_payloads(packets@.take(j as int)),
                ),
            decreases m - j,
        {
            let packet = &packets[j];
            let ghost prior = packets@.take(j as int);
            let ghost next = packets@.take(j + 1);
            proof {
                assert(next.drop_last() =~= prior);
                assert(next.last() == *packet);
                assert(*packet == batch@[i as int]@[j as int]);
                reveal_with_fuel(Seq::filter_map, 1);
            }
            if !packet.discard {
                if let Some(data) = &packet.data {
                    let sent = mirror.send(Proxy::SOURCE_RELAYER, data.as_slice());
                    proof {
                        assert(sofar + batch_payloads(next) =~= (sofar + batch_payloads(
                            prior,
                        )).push(data@));
                    }
                    if let Some(frame) = sent {
                        frames.push(frame);
                    }
                }
            }
            j += 1;
        }
        proof {
            assert(packets@.take(m as int) =~= packets@);
            assert(batch@.take(i + 1).drop_last() =~= batch@.take(i as int));
        }
        i += 1;
    }
    assert(batch@.take(n as int) =~= batch@);
    frames
}

/// A packet after its batch was held against the filters: one that is blocked is
/// to be ignored, and nothing else changes.
pub open spec fn packet_screened(
    filters: Map<Signature, u64>,
    before: BankingPacket,
    after: BankingPacket,
) -> bool {
    &&& after.data == before.data
    &&& after.meta == before.meta
    &&& after.discard == (before.discard || (before.data matches Some(data) && blocks(
        filters,
        data@,
    )))
}

/// Packets after they were held against the filters, one by one.
pub open spec fn packets_screened(
    filters: Map<Signature, u64>,
    before: Seq<BankingPacket>,
    after: Seq<BankingPacket>,
) -> bool {
    &&& after.len() == before.len()
    &&& forall|j: int|
        0 <= j < before.len() ==> packet_screened(filters, before[j], #[trigger] after[j])
}

/// Batches after they were held against the filters, one by one.
pub open spec fn batches_screened(
    filters: Map<Signature, u64>,
    before: Seq<Vec<BankingPacket>>,
    after: Seq<Vec<BankingPacket>>,
) -> bool {
    &&& after.len() == before.len()
    &&& forall|i: int|
        0 <= i < before.len() ==> packets_screened(filters, before[i]@, (#[trigger] after[i])@)
}

/// With no filter every packet passes.
proof fn lemma_no_filters(filters: Map<Signature, u64>)
    requires
        filters.is_empty(),
    ensures
        forall|data: Seq<u8>| !(#[trigger] blocks(filters, data)),
{
    assert forall|data: Seq<u8>| !(#[trigger] blocks(filters, data)) by {
        assert forall|s: Signature| !filters.contains_key(s) by {
            assert(!filters.dom().contains(s));
        }
    }
}

/// Marks the packets of a batch that are blocked as to be ignored.
pub fn discard_filtered(filter_set: &FilterSet, batch: BankingPacketBatch) -> (r: BankingPacketBatch)
    requires
        filter_set.wf(),
    ensures
        batches_screened(filter_set@, batch@, r@),
{
    if filter_set.is_empty() {
        proof {
            lemma_no_filters(filter_set@);
        }
        return batch;
    }
    let ghost before = batch@;
    let mut r: BankingPacketBatch = Vec::new();
    for packets in it: batch.into_iter()
        invariant
            filter_set.wf(),
            it.seq() == before,
            r@.len() == it.index(),
            forall|i: int|
                0 <= i < r@.len() ==> packets_screened(
                    filter_set@,
                    before[i]@,
                    (#[trigger] r@[i])@,
                ),
    {
        r.push(discard_filtered_packets(filter_set, packets));
    }
    r
}

fn discard_filtered_packets(filter_set: &FilterSet, packets: Vec<BankingPacket>) -> (r: Vec<
    BankingPacket,
>)
    requires
        filter_set.wf(),
    ensures
        packets_screened(filter_set@, packets@, r@),
{
    let ghost before = packets@;
    let mut r: Vec<BankingPacket> = Vec::new();
    for packet in it: packets.into_iter()
        invariant
            filter_set.wf(),
            it.seq() == before,
            r@.len() == it.index(),
            forall|j: int|
                0 <= j < r@.len() ==> packet_screened(filter_set@, before[j], #[trigger] r@[j]),
    {
        let blocked = match &packet.data {
            Some(data) => !packet.discard && is_blocked(filter_set, data.as_slice()),
            None => false,
        };
        r.push(
            BankingPacket {
                discard: packet.discard || blocked,
                data: packet.data,
                meta: packet.meta,
            },
        );
    }
    r
}

/// Tells the packets that are not blocked.
pub open spec fn passes(filters: Map<Signature, u64>) -> spec_fn(Packet) -> bool {
    |p: Packet| !blocks(filters, p.data@)
}

/// A block engine's packets after they were held against the filters: those that
/// are blocked are gone, and the others are there in order.
pub open spec fn be_packets_screened(
    filters: Map<Signature, u64>,
    before: SubscribePacketsResponse,
    after: SubscribePacketsResponse,
) -> bool {
    &&& after.header == before.header
    &&& match before.batch {
        Some(batch) => after.batch matches Some(kept) && kept.packets@ == batch.packets@.filter(
            passes(filters),
        ),
        None => after.batch is None,
    }
}

proof fn lemma_filter_keeps_all<A>(s: Seq<A>, keep: spec_fn(A) -> bool)
    requires
        forall|i: int| 0 <= i < s.len() ==> keep(#[trigger] s[i]),
    ensures
        s.filter(keep) == s,
    decreases s.len(),
{
    reveal(Seq::filter);
    if s.len() > 0 {
        lemma_filter_keeps_all(s.drop_last(), keep);
        assert(s.drop_last().push(s.last()) =~= s);
    }
}

fn keep_packets(filter_set: &FilterSet, packets: Vec<Packet>) -> (r: Vec<Packet>)
    requires
        filter_set.wf(),
    ensures
        r@ == packets@.filter(passes(filter_set@)),
{
    let ghost before = packets@;
    let ghost keep = passes(filter_set@);
    let mut r: Vec<Packet> = Vec::new();
    proof {
        reveal(Seq::filter);
        assert(before.take(0).filter(keep) =~= Seq::<Packet>::empty());
    }
    for packet in it: packets.into_iter()
        invariant
            filter_set.wf(),
            keep == passes(filter_set@),
            it.seq() == before,
            r@ == before.take(it.index() as int).filter(keep),
    {
        proof {
            before.take(it.index() as int).lemma_filter_push(packet, keep);
        }
        assert(before.take(it.index() as int).push(packet) =~= before.take(it.index() as int + 1));
        if !is_blocked(filter_set, packet.data.as_slice()) {
            r.push(packet);
        }
    }
    assert(before.take(before.len() as int) =~= before);
    r
}

/// Takes the packets that are blocked out of a block engine's message.
pub fn filter_be_packets(filter_set: &FilterSet, resp: SubscribePacketsResponse) -> (r:
    SubscribePacketsResponse)
    requires
        filter_set.wf(),
    ensures
        be_packets_screened(filter_set@, resp, r),
{
    if filter_set.is_empty() {
        proof {
            lemma_no_filters(filter_set@);
            if resp.batch is Some {
                lemma_filter_keeps_all(resp.batch->0.packets@, passes(filter_set@));
            }
        }
        return resp;
    }
    match resp.batch {
        Some(batch) => SubscribePacketsResponse {
            header: resp.header,
            batch: Some(PacketBatch { packets: keep_packets(filter_set, batch.packets) }),
        },
        None => SubscribePacketsResponse { header: resp.header, batch: None },
    }
}

/// A bundle is blocked where one of its packets is.
pub open spec fn bundle_blocked(filters: Map<Signature, u64>, bundle: BundleUuid) -> bool {
    bundle.bundle matches Some(b) && exists|i: int|
        0 <= i < b.packets@.len() && blocks(filters, (#[trigger] b.packets@[i]).data@)
}

/// Tells the bundles that are not blocked.
pub open spec fn bundle_passes(filters: Map<Signature, u64>) -> spec_fn(BundleUuid) -> bool {
    |b: BundleUuid| !bundle_blocked(filters, b)
}

/// A block engine's bundles after they were held against the filters: those that
/// are blocked are gone as a whole, and the others are there in order.
pub open spec fn be_bundles_screened(
    filters: Map<Signature, u64>,
    before: SubscribeBundlesResponse,
    after: SubscribeBundlesResponse,
) -> bool {
    after.bundles@ == before.bundles@.filter(bundle_passes(filters))
}

fn is_bundle_blocked(filter_set: &FilterSet, bundle: &Bundle) -> (r: bool)
    requires
        filter_set.wf(),
    ensures
        r == exists|i: int|
            0 <= i < bundle.packets@.len() && blocks(
                filter_set@,
                (#[trigger] bundle.packets@[i]).data@,
            ),
{
    let n: usize = bundle.packets.len();
    let mut i: usize = 0;
    while i < n
        invariant
            i <= n,
            n == bundle.packets@.len(),
            filter_set.wf(),
            forall|j: int|
                0 <= j < i ==> !blocks(filter_set@, (#[trigger] bundle.packets@[j]).data@),
        decreases n - i,
    {
        if is_blocked(filter_set, bundle.packets[i].data.as_slice()) {
            assert(blocks(filter_set@, bundle.packets@[i as int].data@));
            return true;
        }
        i += 1;
    }
    false
}

/// Takes the bundles that are blocked out of a block engine's message.
pub fn filter_be_bundles(filter_set: &FilterSet, resp: SubscribeBundlesResponse) -> (r:
    SubscribeBundlesResponse)
    requires
        filter_set.wf(),
    ensures
        be_bundles_screened(filter_set@, resp, r),
{
    let ghost before = resp.bundles@;
    let ghost keep = bundle_passes(filter_set@);
    if filter_set.is_empty() {
        proof {
            lemma_no_filters(filter_set@);
            lemma_filter_keeps_all(before, keep);
        }
        return resp;
    }
    let mut bundles: Vec<BundleUuid> = Vec::new();
    proof {
        reveal(Seq::filter);
        assert(before.take(0).filter(keep) =~= Seq::<BundleUuid>::empty());
    }
    for bundle in it: resp.bundles.into_iter()
        invariant
            filter_set.wf(),
            keep == bundle_passes(filter_set@),
            it.seq() == before,
            bundles@ == before.take(it.index() as int).filter(keep),
    {
        proof {
            before.take(it.index() as int).lemma_filter_push(bundle, keep);
        }
        assert(before.take(it.index() as int).push(bundle) =~= before.take(it.index() as int + 1));
        let hit = match &bundle.bundle {
            Some(b) => is_bundle_blocked(filter_set, b),
            None => false,
        };
        if !hit {
            bundles.push(bundle);
        }
    }
    assert(before.take(before.len() as int) =~= before);
    SubscribeBundlesResponse { bundles }
}

/// What to mirror of a block engine's packets, in order.
pub open spec fn be_payloads(resp: SubscribePacketsResponse) -> Seq<Seq<u8>> {
    match resp.batch {
        Some(batch) => batch.packets@.map_values(|p: Packet| p.data@),
        None => Seq::empty(),
    }
}

/// Each payload that is mirrored fits into a datagram.
pub open spec fn be_fits(resp: SubscribePacketsResponse) -> bool {
    forall|i: int| 0 <= i < be_payloads(resp).len() ==> fits_frame(#[trigger] be_payloads(resp)[i])
}

/// The datagrams for the packets of a block engine's message.
pub fn mirror_be_packets(mirror: &mut Mirror, resp: &SubscribePacketsResponse) -> (frames: Vec<
    Bytes,
>)
    requires
        old(mirror).wf(),
        be_fits(*resp),
    ensures
        final(mirror).wf(),
        final(mirror).cert_pin == old(mirror).cert_pin,
        final(mirror).connected == old(mirror).connected,
        final(mirror).stats == old(mirror).stats,
        frames_for(
            frames@,
            old(mirror).connected,
            Proxy::SOURCE_BLOCKENGINE,
            be_payloads(*resp),
        ),
{
    let mut frames: Vec<Bytes> = Vec::new();
    if let Some(batch) = &resp.batch {
        let n: usize = batch.packets.len();
        let mut i: usize = 0;
        while i < n
            invariant
                i <= n,
                n == batch.packets@.len(),
                resp.batch == Some(*batch),
                be_fits(*resp),
                mirror.wf(),
                mirror.cert_pin == old(mirror).cert_pin,
                mirror.connected == old(mirror).connected,
                mirror.stats == old(mirror).stats,
                frames_for(
                    frames@,
                    old(mirror).connected,
                    Proxy::SOURCE_BLOCKENGINE,
                    be_payloads(*resp).take(i as int),
                ),
            decreases n - i,
        {
            assert(be_payloads(*resp)[i as int] == batch.packets@[i as int].data@);
            let sent = mirror.send(Proxy::SOURCE_BLOCKENGINE, batch.packets[i].data.as_slice());
            if let Some(frame) = sent {
                frames.push(frame);
            }
            i += 1;
        }
        assert(be_payloads(*resp).take(n as int) =~= be_payloads(*resp));
    }
    frames
}

/// With no filter, nothing that is held against the filters changes.
pub proof fn law_no_filter_changes_nothing(
    before: Seq<Vec<BankingPacket>>,
    after: Seq<Vec<BankingPacket>>,
    packets_before: SubscribePacketsResponse,
    packets_after: SubscribePacketsResponse,
    bundles_before: SubscribeBundlesResponse,
    bundles_after: SubscribeBundlesResponse,
)
    requires
        batches_screened(Map::empty(), before, after),
        be_packets_screened(Map::empty(), packets_before, packets_after),
        be_bundles_screened(Map::empty(), bundles_before, bundles_after),
    ensures
        after.len() == before.len(),
        forall|i: int| 0 <= i < before.len() ==> (#[trigger] after[i])@ == before[i]@,
        packets_before.batch matches Some(batch) ==> packets_after.batch is Some
            && packets_after.batch->0.packets@ == batch.packets@,
        bundles_after.bundles@ == bundles_before.bundles@,
{
    let none = Map::<Signature, u64>::empty();
    lemma_no_filters(none);
    assert forall|i: int| 0 <= i < before.len() implies (#[trigger] after[i])@ == before[i]@ by {
        assert forall|j: int| 0 <= j < before[i]@.len() implies after[i]@[j] == before[i]@[j] by {
            assert(packet_screened(none, before[i]@[j], after[i]@[j]));
        }
        assert(after[i]@ =~= before[i]@);
    }
    if packets_before.batch is Some {
        lemma_filter_keeps_all(packets_before.batch->0.packets@, passes(none));
    }
    lemma_filter_keeps_all(bundles_before.bundles@, bundle_passes(none));
}

/// What a block engine sent goes on without anything that is blocked: no packet
/// that is, and no bundle with a packet that is.
pub proof fn law_nothing_blocked_goes_on(
    filters: Map<Signature, u64>,
    packets_before: SubscribePacketsResponse,
    packets_after: SubscribePacketsResponse,
    bundles_before: SubscribeBundlesResponse,
    bundles_after: SubscribeBundlesResponse,
)
    requires
        be_packets_screened(filters, packets_before, packets_after),
        be_bundles_screened(filters, bundles_before, bundles_after),
    ensures
        packets_after.batch matches Some(batch) ==> forall|i: int|
            0 <= i < batch.packets@.len() ==> !blocks(filters, (#[trigger] batch.packets@[i]).data@),
        forall|i: int|
            0 <= i < bundles_after.bundles@.len() ==> !bundle_blocked(
                filters,
                #[trigger] bundles_after.bundles@[i],
            ),
{
    if packets_before.batch is Some {
        lemma_filter_keeps_only(packets_before.batch->0.packets@, passes(filters));
    }
    lemma_filter_keeps_only(bundles_before.bundles@, bundle_passes(filters));
}

proof fn lemma_filter_keeps_only<A>(s: Seq<A>, keep: spec_fn(A) -> bool)
    ensures
        forall|i: int| 0 <= i < s.filter(keep).len() ==> keep(#[trigger] s.filter(keep)[i]),
    decreases s.len(),
{
    reveal(Seq::filter);
    if s.len() > 0 {
        lemma_filter_keeps_only(s.drop_last(), keep);
    }
}

/// A transaction is blocked from when its first signature is named until the time
/// to live of that filter is over, and not longer.
pub proof fn law_transaction_is_blocked_for_a_while(
    filters: Map<Signature, u64>,
    signature: Signature,
    at: u64,
    now: u64,
    data: Seq<u8>,
)
    requires
        at <= now,
        signature_bytes(data) == Some(signature@),
    ensures
        blocks(filters_in_force(filters.insert(signature, at), now), data) <==> now < at
            + FilterSet::TTL,
{
    let live = filters_in_force(filters.insert(signature, at), now);
    if now < at + FilterSet::TTL {
        assert(live.contains_key(signature));
    }
    if blocks(live, data) {
        let s = choose|s: Signature| #[trigger]
            live.contains_key(s) && signature_bytes(data) == Some(s@);
        assert(s@ =~= signature@);
        assert(s =~= signature);
    }
}

} // verus!
