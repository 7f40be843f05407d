//! What is blocked, and what becomes of it.

use crate::protos::block_engine::SubscribeBundlesResponse;
use crate::protos::block_engine::SubscribePacketsResponse;
use crate::protos::bundle::BundleUuid;
use crate::protos::packet::BankingPacket;
use crate::protos::packet::BankingPacketBatch;
use crate::protos::packet::Packet;
use crate::proxy::delay::law_release_splits_the_queue;
use crate::proxy::delay::released_from;
use crate::proxy::delay::Relayed;
use crate::proxy::filter_set::filters_in_force;
use crate::proxy::filter_set::Signature;
use crate::proxy::mirror::taken_in;
use crate::proxy::packets::batches_screened;
use crate::proxy::packets::be_bundles_screened;
use crate::proxy::packets::be_packets_screened;
use crate::proxy::packets::blocks;
use crate::proxy::packets::bundle_passes;
use crate::proxy::packets::packet_screened;
use crate::proxy::packets::packets_screened;
use crate::proxy::packets::passes;
use vstd::prelude::*;

verus! {

/// The sixty-four bytes behind the first byte of a transaction are one of the
/// signatures.
pub open spec fn carries(filters: Map<Signature, u64>, data: Seq<u8>) -> bool {
    &&& data.len() >= 65
    &&& exists|s: Signature|
        #![trigger filters.contains_key(s)]
        filters.contains_key(s) && forall|j: int| 0 <= j < 64 ==> #[trigger] s@[j] == data[j + 1]
}

/// Tells the packets that carry none of the signatures.
pub open spec fn clear_packet(filters: Map<Signature, u64>) -> spec_fn(Packet) -> bool {
    |p: Packet| !carries(filters, p.data@)
}

/// Tells the bundles in which no packet carries one of the signatures.
pub open spec fn clear_bundle(filters: Map<Signature, u64>) -> spec_fn(BundleUuid) -> bool {
    |b: BundleUuid|
        b.bundle matches Some(bundle) ==> forall|i: int|
            0 <= i < bundle.packets@.len() ==> !carries(
                filters,
                (#[trigger] bundle.packets@[i]).data@,
            )
}

proof fn lemma_blocks_is_carries(filters: Map<Signature, u64>, data: Seq<u8>)
    ensures
        blocks(filters, data) == carries(filters, data),
{
    if blocks(filters, data) {
        let s = choose|s: Signature| #[trigger]
            filters.contains_key(s) && crate::proxy::packets::signature_bytes(data) == Some(s@);
        assert(filters.contains_key(s));
        assert forall|j: int| 0 <= j < 64 implies #[trigger] s@[j] == data[j + 1] by {
            assert(data.subrange(1, 65)[j] == data[j + 1]);
        }
    }
    if carries(filters, data) {
        let s = choose|s: Signature|
            #![trigger filters.contains_key(s)]
            filters.contains_key(s) && forall|j: int|
                0 <= j < 64 ==> #[trigger] s@[j] == data[j + 1];
        assert(filters.contains_key(s));
        assert(s@ =~= data.subrange(1, 65));
    }
}

proof fn lemma_same_filter<A>(s: Seq<A>, p: spec_fn(A) -> bool, q: spec_fn(A) -> bool)
    requires
        forall|i: int| 0 <= i < s.len() ==> p(#[trigger] s[i]) == q(s[i]),
    ensures
        s.filter(p) == s.filter(q),
    decreases s.len(),
{
    reveal(Seq::filter);
    if s.len() > 0 {
        assert forall|i: int| 0 <= i < s.drop_last().len() implies p(#[trigger] s.drop_last()[i])
            == q(s.drop_last()[i]) by {
            assert(s.drop_last()[i] == s[i]);
        }
        lemma_same_filter(s.drop_last(), p, q);
        assert(p(s[s.len() - 1]) == q(s[s.len() - 1]));
    }
}

/// A transaction is a count of signatures, a first signature and the rest. It is
/// blocked by a filter for that first signature and by no other, whatever the
/// count and the rest are.
pub proof fn law_the_first_signature_decides(
    filters: Map<Signature, u64>,
    count: u8,
    signature: Signature,
    rest: Seq<u8>,
)
    ensures
        blocks(filters, seq![count] + signature@ + rest) <==> filters.contains_key(signature),
{
    let data = seq![count] + signature@ + rest;
    lemma_blocks_is_carries(filters, data);
    assert forall|j: int| 0 <= j < 64 implies #[trigger] signature@[j] == data[j + 1] by {}
    if carries(filters, data) {
        let s = choose|s: Signature|
            #![trigger filters.contains_key(s)]
            filters.contains_key(s) && forall|j: int|
                0 <= j < 64 ==> #[trigger] s@[j] == data[j + 1];
        assert forall|j: int| 0 <= j < 64 implies #[trigger] s@[j] == signature@[j] by {}
        assert(s@ =~= signature@);
        assert(s =~= signature);
    }
}

/// What is too short to hold a signature is never blocked.
pub proof fn law_short_data_is_not_blocked(filters: Map<Signature, u64>, data: Seq<u8>)
    requires
        data.len() < 65,
    ensures
        !blocks(filters, data),
{
    lemma_blocks_is_carries(filters, data);
}

/// A datagram of a zero and a signature blocks every transaction with that first
/// signature for two seconds, and not longer; every other signature is blocked or
/// not as it was.
pub proof fn law_a_datagram_blocks_what_it_names(
    filters: Map<Signature, u64>,
    signature: Signature,
    at: u64,
    after: Map<Signature, u64>,
    now: u64,
    count: u8,
    rest: Seq<u8>,
    other: Signature,
)
    requires
        taken_in(filters, seq![0u8] + signature@, at, after),
        at <= now,
    ensures
        after.contains_key(signature),
        blocks(filters_in_force(after, now), seq![count] + signature@ + rest) <==> now < at
            + 2_000_000_000,
        other != signature ==> (blocks(filters_in_force(after, now), seq![count] + other@ + rest)
            <==> filters.contains_key(other) && now - filters[other] < 2_000_000_000),
{
    let datagram = seq![0u8] + signature@;
    assert(datagram.len() == 65);
    let s = choose|s: Signature|
        s@ == datagram.skip(1) && after == #[trigger] filters.insert(s, at);
    assert(datagram.skip(1) =~= signature@);
    assert(s@ =~= signature@);
    assert(s =~= signature);
    law_the_first_signature_decides(filters_in_force(after, now), count, signature, rest);
    law_the_first_signature_decides(filters_in_force(after, now), count, other, rest);
}

/// A datagram of any other length, or that begins with anything but a zero, blocks
/// nothing and lifts nothing.
pub proof fn law_other_datagrams_change_nothing(
    filters: Map<Signature, u64>,
    bytes: Seq<u8>,
    at: u64,
    after: Map<Signature, u64>,
)
    requires
        taken_in(filters, bytes, at, after),
        bytes.len() != 65 || bytes[0] != 0,
    ensures
        after == filters,
{
}

/// Of packets out of signature verification none comes or goes, and none changes
/// but for the mark: afterwards a packet is marked if it was before, or if it
/// carries a blocked signature.
pub proof fn law_blocked_packets_are_marked(
    filters: Map<Signature, u64>,
    before: Seq<Vec<BankingPacket>>,
    after: Seq<Vec<BankingPacket>>,
)
    requires
        batches_screened(filters, before, after),
    ensures
        after.len() == before.len(),
        forall|i: int|
            0 <= i < before.len() ==> (#[trigger] after[i])@.len() == before[i]@.len(),
        forall|i: int, j: int|
            #![trigger after[i]@[j]]
            0 <= i < before.len() && 0 <= j < before[i]@.len() ==> {
                &&& after[i]@[j].data == before[i]@[j].data
                &&& after[i]@[j].meta == before[i]@[j].meta
                &&& after[i]@[j].discard <==> before[i]@[j].discard || (before[i]@[j].data is Some
                    && carries(filters, before[i]@[j].data->0@))
            },
{
    assert forall|i: int| 0 <= i < before.len() implies (#[trigger] after[i])@.len()
        == before[i]@.len() by {
        assert(packets_screened(filters, before[i]@, after[i]@));
    }
    assert forall|i: int, j: int|
        #![trigger after[i]@[j]]
        0 <= i < before.len() && 0 <= j < before[i]@.len() implies {
        &&& after[i]@[j].data == before[i]@[j].data
        &&& after[i]@[j].meta == before[i]@[j].meta
        &&& after[i]@[j].discard <==> before[i]@[j].discard || (before[i]@[j].data is Some
            && carries(filters, before[i]@[j].data->0@))
    } by {
        assert(packets_screened(filters, before[i]@, after[i]@));
        assert(packet_screened(filters, before[i]@[j], after[i]@[j]));
        if before[i]@[j].data is Some {
            lemma_blocks_is_carries(filters, before[i]@[j].data->0@);
        }
    }
}

/// Of a block engine's packets those stay that carry no blocked signature: all of
/// them, in order, and no other. Nothing else of the message changes.
pub proof fn law_clear_packets_stay(
    filters: Map<Signature, u64>,
    before: SubscribePacketsResponse,
    after: SubscribePacketsResponse,
)
    requires
        be_packets_screened(filters, before, after),
    ensures
        after.header == before.header,
        after.batch is Some <==> before.batch is Some,
        before.batch is Some ==> (after.batch->0).packets@ == (before.batch->0).packets@.filter(
            clear_packet(filters),
        ),
        before.batch is Some ==> forall|i: int|
            0 <= i < (after.batch->0).packets@.len() ==> !carries(
                filters,
                (#[trigger] (after.batch->0).packets@[i]).data@,
            ),
{
    if before.batch is Some {
        let packets = (before.batch->0).packets@;
        assert forall|i: int| 0 <= i < packets.len() implies passes(filters)(#[trigger] packets[i])
            == clear_packet(filters)(packets[i]) by {
            lemma_blocks_is_carries(filters, packets[i].data@);
        }
        lemma_same_filter(packets, passes(filters), clear_packet(filters));
        assert forall|i: int| 0 <= i < (after.batch->0).packets@.len() implies !carries(
            filters,
            (#[trigger] (after.batch->0).packets@[i]).data@,
        ) by {
            packets.lemma_filter_pred(clear_packet(filters), i);
        }
    }
}

/// Of a block engine's bundles those stay in which no packet at all carries a
/// blocked signature: all of them, whole, in order, and no other.
pub proof fn law_clear_bundles_stay(
    filters: Map<Signature, u64>,
    before: SubscribeBundlesResponse,
    after: SubscribeBundlesResponse,
)
    requires
        be_bundles_screened(filters, before, after),
    ensures
        after.bundles@ == before.bundles@.filter(clear_bundle(filters)),
        forall|k: int, i: int|
            #![trigger (after.bundles@[k].bundle->0).packets@[i]]
            0 <= k < after.bundles@.len() && after.bundles@[k].bundle is Some && 0 <= i < (
            after.bundles@[k].bundle->0).packets@.len() ==> !carries(
                filters,
                (after.bundles@[k].bundle->0).packets@[i].data@,
            ),
        forall|k: int|
            0 <= k < before.bundles@.len() && clear_bundle(filters)(#[trigger] before.bundles@[k])
                ==> after.bundles@.contains(before.bundles@[k]),
{
    let bundles = before.bundles@;
    assert forall|k: int| 0 <= k < bundles.len() implies bundle_passes(filters)(
        #[trigger] bundles[k],
    ) == clear_bundle(filters)(bundles[k]) by {
        if bundles[k].bundle is Some {
            let b = bundles[k].bundle->0;
            assert forall|i: int| 0 <= i < b.packets@.len() implies blocks(
                filters,
                (#[trigger] b.packets@[i]).data@,
            ) == carries(filters, b.packets@[i].data@) by {
                lemma_blocks_is_carries(filters, b.packets@[i].data@);
            }
        }
    }
    lemma_same_filter(bundles, bundle_passes(filters), clear_bundle(filters));
    assert forall|k: int, i: int|
        #![trigger (after.bundles@[k].bundle->0).packets@[i]]
        0 <= k < after.bundles@.len() && after.bundles@[k].bundle is Some && 0 <= i < (
        after.bundles@[k].bundle->0).packets@.len() implies !carries(
        filters,
        (after.bundles@[k].bundle->0).packets@[i].data@,
    ) by {
        bundles.lemma_filter_pred(clear_bundle(filters), k);
    }
    assert forall|k: int|
        0 <= k < bundles.len() && clear_bundle(filters)(
            #[trigger] bundles[k],
        ) implies after.bundles@.contains(bundles[k]) by {
        bundles.lemma_filter_contains(clear_bundle(filters), k);
    }
}

/// `n` items at the head of a queue are those that are let go at `now`: each of
/// them is due, and the one behind them is not.
pub open spec fn head_is_due<T>(queue: Seq<(u64, T)>, now: u64, n: nat) -> bool {
    &&& n <= queue.len()
    &&& forall|i: int| 0 <= i < n ==> (#[trigger] queue[i]).0 <= now
    &&& n < queue.len() ==> queue[n as int].0 > now
}

/// Messages with bundles that were held back go on when they are due, one by one
/// and in order, each with those of its bundles in which no packet carries a
/// signature that is blocked at that time.
pub proof fn law_held_bundles_are_filtered_on_release(
    queue: Seq<(u64, SubscribeBundlesResponse)>,
    now: u64,
    filters: Map<Signature, u64>,
    released: Seq<SubscribeBundlesResponse>,
)
    requires
        released_from(queue, now, filters, released),
    ensures
        head_is_due(queue, now, released.len()),
        forall|i: int|
            0 <= i < released.len() ==> (#[trigger] released[i]).bundles@
                == queue[i].1.bundles@.filter(clear_bundle(filters)),
{
    law_release_splits_the_queue(queue, now);
    assert forall|i: int| 0 <= i < released.len() implies (#[trigger] released[i]).bundles@
        == queue[i].1.bundles@.filter(clear_bundle(filters)) by {
        law_clear_bundles_stay(filters, queue[i].1, released[i]);
    }
}

/// Messages with packets that were held back go on when they are due, one by one
/// and in order, each with those of its packets that carry no signature that is
/// blocked at that time.
pub proof fn law_held_packets_are_filtered_on_release(
    queue: Seq<(u64, SubscribePacketsResponse)>,
    now: u64,
    filters: Map<Signature, u64>,
    released: Seq<SubscribePacketsResponse>,
)
    requires
        released_from(queue, now, filters, released),
    ensures
        head_is_due(queue, now, released.len()),
        forall|i: int|
            0 <= i < released.len() ==> {
                &&& (#[trigger] released[i]).header == queue[i].1.header
                &&& released[i].batch is Some <==> queue[i].1.batch is Some
                &&& queue[i].1.batch is Some ==> (released[i].batch->0).packets@ == (
                queue[i].1.batch->0).packets@.filter(clear_packet(filters))
            },
{
    law_release_splits_the_queue(queue, now);
    assert forall|i: int| 0 <= i < released.len() implies {
        &&& (#[trigger] released[i]).header == queue[i].1.header
        &&& released[i].batch is Some <==> queue[i].1.batch is Some
        &&& queue[i].1.batch is Some ==> (released[i].batch->0).packets@ == (
        queue[i].1.batch->0).packets@.filter(clear_packet(filters))
    } by {
        law_clear_packets_stay(filters, queue[i].1, released[i]);
    }
}

/// Packets out of signature verification that were held back go on when they are
/// due, batch by batch and in order; marked are those that were, and those that
/// carry a signature that is blocked at that time.
pub proof fn law_held_batches_are_filtered_on_release(
    queue: Seq<(u64, BankingPacketBatch)>,
    now: u64,
    filters: Map<Signature, u64>,
    released: Seq<BankingPacketBatch>,
    k: int,
)
    requires
        released_from(queue, now, filters, released),
        0 <= k < released.len(),
    ensures
        head_is_due(queue, now, released.len()),
        released[k]@.len() == queue[k].1@.len(),
        forall|i: int|
            0 <= i < released[k]@.len() ==> (#[trigger] released[k]@[i])@.len()
                == queue[k].1@[i]@.len(),
        forall|i: int, j: int|
            #![trigger released[k]@[i]@[j]]
            0 <= i < released[k]@.len() && 0 <= j < released[k]@[i]@.len() ==> {
                &&& released[k]@[i]@[j].data == queue[k].1@[i]@[j].data
                &&& released[k]@[i]@[j].meta == queue[k].1@[i]@[j].meta
                &&& released[k]@[i]@[j].discard <==> queue[k].1@[i]@[j].discard || (
                queue[k].1@[i]@[j].data is Some && carries(
                    filters,
                    queue[k].1@[i]@[j].data->0@,
                ))
            },
{
    law_release_splits_the_queue(queue, now);
    assert(queue[k].1.screens_to(filters, released[k]));
    law_blocked_packets_are_marked(filters, queue[k].1@, released[k]@);
}

} // verus!
