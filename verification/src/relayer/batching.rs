//! Which packets go to the validator, and in which batches.

use crate::protos::packet::BankingPacket;
use crate::protos::packet::BankingPacketBatch;
use crate::protos::packet::Packet;
use crate::protos::packet::PacketBatch;
use crate::protos::packet::PacketView;
use crate::protos::packet::packets_view;
use crate::proxy::filter_set::Signature;
use crate::proxy::packets::banking_payload;
use crate::proxy::packets::banking_payloads;
use crate::proxy::packets::batch_payloads;
use crate::proxy::packets::batches_screened;
use crate::proxy::packets::blocks;
use crate::proxy::packets::packet_screened;
use crate::proxy::packets::packets_screened;
use vstd::prelude::*;

verus! {

/// The packet that goes to the validator for one out of signature verification.
/// A packet that is to be ignored, or whose bytes cannot be read, does not go.
pub open spec fn forwarded_packet(packet: BankingPacket) -> Option<PacketView> {
    if packet.discard {
        None
    } else {
        match packet.data {
            Some(data) => Some(PacketView { data: data@, meta: Some(packet.meta) }),
            None => None,
        }
    }
}

/// The packets of a batch that go to the validator, in order.
pub open spec fn forwarded_of_batch(packets: Seq<BankingPacket>) -> Seq<PacketView>
    decreases packets.len(),
{
    if packets.len() == 0 {
        Seq::empty()
    } else {
        let before = forwarded_of_batch(packets.drop_last());
        match forwarded_packet(packets.last()) {
            Some(packet) => before.push(packet),
            None => before,
        }
    }
}

/// The packets of all batches that go to the validator, in order.
pub open spec fn forwarded_packets(batches: Seq<Vec<BankingPacket>>) -> Seq<PacketView>
    decreases batches.len(),
{
    if batches.len() == 0 {
        Seq::empty()
    } else {
        forwarded_packets(batches.drop_last()) + forwarded_of_batch(batches.last()@)
    }
}

/// How many batches of at most `size` packets it takes.
pub open spec fn batch_count(packets: nat, size: nat) -> nat {
    (packets + size - 1) as nat / size
}

/// Packets cut into batches of `size`; the last may be shorter, none is empty.
pub open spec fn in_batches(packets: Seq<PacketView>, size: nat) -> Seq<Seq<PacketView>> {
    Seq::new(
        batch_count(packets.len(), size),
        |i: int|
            packets.subrange(
                i * size,
                if (i + 1) * size <= packets.len() {
                    (i + 1) * size
                } else {
                    packets.len() as int
                },
            ),
    )
}

/// Batches that were filled one packet at a time.
spec fn filled(
    packets: Seq<PacketView>,
    batches: Seq<PacketBatch>,
    current: Seq<Packet>,
    size: nat,
) -> bool {
    &&& packets.len() == batches.len() * size + current.len()
    &&& current.len() < size
    &&& packets_view(current) == packets.skip((batches.len() * size) as int)
    &&& forall|i: int|
        0 <= i < batches.len() ==> (#[trigger] batches[i])@ == packets.subrange(
            i * size,
            (i + 1) * size,
        )
}

proof fn lemma_filled_one_more(
    packets: Seq<PacketView>,
    batches: Seq<PacketBatch>,
    current: Seq<Packet>,
    size: nat,
    packet: Packet,
)
    requires
        filled(packets, batches, current, size),
    ensures
        current.len() + 1 < size ==> filled(
            packets.push(packet@),
            batches,
            current.push(packet),
            size,
        ),
        current.len() + 1 == size ==> forall|batch: PacketBatch|
            batch.packets@ == current.push(packet) ==> #[trigger] filled(
                packets.push(packet@),
                batches.push(batch),
                Seq::empty(),
                size,
            ),
{
    let n = batches.len() as int;
    let all = packets.push(packet@);
    assert(0 <= n * size <= packets.len()) by (nonlinear_arith)
        requires
            packets.len() == n * size + current.len(),
            n >= 0,
            size >= 0,
            current.len() >= 0,
    ;
    assert(packets_view(current.push(packet)) =~= packets_view(current).push(packet@));
    assert(all.skip(n * size) =~= packets.skip(n * size).push(packet@));
    assert forall|i: int| 0 <= i < n implies (#[trigger] batches[i])@ == all.subrange(
        i * size,
        (i + 1) * size,
    ) by {
        assert(0 <= i * size && (i + 1) * size <= n * size) by (nonlinear_arith)
            requires
                0 <= i < n,
                size >= 0,
        ;
        assert(i * size <= (i + 1) * size) by (nonlinear_arith)
            requires
                0 <= i,
                size >= 0,
        ;
        assert(packets.subrange(i * size, (i + 1) * size) =~= all.subrange(
            i * size,
            (i + 1) * size,
        ));
    }
    if current.len() + 1 == size {
        assert forall|batch: PacketBatch| batch.packets@ == current.push(packet) implies #[trigger] filled(
            all,
            batches.push(batch),
            Seq::empty(),
            size,
        ) by {
            let more = batches.push(batch);
            assert((n + 1) * size == n * size + size) by (nonlinear_arith);
            assert(all.len() == (n + 1) * size);
            assert(packets_view(Seq::<Packet>::empty()) =~= all.skip((n + 1) * size));
            assert forall|i: int| 0 <= i < more.len() implies (#[trigger] more[i])@ == all.subrange(
                i * size,
                (i + 1) * size,
            ) by {
                if i < n {
                    assert(more[i] == batches[i]);
                } else {
                    assert(all.subrange(n * size, (n + 1) * size) =~= all.skip(n * size));
                }
            }
        }
    }
}

proof fn lemma_filled_is_cut(
    packets: Seq<PacketView>,
    batches: Seq<PacketBatch>,
    current: Seq<Packet>,
    last: PacketBatch,
    size: nat,
)
    requires
        filled(packets, batches, current, size),
        last.packets@ == current,
    ensures
        current.len() == 0 ==> batches.map_values(|b: PacketBatch| b@) == in_batches(packets, size),
        current.len() > 0 ==> batches.push(last).map_values(|b: PacketBatch| b@) == in_batches(
            packets,
            size,
        ),
{
    let n = batches.len() as int;
    let cut = in_batches(packets, size);
    let view = |b: PacketBatch| b@;
    if current.len() == 0 {
        assert(batch_count(packets.len(), size) == n) by (nonlinear_arith)
            requires
                packets.len() == n * size,
                size > 0,
                n >= 0,
                batch_count(packets.len(), size) == (packets.len() + size - 1) as nat / size,
        ;
        assert forall|i: int| 0 <= i < n implies (#[trigger] batches[i])@ == cut[i] by {
            assert(0 <= i * size <= (i + 1) * size <= n * size) by (nonlinear_arith)
                requires
                    0 <= i < n,
                    size >= 0,
            ;
        }
        assert(batches.map_values(view) =~= cut);
    } else {
        assert(batch_count(packets.len(), size) == n + 1) by (nonlinear_arith)
            requires
                packets.len() == n * size + current.len(),
                0 < current.len() < size,
                n >= 0,
                batch_count(packets.len(), size) == (packets.len() + size - 1) as nat / size,
        ;
        assert forall|i: int| 0 <= i < n implies (#[trigger] batches[i])@ == cut[i] by {
            assert(0 <= i * size <= (i + 1) * size <= n * size) by (nonlinear_arith)
                requires
                    0 <= i < n,
                    size >= 0,
            ;
        }
        let more = batches.push(last);
        assert((n + 1) * size == n * size + size) by (nonlinear_arith);
        assert(packets.skip(n * size) =~= packets.subrange(n * size, packets.len() as int));
        assert forall|i: int| 0 <= i < n + 1 implies #[trigger] more.map_values(view)[i]
            == cut[i] by {
            if i < n {
                assert(more[i] == batches[i]);
            }
        }
        assert(more.map_values(view) =~= cut);
    }
}

/// The packet that goes to the validator for one out of signature verification.
fn packet_to_proto_packet(packet: &BankingPacket) -> (r: Option<Packet>)
    ensures
        match r {
            Some(p) => forwarded_packet(*packet) == Some(p@),
            None => forwarded_packet(*packet) is None,
        },
{
    if packet.discard {
        return None;
    }
    match &packet.data {
        Some(data) => {
            let bytes = data.clone();
            assert(bytes@ =~= data@);
            Some(Packet { data: bytes, meta: Some(packet.meta.copy()) })
        },
        None => None,
    }
}

/// Cuts what goes to the validator into batches of `batch_size`.
pub fn packet_batches_of(packet_batches: &BankingPacketBatch, batch_size: usize) -> (r: Vec<
    PacketBatch,
>)
    requires
        batch_size > 0,
    ensures
        r@.map_values(|b: PacketBatch| b@) == in_batches(
            forwarded_packets(packet_batches@),
            batch_size as nat,
        ),
{
    let ghost size = batch_size as nat;
    let mut r: Vec<PacketBatch> = Vec::new();
    let mut current: Vec<Packet> = Vec::new();
    let n: usize = packet_batches.len();
    let mut i: usize = 0;
    assert(packets_view(current@) =~= Seq::<PacketView>::empty().skip(0));
    while i < n
        invariant
            i <= n,
            n == packet_batches@.len(),
            size == batch_size as nat,
            filled(forwarded_packets(packet_batches@.take(i as int)), r@, current@, size),
        decreases n - i,
    {
        let batch = &packet_batches[i];
        let ghost done = forwarded_packets(packet_batches@.take(i as int));
        let m: usize = batch.len();
        let mut j: usize = 0;
        assert(done + forwarded_of_batch(batch@.take(0)) =~= done);
        while j < m
            invariant
                j <= m,
                m == batch@.len(),
                size == batch_size as nat,
                filled(done + forwarded_of_batch(batch@.take(j as int)), r@, current@, size),
            decreases m - j,
        {
            let ghost packets = done + forwarded_of_batch(batch@.take(j as int));
            let ghost filled_before = current@;
            proof {
                let next = batch@.take(j + 1);
                assert(next.drop_last() =~= batch@.take(j as int));
                assert(next.last() == batch@[j as int]);
            }
            match packet_to_proto_packet(&batch[j]) {
                Some(packet) => {
                    proof {
                        lemma_filled_one_more(packets, r@, current@, size, packet);
                        assert(done + forwarded_of_batch(batch@.take(j + 1)) =~= packets.push(
                            packet@,
                        ));
                    }
                    current.push(packet);
                    if current.len() == batch_size {
                        let mut full: Vec<Packet> = Vec::new();
                        std::mem::swap(&mut full, &mut current);
                        let ghost batches_before = r@;
                        let complete = PacketBatch { packets: full };
                        r.push(complete);
                        assert(current@ =~= Seq::<Packet>::empty());
                        assert(filled(
                            packets.push(packet@),
                            batches_before.push(complete),
                            Seq::empty(),
                            size,
                        ));
                    }
                },
                None => {},
            }
            j += 1;
        }
        proof {
            let next = packet_batches@.take(i + 1);
            assert(next.drop_last() =~= packet_batches@.take(i as int));
            assert(next.last() == packet_batches@[i as int]);
            assert(batch@.take(m as int) =~= batch@);
        }
        i += 1;
    }
    let ghost batches = r@;
    let ghost rest = current@;
    assert(packet_batches@.take(n as int) =~= packet_batches@);
    let last = PacketBatch { packets: current };
    proof {
        lemma_filled_is_cut(forwarded_packets(packet_batches@), batches, rest, last, size);
    }
    if last.packets.len() > 0 {
        r.push(last);
    }
    r
}

/// Cutting packets into batches loses none, doubles none and keeps their order.
pub proof fn law_batches_hold_every_packet(packets: Seq<PacketView>, size: nat)
    requires
        size > 0,
    ensures
        in_batches(packets, size).flatten() == packets,
        forall|i: int|
            0 <= i < in_batches(packets, size).len() ==> 0 < (#[trigger] in_batches(
                packets,
                size,
            )[i]).len() <= size,
    decreases packets.len(),
{
    let cut = in_batches(packets, size);
    let n = cut.len() as int;
    assert(n == batch_count(packets.len(), size));
    assert(n * size >= packets.len() && (n > 0 ==> (n - 1) * size < packets.len())) by (
    nonlinear_arith)
        requires
            n == (packets.len() + size - 1) as nat / size,
            size > 0,
    ;
    assert forall|i: int| 0 <= i < n implies 0 < (#[trigger] cut[i]).len() <= size by {
        assert(0 <= i * size && i * size <= (n - 1) * size && (i + 1) * size == i * size + size)
            by (nonlinear_arith)
            requires
                0 <= i <= n - 1,
                size > 0,
        ;
    }
    if packets.len() == 0 {
        assert(n == 0) by (nonlinear_arith)
            requires
                n == (packets.len() + size - 1) as nat / size,
                packets.len() == 0,
                size > 0,
        ;
        assert(cut =~= Seq::<Seq<PacketView>>::empty());
        assert(cut.flatten() =~= packets);
    } else {
        assert(n > 0) by (nonlinear_arith)
            requires
                n * size >= packets.len(),
                packets.len() > 0,
                size > 0,
        ;
        let first = (n - 1) * size;
        let before = packets.take(first);
        assert(0 <= first) by (nonlinear_arith)
            requires
                first == (n - 1) * size,
                n > 0,
                size > 0,
        ;
        assert(batch_count(before.len(), size) == n - 1) by (nonlinear_arith)
            requires
                before.len() == (n - 1) * size,
                n > 0,
                size > 0,
                batch_count(before.len(), size) == (before.len() + size - 1) as nat / size,
        ;
        assert(n * size == first + size) by (nonlinear_arith)
            requires
                first == (n - 1) * size,
        ;
        let cut_before = in_batches(before, size);
        assert forall|i: int| 0 <= i < n - 1 implies #[trigger] cut_before[i] == cut[i] by {
            assert(0 <= i * size <= (i + 1) * size <= first) by (nonlinear_arith)
                requires
                    0 <= i < n - 1,
                    first == (n - 1) * size,
                    size > 0,
            ;
            assert(cut_before[i] =~= cut[i]);
        }
        assert(cut.drop_last() =~= cut_before);
        law_batches_hold_every_packet(before, size);
        cut.lemma_flatten_and_flatten_alt_are_equivalent();
        cut_before.lemma_flatten_and_flatten_alt_are_equivalent();
        assert(cut.last() == packets.skip(first));
        assert(before + packets.skip(first) =~= packets);
    }
}

/// Tells the packets that are not blocked.
pub open spec fn unblocked(filters: Map<Signature, u64>) -> spec_fn(PacketView) -> bool {
    |p: PacketView| !blocks(filters, p.data)
}

proof fn lemma_filters_apply_to_a_batch(
    filters: Map<Signature, u64>,
    before: Seq<BankingPacket>,
    after: Seq<BankingPacket>,
)
    requires
        packets_screened(filters, before, after),
    ensures
        forwarded_of_batch(after) == forwarded_of_batch(before).filter(unblocked(filters)),
    decreases before.len(),
{
    let keep = unblocked(filters);
    reveal(Seq::filter);
    if before.len() > 0 {
        let shorter = before.drop_last();
        assert forall|j: int| 0 <= j < shorter.len() implies packet_screened(
            filters,
            shorter[j],
            #[trigger] after.drop_last()[j],
        ) by {
            assert(after.drop_last()[j] == after[j]);
        }
        lemma_filters_apply_to_a_batch(filters, shorter, after.drop_last());
        assert(after.last() == after[after.len() - 1]);
        match forwarded_packet(before.last()) {
            Some(packet) => {
                forwarded_of_batch(shorter).lemma_filter_push(packet, keep);
            },
            None => {},
        }
    }
}

/// Of the packets that came in, the validator gets those that are not blocked
/// when they are let go: all of them, in order, and no other.
pub proof fn law_filters_apply_to_what_is_forwarded(
    filters: Map<Signature, u64>,
    before: Seq<Vec<BankingPacket>>,
    after: Seq<Vec<BankingPacket>>,
)
    requires
        batches_screened(filters, before, after),
    ensures
        forwarded_packets(after) == forwarded_packets(before).filter(unblocked(filters)),
    decreases before.len(),
{
    let keep = unblocked(filters);
    if before.len() == 0 {
        reveal(Seq::filter);
    } else {
        let shorter = before.drop_last();
        assert forall|i: int| 0 <= i < shorter.len() implies packets_screened(
            filters,
            shorter[i]@,
            (#[trigger] after.drop_last()[i])@,
        ) by {
            assert(after.drop_last()[i] == after[i]);
        }
        law_filters_apply_to_what_is_forwarded(filters, shorter, after.drop_last());
        assert(after.last() == after[after.len() - 1]);
        lemma_filters_apply_to_a_batch(filters, before.last()@, after.last()@);
        Seq::filter_distributes_over_add(
            forwarded_packets(shorter),
            forwarded_of_batch(before.last()@),
            keep,
        );
    }
}

proof fn lemma_mirrored_of_a_batch(packets: Seq<BankingPacket>)
    ensures
        batch_payloads(packets) == forwarded_of_batch(packets).map_values(|p: PacketView| p.data),
    decreases packets.len(),
{
    reveal_with_fuel(Seq::filter_map, 1);
    let data = |p: PacketView| p.data;
    if packets.len() == 0 {
        assert(batch_payloads(packets) =~= forwarded_of_batch(packets).map_values(data));
    } else {
        let before = packets.drop_last();
        lemma_mirrored_of_a_batch(before);
        match forwarded_packet(packets.last()) {
            Some(packet) => {
                assert(banking_payload(packets.last()) == Some(packet.data));
                assert(batch_payloads(packets) =~= batch_payloads(before).push(packet.data));
                assert(forwarded_of_batch(before).push(packet).map_values(data)
                    =~= forwarded_of_batch(before).map_values(data).push(packet.data));
            },
            None => {
                assert(banking_payload(packets.last()) is None);
            },
        }
    }
}

/// What is mirrored of packets as they come in is what the validator would get of
/// them if nothing were blocked.
pub proof fn law_all_that_could_be_forwarded_is_mirrored(batches: Seq<Vec<BankingPacket>>)
    ensures
        banking_payloads(batches) == forwarded_packets(batches).map_values(
            |p: PacketView| p.data,
        ),
    decreases batches.len(),
{
    let data = |p: PacketView| p.data;
    if batches.len() == 0 {
        assert(banking_payloads(batches) =~= forwarded_packets(batches).map_values(data));
    } else {
        let before = batches.drop_last();
        law_all_that_could_be_forwarded_is_mirrored(before);
        lemma_mirrored_of_a_batch(batches.last()@);
        assert(forwarded_packets(batches).map_values(data) =~= forwarded_packets(before).map_values(
            data,
        ) + forwarded_of_batch(batches.last()@).map_values(data));
    }
}

} // verus!
