use inertia_relayer::protos::block_engine::SubscribeBundlesResponse;
use inertia_relayer::protos::block_engine::SubscribePacketsResponse;
use inertia_relayer::protos::bundle::Bundle;
use inertia_relayer::protos::bundle::BundleUuid;
use inertia_relayer::protos::packet::BankingPacket;
use inertia_relayer::protos::packet::Meta;
use inertia_relayer::protos::packet::Packet;
use inertia_relayer::protos::packet::PacketBatch;
use inertia_relayer::protos::shared::Header;
use inertia_relayer::protos::shared::Timestamp;
use inertia_relayer::proxy::filter_set::FilterSet;
use inertia_relayer::proxy::packets::discard_filtered;
use inertia_relayer::proxy::packets::filter_be_bundles;
use inertia_relayer::proxy::packets::filter_be_packets;
use inertia_relayer::proxy::packets::first_signature;
use inertia_relayer::proxy::packets::is_blocked;

fn meta() -> Meta {
    Meta { size: 70, addr: "10.0.0.1".to_string(), port: 8000, flags: None, sender_stake: 5 }
}

fn transaction(signature: u8) -> Vec<u8> {
    let mut data = vec![1u8];
    data.extend_from_slice(&[signature; 64]);
    data.extend_from_slice(b"tail");
    data
}

fn banking(signature: u8) -> BankingPacket {
    BankingPacket { discard: false, data: Some(transaction(signature)), meta: meta() }
}

fn packet(signature: u8) -> Packet {
    Packet { data: transaction(signature), meta: Some(meta()) }
}

fn blocking(signatures: &[u8]) -> FilterSet {
    let mut filters = FilterSet::default();
    for s in signatures {
        filters.insert_at([*s; 64], 0);
    }
    filters
}

#[test]
fn a_signature_takes_the_bytes_behind_the_first() {
    let data: Vec<u8> = (0..70).collect();
    let signature = first_signature(&data).unwrap();
    assert_eq!(signature[0], 1);
    assert_eq!(signature[63], 64);
    assert_eq!(first_signature(&data[..65]), Some(signature));
    assert_eq!(first_signature(&data[..64]), None);
    assert_eq!(first_signature(&[]), None);
}

#[test]
fn filters_hold_for_two_seconds() {
    let mut filters = FilterSet::default();
    assert!(filters.is_empty());
    filters.insert_at([7; 64], 1_000);
    assert!(!filters.is_empty());
    filters.sweep_at(1_000 + FilterSet::TTL - 1);
    assert!(filters.contains_key(&[7; 64]));
    filters.sweep_at(1_000 + FilterSet::TTL);
    assert!(!filters.contains_key(&[7; 64]));
    assert!(filters.is_empty());
    assert_eq!(FilterSet::TTL, 2_000_000_000);
}

#[test]
fn a_filter_that_is_set_again_starts_anew() {
    let mut filters = FilterSet::default();
    filters.insert_at([7; 64], 0);
    filters.insert_at([7; 64], 1_500_000_000);
    filters.sweep_at(3_000_000_000);
    assert!(filters.contains_key(&[7; 64]));
}

#[test]
fn filters_that_share_a_prefix_are_told_apart() {
    let first = [7u8; 64];
    let mut second = [7u8; 64];
    second[63] = 8;
    let mut filters = FilterSet::default();
    filters.insert_at(first, 0);
    assert!(!filters.contains_key(&second));
    filters.insert_at(second, 1_000_000_000);
    filters.sweep_at(2_000_000_000);
    assert!(!filters.contains_key(&first));
    assert!(filters.contains_key(&second));
}

#[test]
fn sweeping_more_often_leaves_the_same_filters() {
    let mut often = FilterSet::default();
    let mut once = FilterSet::default();
    for i in 0..20u8 {
        often.insert_at([i; 64], i as u64 * 200_000_000);
        once.insert_at([i; 64], i as u64 * 200_000_000);
    }
    for t in 0..5u64 {
        often.sweep_at(t * 1_000_000_000);
    }
    once.sweep_at(4_000_000_000);
    for i in 0..20u8 {
        assert_eq!(often.contains_key(&[i; 64]), once.contains_key(&[i; 64]));
        assert_eq!(once.contains_key(&[i; 64]), i > 10);
    }
}

#[test]
fn the_clock_of_a_filter_set_runs() {
    let mut filters = FilterSet::default();
    let before = filters.now();
    filters.insert([9; 64]);
    filters.sweep();
    assert!(filters.contains_key(&[9; 64]));
    assert!(filters.now() >= before);
}

#[test]
fn blocked_packets_are_marked() {
    let filters = blocking(&[2]);
    let unreadable = BankingPacket { discard: false, data: None, meta: meta() };
    let short = BankingPacket { discard: false, data: Some(vec![2; 64]), meta: meta() };
    let ignored = BankingPacket { discard: true, ..banking(1) };
    let before = vec![
        vec![banking(1), banking(2), ignored.clone()],
        vec![],
        vec![unreadable.clone(), short.clone(), banking(2)],
    ];
    let marked = BankingPacket { discard: true, ..banking(2) };
    let after = vec![
        vec![banking(1), marked.clone(), ignored],
        vec![],
        vec![unreadable, short, marked],
    ];
    assert_eq!(discard_filtered(&filters, before), after);
}

#[test]
fn without_filters_nothing_changes() {
    let filters = FilterSet::default();
    let batches = vec![vec![banking(1), banking(2)]];
    assert_eq!(discard_filtered(&filters, batches.clone()), batches);
    let packets =
        SubscribePacketsResponse { header: None, batch: Some(PacketBatch { packets: vec![packet(1)] }) };
    assert_eq!(filter_be_packets(&filters, packets.clone()), packets);
    let bundles = SubscribeBundlesResponse {
        bundles: vec![BundleUuid { bundle: None, uuid: "u".to_string() }],
    };
    assert_eq!(filter_be_bundles(&filters, bundles.clone()), bundles);
}

#[test]
fn blocked_packets_of_the_block_engine_are_taken_out() {
    let filters = blocking(&[2, 4]);
    let header = Some(Header { ts: Some(Timestamp { seconds: 5, nanos: 6 }) });
    let before = SubscribePacketsResponse {
        header,
        batch: Some(PacketBatch { packets: vec![packet(1), packet(2), packet(3), packet(4)] }),
    };
    let after = SubscribePacketsResponse {
        header,
        batch: Some(PacketBatch { packets: vec![packet(1), packet(3)] }),
    };
    assert_eq!(filter_be_packets(&filters, before), after);
    let empty = SubscribePacketsResponse { header, batch: None };
    assert_eq!(filter_be_packets(&filters, empty.clone()), empty);
}

#[test]
fn a_bundle_with_a_blocked_packet_is_taken_out_whole() {
    let filters = blocking(&[2]);
    let good = BundleUuid {
        bundle: Some(Bundle { header: None, packets: vec![packet(1), packet(3)] }),
        uuid: "good".to_string(),
    };
    let bad = BundleUuid {
        bundle: Some(Bundle { header: None, packets: vec![packet(1), packet(2)] }),
        uuid: "bad".to_string(),
    };
    let hollow = BundleUuid { bundle: None, uuid: "hollow".to_string() };
    let before = SubscribeBundlesResponse { bundles: vec![bad, good.clone(), hollow.clone()] };
    let after = SubscribeBundlesResponse { bundles: vec![good, hollow] };
    assert_eq!(filter_be_bundles(&filters, before), after);
}

#[test]
fn only_the_first_signature_counts() {
    let filters = blocking(&[2]);
    let mut data = transaction(1);
    data.extend_from_slice(&[2; 64]);
    assert!(!is_blocked(&filters, &data));
    assert!(is_blocked(&filters, &transaction(2)));
}
