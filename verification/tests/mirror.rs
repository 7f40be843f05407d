use inertia_relayer::protos::block_engine::SubscribePacketsResponse;
use inertia_relayer::protos::packet::BankingPacket;
use inertia_relayer::protos::packet::Meta;
use inertia_relayer::protos::packet::Packet;
use inertia_relayer::protos::packet::PacketBatch;
use inertia_relayer::proxy::bundle_stream::InAction;
use inertia_relayer::proxy::bundle_stream::InEvent;
use inertia_relayer::proxy::bundle_stream::OutAction;
use inertia_relayer::proxy::bundle_stream::OutEvent;
use inertia_relayer::proxy::filter_set::FilterSet;
use inertia_relayer::proxy::mirror::parse_filter;
use inertia_relayer::proxy::mirror::ControlReporter;
use inertia_relayer::proxy::mirror::Mirror;
use inertia_relayer::proxy::packets::mirror_banking_batch;
use inertia_relayer::proxy::packets::mirror_be_packets;
use inertia_relayer::proxy::session::Link;
use inertia_relayer::proxy::session::LinkAction;
use inertia_relayer::proxy::session::LinkEvent;
use inertia_relayer::proxy::stats::Activity;
use inertia_relayer::proxy::stats::Drops;
use inertia_relayer::proxy::stats::MirrorStats;
use inertia_relayer::proxy::stats::SendOutcome;
use inertia_relayer::proxy::stats::StatsReport;
use inertia_relayer::proxy::Proxy;

fn connected() -> Mirror {
    let mut mirror = Mirror::new([0; 32]);
    mirror.set(true);
    mirror
}

fn banking(discard: bool, data: Option<&[u8]>) -> BankingPacket {
    BankingPacket {
        discard,
        data: data.map(|d| d.to_vec()),
        meta: Meta { size: 0, addr: String::new(), port: 0, flags: None, sender_stake: 0 },
    }
}

#[test]
fn a_datagram_is_source_time_and_payload() {
    let mut mirror = connected();
    let frame = mirror.send_at(1, 0x0807_0605_0403_0201, b"xyz").unwrap();
    assert_eq!(&frame[..], &[1, 1, 2, 3, 4, 5, 6, 7, 8, b'x', b'y', b'z']);
    let next = mirror.send_at(2, 0, b"").unwrap();
    assert_eq!(&next[..], &[2, 0, 0, 0, 0, 0, 0, 0, 0]);
}

#[test]
fn datagrams_are_independent_of_each_other() {
    let mut mirror = connected();
    let big = vec![7u8; 100_000];
    let first = mirror.send_at(0, 1, &big).unwrap();
    let second = mirror.send_at(1, 2, b"ab").unwrap();
    assert_eq!(first.len(), 100_009);
    assert_eq!(&first[9..], &big[..]);
    assert_eq!(&second[9..], b"ab");
}

#[test]
fn nothing_is_sent_while_the_link_is_down() {
    let mut mirror = Mirror::new([0; 32]);
    assert!(mirror.send(0, b"abc").is_none());
    mirror.set(true);
    let frame = mirror.send(0, b"abc").unwrap();
    assert_eq!(frame.len(), 12);
    assert_eq!(frame[0], 0);
    assert_eq!(&frame[9..], b"abc");
    mirror.set(false);
    assert!(mirror.send(0, b"abc").is_none());
}

#[test]
fn the_time_of_a_datagram_is_the_time_of_day() {
    let mut mirror = connected();
    let frame = mirror.send(0, b"").unwrap();
    let mut bytes = [0u8; 8];
    bytes.copy_from_slice(&frame[1..9]);
    // Some time after the year 2020.
    assert!(u64::from_le_bytes(bytes) > 1_577_836_800_000_000_000);
}

#[test]
fn packets_that_are_ignored_or_unreadable_are_not_mirrored() {
    let mut mirror = connected();
    let batch = vec![
        vec![banking(false, Some(b"a")), banking(true, Some(b"b"))],
        vec![banking(false, None), banking(false, Some(b"c"))],
    ];
    let frames = mirror_banking_batch(&mut mirror, &batch);
    let payloads: Vec<&[u8]> = frames.iter().map(|f| &f[9..]).collect();
    assert_eq!(payloads, vec![&b"a"[..], &b"c"[..]]);
    assert!(frames.iter().all(|f| f[0] == Proxy::SOURCE_RELAYER));
    mirror.set(false);
    assert!(mirror_banking_batch(&mut mirror, &batch).is_empty());
}

#[test]
fn packets_of_the_block_engine_are_mirrored_in_order() {
    let mut mirror = connected();
    let packet = |d: &[u8]| Packet { data: d.to_vec(), meta: None };
    let resp = SubscribePacketsResponse {
        header: None,
        batch: Some(PacketBatch { packets: vec![packet(b"1"), packet(b""), packet(b"3")] }),
    };
    let frames = mirror_be_packets(&mut mirror, &resp);
    let payloads: Vec<&[u8]> = frames.iter().map(|f| &f[9..]).collect();
    assert_eq!(payloads, vec![&b"1"[..], &b""[..], &b"3"[..]]);
    assert!(frames.iter().all(|f| f[0] == Proxy::SOURCE_BLOCKENGINE));
    let none = SubscribePacketsResponse { header: None, batch: None };
    assert!(mirror_be_packets(&mut mirror, &none).is_empty());
}

#[test]
fn a_filter_is_a_tag_and_a_signature() {
    let mut datagram = vec![Mirror::FILTER_TAG];
    datagram.extend_from_slice(&[3; 64]);
    assert_eq!(parse_filter(&datagram), Some([3; 64]));
    assert_eq!(parse_filter(&datagram[..64]), None);
    let mut long = datagram.clone();
    long.push(0);
    assert_eq!(parse_filter(&long), None);
    datagram[0] = 1;
    assert_eq!(parse_filter(&datagram), None);
    assert_eq!(parse_filter(&[]), None);
}

#[test]
fn a_filter_blocks_and_counts() {
    let mut mirror = connected();
    let mut filters = FilterSet::default();
    let mut datagram = vec![Mirror::FILTER_TAG];
    datagram.extend_from_slice(&[3; 64]);
    mirror.ingest_filter(&mut filters, &datagram);
    assert!(filters.contains_key(&[3; 64]));
    assert_eq!(mirror.stats.filters_received, 1);
    mirror.ingest_filter_at(&mut filters, b"junk", 5);
    assert_eq!(mirror.stats.filters_received, 1);
    assert!(!filters.contains_key(&[4; 64]));
}

#[test]
fn outcomes_are_counted_by_source() {
    let mut mirror = connected();
    mirror.record_send(Proxy::SOURCE_RELAYER, SendOutcome::Sent);
    mirror.record_send(Proxy::SOURCE_BLOCKENGINE, SendOutcome::Sent);
    mirror.record_send(Proxy::SOURCE_BLOCKENGINE, SendOutcome::Sent);
    mirror.record_send(Proxy::SOURCE_CONTROL, SendOutcome::Sent);
    mirror.record_send(Proxy::SOURCE_RELAYER, SendOutcome::TooLarge);
    mirror.record_send(Proxy::SOURCE_CONTROL, SendOutcome::Failed);
    let expected = MirrorStats {
        tpu_packets_sent: 1,
        be_packets_sent: 2,
        control_sent: 1,
        bundles_sent: 0,
        bundles_received: 0,
        filters_received: 0,
        dropped_oversized: 1,
        dropped_other: 1,
    };
    assert_eq!(mirror.stats, expected);
    let report = mirror.stats.report_stats();
    let expected = StatsReport {
        activity: Some(Activity {
            tpu_packets: 1,
            be_packets: 2,
            bundles_sent: 0,
            control_sent: 1,
            bundles_received: 0,
            filters_received: 0,
        }),
        drops: Some(Drops { oversized: 1, other: 1 }),
    };
    assert_eq!(report, expected);
    assert_eq!(mirror.stats, MirrorStats::default());
}

#[test]
fn control_datagrams_alone_are_not_reported() {
    let mut stats = MirrorStats::default();
    stats.record_send(Proxy::SOURCE_CONTROL, SendOutcome::Sent);
    assert_eq!(stats.report_stats(), StatsReport { activity: None, drops: None });
    assert_eq!(stats.control_sent, 0);
}

#[test]
fn counts_wrap_around() {
    let mut stats = MirrorStats::default();
    stats.tpu_packets_sent = u64::MAX;
    stats.record_send(Proxy::SOURCE_RELAYER, SendOutcome::Sent);
    assert_eq!(stats.tpu_packets_sent, 0);
}

#[test]
fn a_validator_is_announced_once_and_named_on_every_tick() {
    let mut mirror = connected();
    let mut reporter = ControlReporter::new();
    let tick = mirror.mirror_control(&mut reporter, None);
    assert!(tick.frame.is_none());
    assert_eq!(tick.announce, None);
    let tick = mirror.mirror_control(&mut reporter, Some([5; 32]));
    let frame = tick.frame.unwrap();
    assert_eq!(frame[0], Proxy::SOURCE_CONTROL);
    assert_eq!(&frame[9..], &[5; 32]);
    assert_eq!(tick.announce, Some([5; 32]));
    let tick = mirror.mirror_control(&mut reporter, Some([5; 32]));
    assert!(tick.frame.is_some());
    assert_eq!(tick.announce, None);
    assert_eq!(mirror.mirror_control(&mut reporter, None).announce, None);
    assert_eq!(mirror.mirror_control(&mut reporter, Some([5; 32])).announce, None);
    assert_eq!(mirror.mirror_control(&mut reporter, Some([6; 32])).announce, Some([6; 32]));
    mirror.set(false);
    assert!(mirror.mirror_control(&mut reporter, Some([6; 32])).frame.is_none());
}

#[test]
fn pauses_double_up_to_the_limit() {
    let mut mirror = Mirror::new([0; 32]);
    let mut link = Link::new();
    assert_eq!(mirror.run(&mut link, LinkEvent::Started, false), LinkAction::Connect);
    let mut pauses: Vec<u64> = Vec::new();
    for _ in 0..7 {
        match mirror.run(&mut link, LinkEvent::ConnectFailed, false) {
            LinkAction::Sleep(nanos) => pauses.push(nanos / 1_000_000),
            _ => panic!("no pause"),
        }
        assert_eq!(mirror.run(&mut link, LinkEvent::Slept, false), LinkAction::Connect);
    }
    assert_eq!(pauses, vec![250, 500, 1000, 2000, 4000, 5000, 5000]);
}

#[test]
fn a_connection_resets_the_pause() {
    let mut mirror = Mirror::new([0; 32]);
    let mut link = Link::new();
    for _ in 0..4 {
        mirror.run(&mut link, LinkEvent::ConnectFailed, false);
        mirror.run(&mut link, LinkEvent::Slept, false);
    }
    assert_eq!(mirror.run(&mut link, LinkEvent::Connected, false), LinkAction::Serve);
    assert!(mirror.connected);
    assert_eq!(
        mirror.run(&mut link, LinkEvent::Closed, false),
        LinkAction::Sleep(Mirror::BACKOFF_INITIAL)
    );
    assert!(!mirror.connected);
}

#[test]
fn a_shutdown_ends_the_link() {
    let mut mirror = Mirror::new([0; 32]);
    let mut link = Link::new();
    assert_eq!(mirror.run(&mut link, LinkEvent::Started, true), LinkAction::Stop);
    assert_eq!(mirror.run(&mut link, LinkEvent::ConnectFailed, true), LinkAction::Stop);
    assert_eq!(mirror.run(&mut link, LinkEvent::Closed, true), LinkAction::Stop);
    assert_eq!(mirror.run(&mut link, LinkEvent::Slept, true), LinkAction::Stop);
}

#[test]
fn bundles_go_out_with_their_length_in_front() {
    let mut stats = MirrorStats::default();
    let event = OutEvent::Encoded { body: vec![9; 0x0102], bundles: 3 };
    match stats.mirror_bundles_out(event) {
        OutAction::Write { length, body, bundles } => {
            assert_eq!(length, vec![2, 1, 0, 0]);
            assert_eq!(body, vec![9; 0x0102]);
            assert_eq!(bundles, 3);
        }
        _ => panic!("not written"),
    }
    assert_eq!(stats.bundles_sent, 0);
    assert!(matches!(stats.mirror_bundles_out(OutEvent::Written { bundles: 3 }), OutAction::Receive));
    assert_eq!(stats.bundles_sent, 3);
    assert!(matches!(stats.mirror_bundles_out(OutEvent::EncodeFailed), OutAction::Receive));
    assert!(matches!(stats.mirror_bundles_out(OutEvent::Lagged), OutAction::Receive));
    assert!(matches!(stats.mirror_bundles_out(OutEvent::Closed), OutAction::Finish));
    assert!(matches!(stats.mirror_bundles_out(OutEvent::Shutdown), OutAction::Finish));
    assert!(matches!(stats.mirror_bundles_out(OutEvent::WriteFailed), OutAction::Stop));
}

#[test]
fn bundles_come_in_by_their_length() {
    let mut stats = MirrorStats::default();
    assert!(matches!(stats.read_bundle_stream(InEvent::Started, false), InAction::ReadLength));
    match stats.read_bundle_stream(InEvent::Length([2, 1, 0, 0]), false) {
        InAction::ReadBody(n) => assert_eq!(n, 0x0102),
        _ => panic!("not read"),
    }
    match stats.read_bundle_stream(InEvent::Body(vec![1, 2]), false) {
        InAction::Decode(body) => assert_eq!(body, vec![1, 2]),
        _ => panic!("not decoded"),
    }
    let next = stats.read_bundle_stream(InEvent::Decoded { bundles: 4 }, false);
    assert!(matches!(next, InAction::ReadLength));
    assert_eq!(stats.bundles_received, 4);
    assert!(matches!(stats.read_bundle_stream(InEvent::DecodeFailed, false), InAction::ReadLength));
    assert!(matches!(stats.read_bundle_stream(InEvent::DecodeFailed, true), InAction::Stop));
    assert!(matches!(stats.read_bundle_stream(InEvent::ReadFailed, false), InAction::Stop));
    assert!(matches!(stats.read_bundle_stream(InEvent::Started, true), InAction::Stop));
}

#[test]
fn a_message_that_is_too_long_ends_the_stream() {
    let mut stats = MirrorStats::default();
    let limit = Mirror::MAX_BUNDLE_FRAME as u32;
    match stats.read_bundle_stream(InEvent::Length(limit.to_le_bytes()), false) {
        InAction::ReadBody(n) => assert_eq!(n, Mirror::MAX_BUNDLE_FRAME),
        _ => panic!("not read"),
    }
    let over = stats.read_bundle_stream(InEvent::Length((limit + 1).to_le_bytes()), false);
    assert!(matches!(over, InAction::Stop));
}
