use inertia_relayer::protos::packet::BankingPacket;
use inertia_relayer::protos::packet::BankingPacketBatch;
use inertia_relayer::protos::packet::Meta;
use inertia_relayer::protos::relayer::Msg;
use inertia_relayer::protos::relayer::SubscribePacketsResponse;
use inertia_relayer::protos::shared::Header;
use inertia_relayer::protos::shared::Heartbeat;
use inertia_relayer::protos::shared::Timestamp;
use inertia_relayer::proxy::filter_set::FilterSet;
use inertia_relayer::proxy::packets::discard_filtered;
use inertia_relayer::relayer::batching::packet_batches_of;
use inertia_relayer::relayer::forwarder::ForwardEvent;
use inertia_relayer::relayer::forwarder::ForwardState;
use inertia_relayer::relayer::forwarder::ForwarderService;
use inertia_relayer::relayer::subscription::record_delivery;
use inertia_relayer::relayer::subscription::Delivery;
use tokio::sync::mpsc::channel;
use tokio::sync::mpsc::Receiver;

fn packet(n: u8) -> BankingPacket {
    BankingPacket {
        discard: false,
        data: Some(vec![n; 65]),
        meta: Meta {
            size: 65,
            addr: "192.168.0.7".to_string(),
            port: 8001,
            flags: None,
            sender_stake: n as u64,
        },
    }
}

fn service() -> ForwarderService {
    ForwarderService::new("203.0.113.9".to_string(), 11_228, 11_229)
}

fn drain(receiver: &mut Receiver<SubscribePacketsResponse>) -> Vec<SubscribePacketsResponse> {
    let mut messages = Vec::new();
    while let Ok(message) = receiver.try_recv() {
        messages.push(message);
    }
    messages
}

fn sizes(messages: &[SubscribePacketsResponse]) -> Vec<usize> {
    messages
        .iter()
        .map(|m| match &m.msg {
            Some(Msg::Batch(batch)) => batch.packets.len(),
            _ => panic!("not a batch"),
        })
        .collect()
}

#[test]
fn packets_are_cut_into_batches() {
    let all: BankingPacketBatch =
        vec![(0..100).map(packet).collect(), vec![], (100..130).map(packet).collect()];
    let batches = packet_batches_of(&all, 64);
    let lens: Vec<usize> = batches.iter().map(|b| b.packets.len()).collect();
    assert_eq!(lens, vec![64, 64, 2]);
    let mut n = 0u8;
    for batch in &batches {
        for p in &batch.packets {
            assert_eq!(p.data, vec![n; 65]);
            assert_eq!(p.meta.as_ref().unwrap().sender_stake, n as u64);
            n += 1;
        }
    }
    assert_eq!(n, 130);
    let exact: BankingPacketBatch = vec![(0..128).map(packet).collect()];
    assert_eq!(packet_batches_of(&exact, 64).len(), 2);
    assert!(packet_batches_of(&vec![vec![]], 64).is_empty());
}

#[test]
fn ignored_and_unreadable_packets_are_not_forwarded() {
    let ignored = BankingPacket { discard: true, ..packet(1) };
    let unreadable = BankingPacket { data: None, ..packet(2) };
    let batches = packet_batches_of(&vec![vec![ignored, packet(3), unreadable]], 64);
    assert_eq!(batches.len(), 1);
    assert_eq!(batches[0].packets.len(), 1);
    assert_eq!(batches[0].packets[0].data, vec![3; 65]);
}

#[test]
fn blocked_packets_do_not_reach_the_validator() {
    let mut filters = FilterSet::default();
    filters.insert_at([2; 64], 0);
    let screened = discard_filtered(&filters, vec![vec![packet(1), packet(2)], vec![packet(3)]]);
    let batches = packet_batches_of(&screened, 64);
    let firsts: Vec<u8> = batches[0].packets.iter().map(|p| p.data[0]).collect();
    assert_eq!(firsts, vec![1, 3]);
}

#[test]
fn messages_carry_the_time_and_the_packets() {
    let mut service = service();
    let mut receiver = service.subscribe_packets(Some([1; 32])).unwrap();
    let ts = Timestamp { seconds: 12, nanos: 34 };
    let all: BankingPacketBatch = vec![(0..70).map(packet).collect()];
    let (failed, dropped) = service.forward_packets_at(all, ts);
    assert!(failed.is_empty());
    assert_eq!(dropped, 0);
    let messages = drain(&mut receiver);
    assert_eq!(sizes(&messages), vec![64, 6]);
    assert!(messages.iter().all(|m| m.header == Some(Header { ts: Some(ts) })));
}

#[test]
fn the_time_of_a_message_is_the_time_of_day() {
    let mut service = service();
    let mut receiver = service.subscribe_packets(Some([1; 32])).unwrap();
    service.forward_packets(Ok(vec![vec![packet(1)]])).unwrap();
    let ts = drain(&mut receiver)[0].header.unwrap().ts.unwrap();
    // Some time after the year 2020.
    assert!(ts.seconds > 1_577_836_800);
    assert!(0 <= ts.nanos && ts.nanos < 1_000_000_000);
}

#[test]
fn without_a_subscriber_nothing_happens() {
    let mut service = service();
    let r = service.forward_packets(Ok(vec![vec![packet(1)]]));
    assert_eq!(r, Ok((vec![], 0)));
    let mut count = 0;
    assert_eq!(service.handle_heartbeat(&mut count), Ok((vec![], 0)));
    assert_eq!(count, 1);
}

#[test]
fn the_end_of_the_packets_is_an_error() {
    let mut service = service();
    let r = service.forward_packets(Err(crossbeam_channel::RecvError));
    assert_eq!(r, Err("receiving on an empty and disconnected channel".to_string()));
}

#[test]
fn one_validator_at_a_time() {
    let mut service = service();
    assert_eq!(service.connected_validator(), None);
    let (first, mut first_out) = channel(10);
    assert_eq!(service.add_subscription([0; 32], first), Ok(()));
    assert_eq!(service.connected_validator(), Some([0; 32]));
    let (second, _second_out) = channel(10);
    let text = "Too many subscriptions, max is 1, currently connected: [\"11111111111111111111111111111111\"]";
    assert_eq!(service.add_subscription([1; 32], second), Err(text.to_string()));
    assert_eq!(service.connected_validator(), Some([0; 32]));
    service.forward_packets(Ok(vec![vec![packet(1)]])).unwrap();
    assert_eq!(drain(&mut first_out).len(), 1);
}

#[test]
fn a_validator_that_comes_back_gets_a_new_queue() {
    let mut service = service();
    let mut old = service.subscribe_packets(Some([4; 32])).unwrap();
    let mut new = service.subscribe_packets(Some([4; 32])).unwrap();
    service.forward_packets(Ok(vec![vec![packet(1)]])).unwrap();
    assert!(drain(&mut old).is_empty());
    assert_eq!(drain(&mut new).len(), 1);
}

#[test]
fn a_request_without_an_identity_is_refused() {
    let mut service = service();
    let r = service.subscribe_packets(None);
    assert_eq!(r.err(), Some("internal error fetching public key".to_string()));
    assert_eq!(service.connected_validator(), None);
}

#[test]
fn a_second_request_names_the_validator_that_is_connected() {
    let mut service = service();
    let _queue = service.subscribe_packets(Some([0; 32])).unwrap();
    let r = service.subscribe_packets(Some([1; 32]));
    let text = r.err().unwrap();
    assert!(text.ends_with("[\"11111111111111111111111111111111\"]"));
}

#[test]
fn a_queue_holds_as_many_messages_as_it_was_made_for() {
    let mut service = service();
    let mut receiver = service.subscribe_packets(Some([1; 32])).unwrap();
    assert_eq!(receiver.max_capacity(), ForwarderService::SUBSCRIBER_QUEUE_CAPACITY);
    assert!(drain(&mut receiver).is_empty());
}

#[test]
fn messages_to_a_full_queue_are_counted() {
    let mut service = service();
    let (sender, mut receiver) = channel(1);
    service.add_subscription([1; 32], sender).unwrap();
    let all: BankingPacketBatch = vec![(0..130).map(packet).collect()];
    assert_eq!(service.forward_packets(Ok(all)), Ok((vec![], 2)));
    assert_eq!(sizes(&drain(&mut receiver)), vec![64]);
}

#[test]
fn messages_to_a_subscriber_that_is_gone_name_it() {
    let mut service = service();
    let (sender, receiver) = channel(10);
    service.add_subscription([7; 32], sender).unwrap();
    drop(receiver);
    let all: BankingPacketBatch = vec![(0..65).map(packet).collect()];
    let (failed, dropped) = service.forward_packets(Ok(all)).unwrap();
    assert_eq!(failed, vec![[7; 32], [7; 32]]);
    assert_eq!(dropped, 0);
    assert_eq!(service.connected_validator(), Some([7; 32]));
    assert!(service.drop_connections(vec![[8; 32]]).is_none());
    assert_eq!(service.connected_validator(), Some([7; 32]));
    assert_eq!(service.drop_connections(failed).map(|t| t.0), Some([7; 32]));
    assert_eq!(service.connected_validator(), None);
}

#[test]
fn heartbeats_count_up() {
    let mut service = service();
    let mut receiver = service.subscribe_packets(Some([1; 32])).unwrap();
    let mut count = 41;
    service.handle_heartbeat(&mut count).unwrap();
    service.handle_heartbeat(&mut count).unwrap();
    let beat = |count| SubscribePacketsResponse {
        header: None,
        msg: Some(Msg::Heartbeat(Heartbeat { count })),
    };
    assert_eq!(drain(&mut receiver), vec![beat(41), beat(42)]);
    assert_eq!(count, 43);
}

#[test]
fn outcomes_are_noted() {
    let mut failed: Vec<[u8; 32]> = Vec::new();
    let mut dropped = 5;
    record_delivery(Delivery::Sent, &[1; 32], &mut failed, &mut dropped);
    assert_eq!((failed.len(), dropped), (0, 5));
    record_delivery(Delivery::Full, &[1; 32], &mut failed, &mut dropped);
    assert_eq!((failed.len(), dropped), (0, 6));
    record_delivery(Delivery::Closed, &[1; 32], &mut failed, &mut dropped);
    assert_eq!((failed, dropped), (vec![[1; 32]], 6));
}

#[test]
fn the_loop_forwards_reports_and_drops() {
    let mut service = service();
    let mut state = ForwardState::new();
    let (sender, mut receiver) = channel(2);
    service.add_subscription([1; 32], sender).unwrap();
    let turn = service.run_event_loop(&mut state, ForwardEvent::HeartbeatTick).unwrap();
    assert!(turn.taken.is_none() && turn.report.is_none());
    let packets = ForwardEvent::Packets(Ok(vec![(0..130).map(packet).collect()]));
    let turn = service.run_event_loop(&mut state, packets).unwrap();
    assert!(turn.taken.is_none() && turn.report.is_none());
    assert_eq!(state, ForwardState { heartbeat_count: 1, dropped_sends: 2 });
    assert_eq!(drain(&mut receiver).len(), 2);
    let turn = service.run_event_loop(&mut state, ForwardEvent::DropLogTick).unwrap();
    assert_eq!(turn.report, Some(2));
    assert_eq!(service.connected_validator(), Some([1; 32]));
    let turn = service.run_event_loop(&mut state, ForwardEvent::DropLogTick).unwrap();
    assert_eq!(turn.report, None);
    drop(receiver);
    let turn = service.run_event_loop(&mut state, ForwardEvent::HeartbeatTick).unwrap();
    assert_eq!(turn.taken.map(|t| t.0), Some([1; 32]));
    assert_eq!(service.connected_validator(), None);
    assert_eq!(state, ForwardState { heartbeat_count: 2, dropped_sends: 0 });
    let turn = service.run_event_loop(&mut state, ForwardEvent::HeartbeatTick).unwrap();
    assert!(turn.taken.is_none());
    let end = ForwardEvent::Packets(Err(crossbeam_channel::RecvError));
    let text = "receiving on an empty and disconnected channel";
    assert_eq!(service.run_event_loop(&mut state, end).err(), Some(text.to_string()));
}

#[test]
fn a_live_subscriber_gets_every_heartbeat() {
    let mut service = service();
    let mut state = ForwardState::new();
    let mut receiver = service.subscribe_packets(Some([1; 32])).unwrap();
    for i in 0..20u8 {
        let turn = service.run_event_loop(&mut state, ForwardEvent::HeartbeatTick).unwrap();
        assert!(turn.taken.is_none());
        let packets = ForwardEvent::Packets(Ok(vec![vec![packet(i)]]));
        assert!(service.run_event_loop(&mut state, packets).unwrap().taken.is_none());
        service.run_event_loop(&mut state, ForwardEvent::DropLogTick).unwrap();
    }
    let counts: Vec<u64> = drain(&mut receiver)
        .into_iter()
        .filter_map(|m| match m.msg {
            Some(Msg::Heartbeat(beat)) => Some(beat.count),
            _ => None,
        })
        .collect();
    assert_eq!(counts, (0..20).collect::<Vec<u64>>());
}

#[test]
fn identities_are_named_in_base_58() {
    let identity = [
        24, 243, 6, 223, 230, 153, 210, 8, 92, 137, 123, 67, 164, 197, 79, 196, 125, 43, 183, 85,
        103, 91, 232, 167, 73, 131, 104, 131, 0, 101, 214, 231,
    ];
    let mut service = service();
    let _queue = service.subscribe_packets(Some(identity)).unwrap();
    let text = service.subscribe_packets(Some([0; 32])).err().unwrap();
    assert!(text.ends_with("[\"2gPihUTjt3FJqf1VpidgrY5cZ6PuyMccGVwQHRfjMPZG\"]"));
}

#[test]
fn announced_ports_lie_six_below() {
    let configs = service().get_tpu_configs();
    let tpu = configs.tpu.unwrap();
    assert_eq!((tpu.ip.as_str(), tpu.port), ("203.0.113.9", 11_222));
    let forward = configs.tpu_forward.unwrap();
    assert_eq!((forward.ip.as_str(), forward.port), ("203.0.113.9", 11_223));
}
