use inertia_relayer::protos::block_engine::SubscribeBundlesResponse;
use inertia_relayer::protos::block_engine::SubscribePacketsResponse;
use inertia_relayer::protos::bundle::BundleUuid;
use inertia_relayer::protos::packet::BankingPacket;
use inertia_relayer::protos::packet::BankingPacketBatch;
use inertia_relayer::protos::packet::Meta;
use inertia_relayer::protos::packet::Packet;
use inertia_relayer::protos::packet::PacketBatch;
use inertia_relayer::proxy::delay::DelayEvent;
use inertia_relayer::proxy::delay::DelayForward;
use inertia_relayer::proxy::delay::RelayEvent;
use inertia_relayer::proxy::delay::RelayerDelay;
use inertia_relayer::proxy::filter_set::FilterSet;
use inertia_relayer::proxy::mirror::Mirror;
use inertia_relayer::proxy::Proxy;
use inertia_relayer::relayer::batching::packet_batches_of;

const MS: u64 = 1_000_000;

fn batch(signature: u8) -> BankingPacketBatch {
    vec![vec![BankingPacket {
        discard: false,
        data: Some(vec![signature; 65]),
        meta: Meta { size: 65, addr: String::new(), port: 0, flags: None, sender_stake: 0 },
    }]]
}

fn packets(signature: u8) -> SubscribePacketsResponse {
    SubscribePacketsResponse {
        header: None,
        batch: Some(PacketBatch {
            packets: vec![Packet { data: vec![signature; 65], meta: None }],
        }),
    }
}

fn bundles(uuid: &str) -> SubscribeBundlesResponse {
    SubscribeBundlesResponse {
        bundles: vec![BundleUuid { bundle: None, uuid: uuid.to_string() }],
    }
}

fn connected() -> Mirror {
    let mut mirror = Mirror::new([0; 32]);
    mirror.set(true);
    mirror
}

#[test]
fn packets_are_mirrored_at_once_and_let_go_after_the_delay() {
    let mut mirror = connected();
    let mut filters = FilterSet::default();
    let mut relay = RelayerDelay::new(Proxy::PACKET_DELAY);
    let step = relay.receive(&mut mirror, RelayEvent::Received(batch(1)), 5 * MS);
    assert_eq!(step.frames.len(), 1);
    assert_eq!(&step.frames[0][9..], &[1; 65]);
    assert!(!step.stop);
    assert!(relay.release(&mut filters, 105 * MS - 1).is_empty());
    assert_eq!(relay.release(&mut filters, 105 * MS), vec![batch(1)]);
    assert!(relay.release(&mut filters, 500 * MS).is_empty());
}

#[test]
fn the_wait_ends_when_the_oldest_packets_are_due() {
    let mut mirror = connected();
    let mut relay = RelayerDelay::new(100 * MS);
    assert_eq!(relay.timeout(7), Proxy::IDLE_TICK);
    relay.receive(&mut mirror, RelayEvent::Received(batch(1)), 0);
    relay.receive(&mut mirror, RelayEvent::Received(batch(2)), 50 * MS);
    assert_eq!(relay.timeout(30 * MS), 70 * MS);
    assert_eq!(relay.timeout(200 * MS), 0);
}

#[test]
fn packets_leave_in_the_order_in_which_they_came() {
    let mut mirror = connected();
    let mut filters = FilterSet::default();
    let mut relay = RelayerDelay::new(100 * MS);
    for i in 0..5u8 {
        relay.receive(&mut mirror, RelayEvent::Received(batch(i)), i as u64 * 10 * MS);
    }
    let first = relay.release(&mut filters, 125 * MS);
    assert_eq!(first, vec![batch(0), batch(1), batch(2)]);
    let second = relay.release(&mut filters, 140 * MS);
    assert_eq!(second, vec![batch(3), batch(4)]);
}

#[test]
fn a_filter_that_comes_during_the_delay_applies() {
    let mut mirror = connected();
    let mut filters = FilterSet::default();
    let mut relay = RelayerDelay::new(100 * MS);
    let step = relay.receive(&mut mirror, RelayEvent::Received(batch(1)), 0);
    assert_eq!(step.frames.len(), 1);
    filters.insert_at([1; 64], 50 * MS);
    let released = relay.release(&mut filters, 100 * MS);
    assert!(released[0][0][0].discard);
}

#[test]
fn a_filter_that_has_run_out_does_not_apply() {
    let mut mirror = connected();
    let mut filters = FilterSet::default();
    let mut relay = RelayerDelay::new(100 * MS);
    filters.insert_at([1; 64], 0);
    relay.receive(&mut mirror, RelayEvent::Received(batch(1)), 1_900 * MS);
    let released = relay.release(&mut filters, 2_000 * MS);
    assert!(!released[0][0][0].discard);
    assert!(filters.is_empty());
}

#[test]
fn the_loop_stops_when_no_packets_will_come() {
    let mut mirror = connected();
    let mut relay = RelayerDelay::new(100 * MS);
    assert!(!relay.receive(&mut mirror, RelayEvent::Timeout, 0).stop);
    assert!(relay.receive(&mut mirror, RelayEvent::Disconnected, 0).stop);
}

#[test]
fn packets_of_the_block_engine_are_held_back_and_filtered() {
    let mut mirror = connected();
    let mut filters = FilterSet::default();
    let mut forward: DelayForward<SubscribePacketsResponse> = DelayForward::new(100 * MS);
    let step = forward.delay_forward(&mut mirror, &filters, DelayEvent::Received(packets(1)), 0);
    assert_eq!(step.frames.len(), 1);
    assert_eq!(step.frames[0][0], Proxy::SOURCE_BLOCKENGINE);
    assert!(step.forward.is_empty());
    assert_eq!(forward.queue.next_release(), Some(100 * MS));
    forward.delay_forward(&mut mirror, &filters, DelayEvent::Received(packets(2)), 60 * MS);
    filters.insert_at([2; 64], 70 * MS);
    let step = forward.delay_forward(&mut mirror, &filters, DelayEvent::ReleaseDue, 100 * MS);
    assert_eq!(step.forward, vec![packets(1)]);
    let step = forward.delay_forward(&mut mirror, &filters, DelayEvent::ReleaseDue, 160 * MS);
    let emptied = SubscribePacketsResponse {
        header: None,
        batch: Some(PacketBatch { packets: vec![] }),
    };
    assert_eq!(step.forward, vec![emptied]);
    assert_eq!(forward.queue.next_release(), None);
}

#[test]
fn bundles_are_held_back_and_not_mirrored_in_datagrams() {
    let mut mirror = connected();
    let filters = FilterSet::default();
    let mut forward: DelayForward<SubscribeBundlesResponse> = DelayForward::new(100 * MS);
    let step = forward.delay_forward(&mut mirror, &filters, DelayEvent::Received(bundles("a")), 0);
    assert!(step.frames.is_empty());
    let step = forward.delay_forward(&mut mirror, &filters, DelayEvent::ReleaseDue, 100 * MS);
    assert_eq!(step.forward, vec![bundles("a")]);
}

#[test]
fn losses_pass_and_ends_stop() {
    let mut mirror = connected();
    let filters = FilterSet::default();
    let mut forward: DelayForward<SubscribeBundlesResponse> = DelayForward::new(100 * MS);
    forward.delay_forward(&mut mirror, &filters, DelayEvent::Received(bundles("a")), 0);
    let step = forward.delay_forward(&mut mirror, &filters, DelayEvent::Lagged(3), 200 * MS);
    assert!(!step.stop && step.forward.is_empty());
    let step = forward.delay_forward(&mut mirror, &filters, DelayEvent::Shutdown, 200 * MS);
    assert!(step.stop && step.forward.is_empty());
    let step = forward.delay_forward(&mut mirror, &filters, DelayEvent::Closed, 200 * MS);
    assert!(step.stop && step.forward.is_empty());
}

#[test]
fn the_validator_gets_what_no_filter_blocks() {
    let mut mirror = connected();
    let mut filters = FilterSet::default();
    let mut relay = RelayerDelay::new(100 * MS);
    let mixed: BankingPacketBatch = vec![batch(1).remove(0), batch(2).remove(0), batch(3).remove(0)];
    let step = relay.receive(&mut mirror, RelayEvent::Received(mixed), 0);
    assert_eq!(step.frames.len(), 3);
    filters.insert_at([2; 64], 10 * MS);
    let released = relay.release(&mut filters, 100 * MS);
    let batches = packet_batches_of(&released[0], 64);
    let firsts: Vec<u8> = batches[0].packets.iter().map(|p| p.data[0]).collect();
    assert_eq!(firsts, vec![1, 3]);
}
