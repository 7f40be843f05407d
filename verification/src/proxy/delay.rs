//! Holding packets and bundles back.
//!
//! What comes in is mirrored at once and queued. When its time has come it is
//! held against the filters that are then in force, and goes on.

use crate::protos::block_engine::SubscribeBundlesResponse;
use crate::protos::block_engine::SubscribePacketsResponse;
use crate::protos::packet::BankingPacketBatch;
use crate::proxy::filter_set::filters_in_force;
use crate::proxy::filter_set::FilterSet;
use crate::proxy::filter_set::Signature;
use crate::proxy::mirror::Mirror;
use crate::proxy::packets::banking_fits;
use crate::proxy::packets::banking_payloads;
use crate::proxy::packets::batches_screened;
use crate::proxy::packets::be_bundles_screened;
use crate::proxy::packets::be_fits;
use crate::proxy::packets::be_packets_screened;
use crate::proxy::packets::be_payloads;
use crate::proxy::packets::discard_filtered;
use crate::proxy::packets::filter_be_bundles;
use crate::proxy::packets::filter_be_packets;
use crate::proxy::packets::frames_for;
use crate::proxy::packets::mirror_banking_batch;
use crate::proxy::packets::mirror_be_packets;
use crate::proxy::Proxy;
use crate::relayer::batching::forwarded_packets;
use crate::relayer::batching::law_filters_apply_to_what_is_forwarded;
use crate::relayer::batching::unblocked;
use prost::bytes::Bytes;
use std::collections::VecDeque;
use vstd::prelude::*;

verus! {

/// What can be mirrored, held back and filtered.
pub trait Relayed: Sized {
    /// What is mirrored of it.
    spec fn payloads(&self) -> Seq<Seq<u8>>;

    /// Each payload fits into a datagram.
    spec fn fits(&self) -> bool;

    /// What the datagrams are marked with.
    spec fn source() -> u8;

    /// `after` is what is left of it when it is held against the filters.
    spec fn screens_to(&self, filters: Map<Signature, u64>, after: Self) -> bool;

    /// The datagrams for it.
    fn mirrored(&self, mirror: &mut Mirror) -> (frames: Vec<Bytes>)
        requires
            old(mirror).wf(),
            self.fits(),
        ensures
            final(mirror).wf(),
            final(mirror).cert_pin == old(mirror).cert_pin,
            final(mirror).connected == old(mirror).connected,
            final(mirror).stats == old(mirror).stats,
            frames_for(frames@, old(mirror).connected, Self::source(), self.payloads()),
    ;

    /// Holds it against the filters.
    fn screen(self, filter_set: &FilterSet) -> (r: Self)
        requires
            filter_set.wf(),
        ensures
            self.screens_to(filter_set@, r),
    ;
}

impl Relayed for BankingPacketBatch {
    open spec fn payloads(&self) -> Seq<Seq<u8>> {
        banking_payloads(self@)
    }

    open spec fn fits(&self) -> bool {
        banking_fits(self@)
    }

    open spec fn source() -> u8 {
        Proxy::SOURCE_RELAYER
    }

    open spec fn screens_to(&self, filters: Map<Signature, u64>, after: Self) -> bool {
        batches_screened(filters, self@, after@)
    }

    fn mirrored(&self, mirror: &mut Mirror) -> (frames: Vec<Bytes>) {
        mirror_banking_batch(mirror, self)
    }

    fn screen(self, filter_set: &FilterSet) -> (r: Self) {
        discard_filtered(filter_set, self)
    }
}

impl Relayed for SubscribePacketsResponse {
    open spec fn payloads(&self) -> Seq<Seq<u8>> {
        be_payloads(*self)
    }

    open spec fn fits(&self) -> bool {
        be_fits(*self)
    }

    open spec fn source() -> u8 {
        Proxy::SOURCE_BLOCKENGINE
    }

    open spec fn screens_to(&self, filters: Map<Signature, u64>, after: Self) -> bool {
        be_packets_screened(filters, *self, after)
    }

    fn mirrored(&self, mirror: &mut Mirror) -> (frames: Vec<Bytes>) {
        mirror_be_packets(mirror, self)
    }

    fn screen(self, filter_set: &FilterSet) -> (r: Self) {
        filter_be_packets(filter_set, self)
    }
}

/// Bundles go to the mirror server on a stream of their own, not in datagrams.
impl Relayed for SubscribeBundlesResponse {
    open spec fn payloads(&self) -> Seq<Seq<u8>> {
        Seq::empty()
    }

    open spec fn fits(&self) -> bool {
        true
    }

    open spec fn source() -> u8 {
        Proxy::SOURCE_BLOCKENGINE
    }

    open spec fn screens_to(&self, filters: Map<Signature, u64>, after: Self) -> bool {
        be_bundles_screened(filters, *self, after)
    }

    fn mirrored(&self, mirror: &mut Mirror) -> (frames: Vec<Bytes>) {
        Vec::new()
    }

    fn screen(self, filter_set: &FilterSet) -> (r: Self) {
        filter_be_bundles(filter_set, self)
    }
}

/// How many items at the head of a queue are due at `now`: all in front of the
/// first that is not.
pub open spec fn due<T>(queue: Seq<(u64, T)>, now: u64) -> nat
    decreases queue.len(),
{
    if queue.len() == 0 || queue[0].0 > now {
        0
    } else {
        1 + due(queue.drop_first(), now)
    }
}

/// The items of a queue come due in order.
pub open spec fn in_order<T>(queue: Seq<(u64, T)>) -> bool {
    forall|i: int, j: int|
        0 <= i <= j < queue.len() ==> (#[trigger] queue[i]).0 <= (#[trigger] queue[j]).0
}

/// `released` is what the head of a queue comes to when it is held against the
/// filters.
pub open spec fn released_from<T: Relayed>(
    queue: Seq<(u64, T)>,
    now: u64,
    filters: Map<Signature, u64>,
    released: Seq<T>,
) -> bool {
    &&& released.len() == due(queue, now)
    &&& forall|i: int|
        0 <= i < released.len() ==> queue[i].1.screens_to(filters, #[trigger] released[i])
}

/// Items with the time at which each is due, oldest first.
pub struct DelayQueue<T> {
    queue: VecDeque<(u64, T)>,
}

impl<T> View for DelayQueue<T> {
    type V = Seq<(u64, T)>;

    closed spec fn view(&self) -> Seq<(u64, T)> {
        self.queue@
    }
}

proof fn lemma_due_bound<T>(queue: Seq<(u64, T)>, now: u64)
    ensures
        due(queue, now) <= queue.len(),
    decreases queue.len(),
{
    if queue.len() > 0 && queue[0].0 <= now {
        lemma_due_bound(queue.drop_first(), now);
    }
}

impl<T: Relayed> DelayQueue<T> {
    /// An empty queue.
    pub fn new() -> (r: Self)
        ensures
            r@ == Seq::<(u64, T)>::empty(),
    {
        DelayQueue { queue: VecDeque::new() }
    }

    /// When the oldest item is due.
    pub fn next_release(&self) -> (r: Option<u64>)
        ensures
            r == (if self@.len() == 0 {
                None::<u64>
            } else {
                Some(self@[0].0)
            }),
    {
        if self.queue.len() == 0 {
            None
        } else {
            Some(self.queue[0].0)
        }
    }

    /// Queues an item that is due at `release_at`.
    pub fn push(&mut self, release_at: u64, item: T)
        ensures
            final(self)@ == old(self)@.push((release_at, item)),
    {
        self.queue.push_back((release_at, item));
    }

    /// Takes the items at the head that are due, and holds them against the
    /// filters.
    pub fn release(&mut self, filter_set: &FilterSet, now: u64) -> (r: Vec<T>)
        requires
            filter_set.wf(),
        ensures
            released_from(old(self)@, now, filter_set@, r@),
            final(self)@ == old(self)@.skip(due(old(self)@, now) as int),
    {
        let ghost before = self@;
        let mut r: Vec<T> = Vec::new();
        proof {
            lemma_due_bound(before, now);
            assert(before.skip(0) =~= before);
        }
        loop
            invariant
                filter_set.wf(),
                r@.len() <= before.len(),
                self@ == before.skip(r@.len() as int),
                due(before, now) == r@.len() + due(self@, now),
                forall|i: int|
                    0 <= i < r@.len() ==> before[i].1.screens_to(filter_set@, #[trigger] r@[i]),
            ensures
                r@.len() == due(before, now),
            decreases self@.len(),
        {
            if self.queue.len() == 0 || self.queue[0].0 > now {
                break;
            }
            let ghost prior = self@;
            match self.queue.pop_front() {
                Some((_, item)) => {
                    proof {
                        assert(prior.drop_first() =~= before.skip(r@.len() as int + 1));
                        assert(self@ =~= prior.drop_first());
                        assert(before[r@.len() as int] == prior[0]);
                    }
                    r.push(item.screen(filter_set));
                },
                None => {
                    break;
                },
            }
        }
        r
    }
}

/// What the loop behind signature verification woke up for.
pub enum RelayEvent {
    /// Packets came in.
    Received(BankingPacketBatch),
    /// The wait was over.
    Timeout,
    /// No more packets will come.
    Disconnected,
}

/// What to do first after the loop woke up.
pub struct RelayStep {
    /// The datagrams to send.
    pub frames: Vec<Bytes>,
    /// Whether the loop is over.
    pub stop: bool,
}

/// The loop that holds back the packets behind signature verification.
pub struct RelayerDelay {
    /// How long packets are held back, in nanoseconds.
    pub delay: u64,
    /// The packets that are held back.
    pub queue: DelayQueue<BankingPacketBatch>,
}

impl RelayerDelay {
    /// A loop that holds nothing back yet.
    pub fn new(delay: u64) -> (r: Self)
        ensures
            r.delay == delay,
            r.queue@ == Seq::<(u64, BankingPacketBatch)>::empty(),
    {
        RelayerDelay { delay, queue: DelayQueue::new() }
    }

    /// How long to wait for packets, in nanoseconds: until the oldest is due, or
    /// an idle tick where there is none.
    pub fn timeout(&self, now: u64) -> (r: u64)
        ensures
            r == (if self.queue@.len() == 0 {
                Proxy::IDLE_TICK as int
            } else if self.queue@[0].0 <= now {
                0
            } else {
                self.queue@[0].0 - now
            }),
            self.queue@.len() == 0 ==> r == 100_000_000,
    {
        match self.queue.next_release() {
            Some(release_at) => {
                if release_at <= now {
                    0
                } else {
                    release_at - now
                }
            },
            None => Proxy::IDLE_TICK,
        }
    }

    /// Takes in what the loop woke up for. Packets are mirrored as they came and
    /// queued.
    pub fn receive(&mut self, mirror: &mut Mirror, event: RelayEvent, now: u64) -> (r: RelayStep)
        requires
            old(mirror).wf(),
            now + old(self).delay <= u64::MAX,
            event matches RelayEvent::Received(batch) ==> batch.fits(),
        ensures
            final(mirror).wf(),
            final(mirror).cert_pin == old(mirror).cert_pin,
            final(mirror).connected == old(mirror).connected,
            final(mirror).stats == old(mirror).stats,
            final(self).delay == old(self).delay,
            r.stop <==> event is Disconnected,
            match event {
                RelayEvent::Received(batch) => {
                    &&& frames_for(
                        r.frames@,
                        old(mirror).connected,
                        Proxy::SOURCE_RELAYER,
                        banking_payloads(batch@),
                    )
                    &&& final(self).queue@ == old(self).queue@.push(
                        ((now + old(self).delay) as u64, batch),
                    )
                },
                _ => r.frames@.len() == 0 && final(self).queue@ == old(self).queue@,
            },
    {
        match event {
            RelayEvent::Received(batch) => {
                let frames = batch.mirrored(mirror);
                self.queue.push(now + self.delay, batch);
                RelayStep { frames, stop: false }
            },
            RelayEvent::Timeout => RelayStep { frames: Vec::new(), stop: false },
            RelayEvent::Disconnected => RelayStep { frames: Vec::new(), stop: true },
        }
    }

    /// Drops the filters that have run out, and lets the packets go that are due.
    pub fn release(&mut self, filter_set: &mut FilterSet, now: u64) -> (r: Vec<BankingPacketBatch>)
        requires
            old(filter_set).wf(),
        ensures
            final(filter_set).wf(),
            final(filter_set)@ == filters_in_force(old(filter_set)@, now),
            released_from(old(self).queue@, now, final(filter_set)@, r@),
            final(self).queue@ == old(self).queue@.skip(due(old(self).queue@, now) as int),
            final(self).delay == old(self).delay,
    {
        filter_set.sweep_at(now);
        self.queue.release(filter_set, now)
    }
}

/// What a loop behind the block engine woke up for.
pub enum DelayEvent<T> {
    /// The program shuts down.
    Shutdown,
    /// The oldest item is due.
    ReleaseDue,
    /// An item came in.
    Received(T),
    /// So many items were lost before they got here.
    Lagged(u64),
    /// No more items will come.
    Closed,
}

/// What to do after a loop behind the block engine woke up.
pub struct DelayStep<T> {
    /// The datagrams to send.
    pub frames: Vec<Bytes>,
    /// The items to pass on.
    pub forward: Vec<T>,
    /// Whether the loop is over.
    pub stop: bool,
}

/// A loop that holds back what comes from the block engine.
pub struct DelayForward<T> {
    /// How long items are held back, in nanoseconds.
    pub delay: u64,
    /// The items that are held back.
    pub queue: DelayQueue<T>,
}

impl<T: Relayed> DelayForward<T> {
    /// A loop that holds nothing back yet.
    pub fn new(delay: u64) -> (r: Self)
        ensures
            r.delay == delay,
            r.queue@ == Seq::<(u64, T)>::empty(),
    {
        DelayForward { delay, queue: DelayQueue::new() }
    }

    /// Takes in what the loop woke up for. An item is mirrored as it came and
    /// queued; when the oldest is due, all that are due go on.
    pub fn delay_forward(
        &mut self,
        mirror: &mut Mirror,
        filter_set: &FilterSet,
        event: DelayEvent<T>,
        now: u64,
    ) -> (r: DelayStep<T>)
        requires
            old(mirror).wf(),
            filter_set.wf(),
            now + old(self).delay <= u64::MAX,
            event matches DelayEvent::Received(item) ==> item.fits(),
        ensures
            final(mirror).wf(),
            final(mirror).cert_pin == old(mirror).cert_pin,
            final(mirror).connected == old(mirror).connected,
            final(mirror).stats == old(mirror).stats,
            final(self).delay == old(self).delay,
            r.stop <==> event is Shutdown || event is Closed,
            match event {
                DelayEvent::Received(item) => {
                    &&& frames_for(r.frames@, old(mirror).connected, T::source(), item.payloads())
                    &&& r.forward@.len() == 0
                    &&& final(self).queue@ == old(self).queue@.push(
                        ((now + old(self).delay) as u64, item),
                    )
                },
                DelayEvent::ReleaseDue => {
                    &&& r.frames@.len() == 0
                    &&& released_from(old(self).queue@, now, filter_set@, r.forward@)
                    &&& final(self).queue@ == old(self).queue@.skip(
                        due(old(self).queue@, now) as int,
                    )
                },
                _ => r.frames@.len() == 0 && r.forward@.len() == 0 && final(self).queue@ == old(
                    self,
                ).queue@,
            },
    {
        match event {
            DelayEvent::Received(item) => {
                let frames = item.mirrored(mirror);
                self.queue.push(now + self.delay, item);
                DelayStep { frames, forward: Vec::new(), stop: false }
            },
            DelayEvent::ReleaseDue => {
                let forward = self.queue.release(filter_set, now);
                DelayStep { frames: Vec::new(), forward, stop: false }
            },
            DelayEvent::Lagged(_) => DelayStep {
                frames: Vec::new(),
                forward: Vec::new(),
                stop: false,
            },
            DelayEvent::Shutdown => DelayStep {
                frames: Vec::new(),
                forward: Vec::new(),
                stop: true,
            },
            DelayEvent::Closed => DelayStep { frames: Vec::new(), forward: Vec::new(), stop: true },
        }
    }
}

/// A release splits a queue in two: what was due, none of it early, and the rest
/// in its order. Nothing is lost, doubled or overtaken.
pub proof fn law_release_splits_the_queue<T>(queue: Seq<(u64, T)>, now: u64)
    ensures
        due(queue, now) <= queue.len(),
        queue.take(due(queue, now) as int) + queue.skip(due(queue, now) as int) == queue,
        forall|i: int| 0 <= i < due(queue, now) ==> (#[trigger] queue[i]).0 <= now,
        due(queue, now) < queue.len() ==> queue[due(queue, now) as int].0 > now,
    decreases queue.len(),
{
    lemma_due_bound(queue, now);
    let n = due(queue, now) as int;
    assert(queue.take(n) + queue.skip(n) =~= queue);
    if queue.len() > 0 && queue[0].0 <= now {
        let rest = queue.drop_first();
        law_release_splits_the_queue(rest, now);
        assert forall|i: int| 0 <= i < n implies (#[trigger] queue[i]).0 <= now by {
            if i > 0 {
                assert(rest[i - 1] == queue[i]);
            }
        }
        if n < queue.len() {
            assert(rest[n - 1] == queue[n]);
        }
    }
}

/// Where items come due in order, a release takes all that are due and no other.
pub proof fn law_release_takes_all_that_is_due<T>(queue: Seq<(u64, T)>, now: u64)
    requires
        in_order(queue),
    ensures
        forall|i: int|
            0 <= i < queue.len() ==> ((#[trigger] queue[i]).0 <= now <==> i < due(queue, now)),
{
    law_release_splits_the_queue(queue, now);
    let n = due(queue, now) as int;
    assert forall|i: int| 0 <= i < queue.len() implies ((#[trigger] queue[i]).0 <= now <==> i
        < n) by {
        if i >= n {
            assert(queue[n].0 <= queue[i].0);
        }
    }
}

/// With a clock that does not run backwards, items come due in the order in
/// which they came: queueing at a time no earlier than before keeps the order,
/// and so does a release.
pub proof fn law_queue_stays_in_order<T>(queue: Seq<(u64, T)>, now: u64, delay: u64, item: T)
    requires
        in_order(queue),
        now + delay <= u64::MAX,
        queue.len() > 0 ==> queue.last().0 <= now + delay,
    ensures
        in_order(queue.push(((now + delay) as u64, item))),
        in_order(queue.skip(due(queue, now) as int)),
{
    lemma_due_bound(queue, now);
    let pushed = queue.push(((now + delay) as u64, item));
    assert forall|i: int, j: int| 0 <= i <= j < pushed.len() implies (#[trigger] pushed[i]).0 <= (
    #[trigger] pushed[j]).0 by {
        if j == queue.len() && i < j {
            assert(queue[i].0 <= queue[queue.len() - 1].0);
        }
    }
    let n = due(queue, now) as int;
    let rest = queue.skip(n);
    assert forall|i: int, j: int| 0 <= i <= j < rest.len() implies (#[trigger] rest[i]).0 <= (
    #[trigger] rest[j]).0 by {
        assert(rest[i] == queue[i + n] && rest[j] == queue[j + n]);
    }
}

/// An item is held back for the delay: a release that takes it comes no earlier,
/// and where items come due in order, one that comes no earlier takes it.
pub proof fn law_item_is_held_for_the_delay<T>(
    queue: Seq<(u64, T)>,
    received_at: u64,
    delay: u64,
    item: T,
    now: u64,
)
    requires
        received_at + delay <= u64::MAX,
    ensures
        ({
            let held = queue.push(((received_at + delay) as u64, item));
            &&& due(held, now) == held.len() ==> now >= received_at + delay
            &&& in_order(held) && now >= received_at + delay ==> due(held, now) == held.len()
        }),
{
    let held = queue.push(((received_at + delay) as u64, item));
    let last = held.len() - 1;
    law_release_splits_the_queue(held, now);
    assert(held[last].0 == received_at + delay);
    if in_order(held) && now >= received_at + delay {
        law_release_takes_all_that_is_due(held, now);
        assert(held[last].0 <= now);
    }
}

/// What can be done with a queue.
pub enum DelayOp<T> {
    /// An item is queued, with the time at which it is due.
    Push(u64, T),
    /// What is due at a time is let go.
    Release(u64),
}

/// The items that were queued in the course of `ops`, in order.
pub open spec fn pushed<T>(ops: Seq<DelayOp<T>>) -> Seq<(u64, T)>
    decreases ops.len(),
{
    if ops.len() == 0 {
        Seq::empty()
    } else {
        match ops.last() {
            DelayOp::Push(at, item) => pushed(ops.drop_last()).push((at, item)),
            DelayOp::Release(_) => pushed(ops.drop_last()),
        }
    }
}

/// What is queued after `ops`.
pub open spec fn queued<T>(ops: Seq<DelayOp<T>>) -> Seq<(u64, T)>
    decreases ops.len(),
{
    if ops.len() == 0 {
        Seq::empty()
    } else {
        let before = queued(ops.drop_last());
        match ops.last() {
            DelayOp::Push(at, item) => before.push((at, item)),
            DelayOp::Release(now) => before.skip(due(before, now) as int),
        }
    }
}

/// What was let go in the course of `ops`, in order.
pub open spec fn let_go<T>(ops: Seq<DelayOp<T>>) -> Seq<(u64, T)>
    decreases ops.len(),
{
    if ops.len() == 0 {
        Seq::empty()
    } else {
        let before = let_go(ops.drop_last());
        let waiting = queued(ops.drop_last());
        match ops.last() {
            DelayOp::Push(_, _) => before,
            DelayOp::Release(now) => before + waiting.take(due(waiting, now) as int),
        }
    }
}

/// Whatever the order of events: what was let go and what still waits are, one
/// after the other, what came in. Nothing is lost, doubled or overtaken.
pub proof fn law_first_in_first_out<T>(ops: Seq<DelayOp<T>>)
    ensures
        let_go(ops) + queued(ops) == pushed(ops),
    decreases ops.len(),
{
    if ops.len() == 0 {
        assert(let_go(ops) + queued(ops) =~= pushed(ops));
    } else {
        let earlier = ops.drop_last();
        law_first_in_first_out(earlier);
        match ops.last() {
            DelayOp::Push(at, item) => {
                assert(let_go(ops) + queued(ops) =~= (let_go(earlier) + queued(earlier)).push(
                    (at, item),
                ));
            },
            DelayOp::Release(now) => {
                let waiting = queued(earlier);
                law_release_splits_the_queue(waiting, now);
                let n = due(waiting, now) as int;
                assert(let_go(ops) + queued(ops) =~= let_go(earlier) + (waiting.take(n)
                    + waiting.skip(n)));
            },
        }
    }
}

/// What the validator gets of packets that were held back: of each batch that is
/// let go, none of them early, the packets that no filter in force at that time
/// blocks, all of them and in order.
pub proof fn law_validator_gets_what_is_not_blocked(
    queue: Seq<(u64, BankingPacketBatch)>,
    filters: Map<Signature, u64>,
    now: u64,
    released: Seq<BankingPacketBatch>,
    i: int,
)
    requires
        released_from(queue, now, filters_in_force(filters, now), released),
        0 <= i < released.len(),
    ensures
        i < queue.len(),
        queue[i].0 <= now,
        forwarded_packets(released[i]@) == forwarded_packets(queue[i].1@).filter(
            unblocked(filters_in_force(filters, now)),
        ),
{
    law_release_splits_the_queue(queue, now);
    assert(queue[i].1.screens_to(filters_in_force(filters, now), released[i]));
    law_filters_apply_to_what_is_forwarded(
        filters_in_force(filters, now),
        queue[i].1@,
        released[i]@,
    );
}

} // verus!
