//! The link to the mirror server.

use crate::clock::now_nanos;
use crate::clock::NANOS_PER_MILLI;
use crate::clock::NANOS_PER_SEC;
use crate::identity::Pubkey;
use crate::proxy::filter_set::FilterSet;
use crate::proxy::filter_set::Signature;
use crate::proxy::frame::fits_buffer;
use crate::proxy::frame::frame_bytes;
use crate::proxy::frame::frozen;
use crate::proxy::frame::SendBuffer;
use crate::proxy::frame::FRAME_HEADER_LEN;
use crate::proxy::stats::no_stats;
use crate::proxy::stats::with_send;
use crate::proxy::stats::MirrorStats;
use crate::proxy::stats::SendOutcome;
use crate::proxy::Proxy;
use crate::table::Key;
use prost::bytes::Bytes;
use vstd::prelude::*;

verus! {


/// A payload leaves room for the header of a datagram.
pub open spec fn fits_frame(data: Seq<u8>) -> bool {
    fits_buffer(data.len() as int + FRAME_HEADER_LEN)
}

/// `bytes` is a datagram from `source` with the payload `data`, whatever its
/// time.
pub open spec fn is_frame(bytes: Seq<u8>, source: u8, data: Seq<u8>) -> bool {
    exists|nanos: u64| bytes == #[trigger] frame_bytes(source, nanos, data)
}

/// The signature that a datagram from the mirror server blocks, where it blocks
/// one: a tag and the sixty-four bytes of the signature.
pub open spec fn filter_signature(bytes: Seq<u8>) -> Option<Seq<u8>> {
    if bytes.len() == 65 && bytes[0] == Mirror::FILTER_TAG {
        Some(bytes.skip(1))
    } else {
        None
    }
}

/// The filters before and after a datagram from the mirror server was taken in: one
/// that names a signature sets the filter for it, and any other changes nothing.
pub open spec fn taken_in(
    before: Map<Signature, u64>,
    bytes: Seq<u8>,
    now: u64,
    after: Map<Signature, u64>,
) -> bool {
    match filter_signature(bytes) {
        Some(signature) => exists|s: Signature|
            s@ == signature && after == #[trigger] before.insert(s, now),
        None => after == before,
    }
}

/// Reads a datagram from the mirror server.
pub fn parse_filter(bytes: &[u8]) -> (r: Option<Signature>)
    ensures
        match r {
            Some(signature) => filter_signature(bytes@) == Some(signature@),
            None => filter_signature(bytes@) is None,
        },
        r is Some <==> bytes@.len() == 65 && bytes@[0] == 0,
        r matches Some(signature) ==> forall|j: int|
            0 <= j < 64 ==> #[trigger] signature@[j] == bytes@[j + 1],
{
    if bytes.len() != 65 || bytes[0] != Mirror::FILTER_TAG {
        return None;
    }
    let mut signature: Signature = [0u8;64];
    let mut i: usize = 0;
    while i < 64
        invariant
            i <= 64,
            bytes@.len() == 65,
            forall|j: int| 0 <= j < i ==> #[trigger] signature@[j] == bytes@[j + 1],
        decreases 64 - i,
    {
        signature[i] = bytes[i + 1];
        i += 1;
    }
    assert(signature@ =~= bytes@.skip(1));
    Some(signature)
}

/// The library's side of the link: what goes out, what comes in, and what is
/// counted of it.
pub struct Mirror {
    /// The digest that the server's certificate must have.
    pub cert_pin: [u8; 32],
    /// Whether the link is up.
    pub connected: bool,
    /// What was sent and received since the last report.
    pub stats: MirrorStats,
    /// Where datagrams are put together.
    pub buffer: SendBuffer,
}

impl Mirror {
    /// How often an idle link is kept alive, in nanoseconds.
    pub const KEEP_ALIVE: u64 = 5 * NANOS_PER_SEC;

    /// When an idle link is given up, in nanoseconds.
    pub const IDLE_TIMEOUT: u64 = 30 * NANOS_PER_SEC;

    /// The pause after the first failure to connect, in nanoseconds.
    pub const BACKOFF_INITIAL: u64 = 250 * NANOS_PER_MILLI;

    /// The longest pause between attempts to connect, in nanoseconds.
    pub const BACKOFF_MAX: u64 = 5 * NANOS_PER_SEC;

    /// How often there is a report, in nanoseconds.
    pub const STATS_REPORT_INTERVAL: u64 = 5 * NANOS_PER_SEC;

    /// The largest bundle frame that is read.
    pub const MAX_BUNDLE_FRAME: usize = 4 * 1024 * 1024;

    /// Room for datagrams that wait to be sent.
    pub const DATAGRAM_SEND_BUFFER: usize = 4 * 1024 * 1024;

    /// The tag of a datagram that blocks a signature.
    pub const FILTER_TAG: u8 = 0;

    /// How often the connected validator is named, in nanoseconds.
    pub const CONTROL_INTERVAL: u64 = 1 * NANOS_PER_SEC;

    /// The send buffer is ready.
    pub open spec fn wf(&self) -> bool {
        self.buffer.wf()
    }

    /// A link that is down.
    pub fn new(cert_pin: [u8; 32]) -> (r: Self)
        ensures
            r.wf(),
            r.cert_pin == cert_pin,
            !r.connected,
            r.stats == no_stats(),
    {
        Mirror {
            cert_pin,
            connected: false,
            stats: MirrorStats::default(),
            buffer: SendBuffer::new(),
        }
    }

    /// Notes that the link went up or down.
    pub fn set(&mut self, connected: bool)
        requires
            old(self).wf(),
        ensures
            final(self).wf(),
            final(self).cert_pin == old(self).cert_pin,
            final(self).stats == old(self).stats,
            final(self).connected == connected,
    {
        self.connected = connected;
    }

    /// The datagram to send for a payload, where the link is up.
    pub fn send(&mut self, source: u8, data: &[u8]) -> (r: Option<Bytes>)
        requires
            old(self).wf(),
            fits_frame(data@),
        ensures
            final(self).wf(),
            final(self).cert_pin == old(self).cert_pin,
            final(self).stats == old(self).stats,
            final(self).connected == old(self).connected,
            r is Some <==> old(self).connected,
            r matches Some(frame) ==> is_frame(frozen(frame), source, data@),
    {
        self.send_at(source, now_nanos(), data)
    }

    /// The datagram to send for a payload at a time, where the link is up.
    pub fn send_at(&mut self, source: u8, nanos: u64, data: &[u8]) -> (r: Option<Bytes>)
        requires
            old(self).wf(),
            fits_frame(data@),
        ensures
            final(self).wf(),
            final(self).cert_pin == old(self).cert_pin,
            final(self).stats == old(self).stats,
            final(self).connected == old(self).connected,
            r is Some <==> old(self).connected,
            r matches Some(frame) ==> frozen(frame) == frame_bytes(source, nanos, data@),
    {
        if !self.connected {
            return None;
        }
        Some(self.buffer.frame(source, nanos, data))
    }

    /// Counts a datagram that was handed to the network.
    pub fn record_send(&mut self, source: u8, outcome: SendOutcome)
        requires
            old(self).wf(),
        ensures
            final(self).wf(),
            final(self).cert_pin == old(self).cert_pin,
            final(self).connected == old(self).connected,
            final(self).stats == with_send(old(self).stats, source, outcome),
    {
        self.stats.record_send(source, outcome);
    }

    /// Takes in a datagram from the server. One that names a signature blocks it
    /// from now on; any other is ignored.
    pub fn ingest_filter(&mut self, filter_set: &mut FilterSet, bytes: &[u8])
        requires
            old(self).wf(),
            old(filter_set).wf(),
        ensures
            final(self).wf(),
            final(filter_set).wf(),
            final(self).cert_pin == old(self).cert_pin,
            final(self).connected == old(self).connected,
            match filter_signature(bytes@) {
                Some(signature) => {
                    &&& exists|s: Signature, now: u64|
                        s@ == signature && final(filter_set)@ == #[trigger] old(filter_set)@.insert(
                            s,
                            now,
                        )
                    &&& final(self).stats == (MirrorStats {
                        filters_received: old(self).stats.filters_received.wrapping_add(1),
                        ..old(self).stats
                    })
                },
                None => final(filter_set)@ == old(filter_set)@ && final(self).stats == old(
                    self,
                ).stats,
            },
            exists|now: u64| #[trigger]
                taken_in(old(filter_set)@, bytes@, now, final(filter_set)@),
    {
        let now: u64 = filter_set.now();
        self.ingest_filter_at(filter_set, bytes, now);
    }

    /// Takes in a datagram from the server at a time.
    pub fn ingest_filter_at(&mut self, filter_set: &mut FilterSet, bytes: &[u8], now: u64)
        requires
            old(self).wf(),
            old(filter_set).wf(),
        ensures
            final(self).wf(),
            final(filter_set).wf(),
            final(self).cert_pin == old(self).cert_pin,
            final(self).connected == old(self).connected,
            match filter_signature(bytes@) {
                Some(signature) => {
                    &&& exists|s: Signature|
                        s@ == signature && final(filter_set)@ == #[trigger] old(filter_set)@.insert(
                            s,
                            now,
                        )
                    &&& final(self).stats == (MirrorStats {
                        filters_received: old(self).stats.filters_received.wrapping_add(1),
                        ..old(self).stats
                    })
                },
                None => final(filter_set)@ == old(filter_set)@ && final(self).stats == old(
                    self,
                ).stats,
            },
            taken_in(old(filter_set)@, bytes@, now, final(filter_set)@),
    {
        match parse_filter(bytes) {
            Some(signature) => {
                filter_set.insert_at(signature, now);
                self.stats.record_filter();
            },
            None => {},
        }
    }
}

/// What the control datagrams last named.
pub struct ControlReporter {
    /// The validator that was named last.
    pub last: Option<Pubkey>,
}

/// What to do on a control tick.
pub struct ControlTick {
    /// The datagram to send.
    pub frame: Option<Bytes>,
    /// The validator to announce, where it was not the one before.
    pub announce: Option<Pubkey>,
}

impl ControlReporter {
    /// Nothing named so far.
    pub fn new() -> (r: Self)
        ensures
            r.last is None,
    {
        ControlReporter { last: None }
    }
}

impl Mirror {
    /// Names the connected validator to the server. A tick without a validator
    /// does nothing; one with a validator sends its identity, and announces it
    /// where it is not the one named last.
    pub fn mirror_control(
        &mut self,
        reporter: &mut ControlReporter,
        identity: Option<Pubkey>,
    ) -> (r: ControlTick)
        requires
            old(self).wf(),
        ensures
            final(self).wf(),
            final(self).cert_pin == old(self).cert_pin,
            final(self).connected == old(self).connected,
            final(self).stats == old(self).stats,
            match identity {
                Some(id) => {
                    &&& final(reporter).last == Some(id)
                    &&& r.announce == (if old(reporter).last == Some(id) {
                        None::<Pubkey>
                    } else {
                        Some(id)
                    })
                    &&& r.frame is Some <==> old(self).connected
                    &&& r.frame matches Some(frame) ==> is_frame(
                        frozen(frame),
                        Proxy::SOURCE_CONTROL,
                        id@,
                    )
                },
                None => final(reporter).last == old(reporter).last && r.announce is None && r.frame is None,
            },
    {
        match identity {
            Some(id) => {
                let known = match &reporter.last {
                    Some(last) => last.same(&id),
                    None => false,
                };
                let announce = if known {
                    None
                } else {
                    Some(id)
                };
                reporter.last = Some(id);
                ControlTick { frame: self.send(Proxy::SOURCE_CONTROL, id.as_slice()), announce }
            },
            None => ControlTick { frame: None, announce: None },
        }
    }
}

} // verus!
