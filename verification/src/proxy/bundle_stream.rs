//! Bundles on a byte stream.
//!
//! Each message is preceded by its length in four bytes, the low byte first.

use crate::proxy::mirror::Mirror;
use crate::proxy::stats::MirrorStats;
use vstd::bytes::spec_u32_from_le_bytes;
use vstd::bytes::spec_u32_to_le_bytes;
use vstd::bytes::u32_from_le_bytes;
use vstd::bytes::u32_to_le_bytes;
use vstd::prelude::*;

verus! {

/// What happened on the stream to the server.
pub enum OutEvent {
    /// The program shuts down.
    Shutdown,
    /// A message was encoded, with so many bundles in it.
    Encoded { body: Vec<u8>, bundles: u64 },
    /// A message could not be encoded.
    EncodeFailed,
    /// Messages were lost before they got here.
    Lagged,
    /// There will be no more messages.
    Closed,
    /// A message with so many bundles was written.
    Written { bundles: u64 },
    /// A message could not be written.
    WriteFailed,
}

/// What to do on the stream to the server.
pub enum OutAction {
    /// Wait for the next message.
    Receive,
    /// Write the length, and then the message.
    Write { length: Vec<u8>, body: Vec<u8>, bundles: u64 },
    /// End the stream in order, and stop.
    Finish,
    /// Stop.
    Stop,
}

/// What happened on a stream from the server.
pub enum InEvent {
    /// The stream was opened.
    Started,
    /// The length of a message was read.
    Length([u8; 4]),
    /// A message was read.
    Body(Vec<u8>),
    /// The stream ended, or could not be read.
    ReadFailed,
    /// A message was decoded, with so many bundles in it.
    Decoded { bundles: u64 },
    /// A message could not be decoded.
    DecodeFailed,
}

/// What to do on a stream from the server.
pub enum InAction {
    /// Read four bytes.
    ReadLength,
    /// Read so many bytes.
    ReadBody(usize),
    /// Decode a message and pass it on.
    Decode(Vec<u8>),
    /// Stop.
    Stop,
}

/// The length that precedes a message.
pub open spec fn length_prefix(body: Seq<u8>) -> Seq<u8> {
    spec_u32_to_le_bytes(body.len() as u32)
}

/// Whether `action` is what follows `event` on the stream to the server.
pub open spec fn out_follows(event: OutEvent, action: OutAction) -> bool {
    match event {
        OutEvent::Encoded { body, bundles } => action matches OutAction::Write {
            length,
            body: written,
            bundles: counted,
        } && length@ == length_prefix(body@) && written == body && counted == bundles,
        OutEvent::EncodeFailed | OutEvent::Lagged | OutEvent::Written { .. } => action
            is Receive,
        OutEvent::Shutdown | OutEvent::Closed => action is Finish,
        OutEvent::WriteFailed => action is Stop,
    }
}

/// Whether `action` is what follows `event` on a stream from the server.
pub open spec fn in_follows(event: InEvent, shutdown: bool, action: InAction) -> bool {
    match event {
        InEvent::Started | InEvent::Decoded { .. } | InEvent::DecodeFailed => if shutdown {
            action is Stop
        } else {
            action is ReadLength
        },
        InEvent::Length(prefix) => {
            let len = spec_u32_from_le_bytes(prefix@);
            if len <= Mirror::MAX_BUNDLE_FRAME {
                action matches InAction::ReadBody(n) && n == len
            } else {
                action is Stop
            }
        },
        InEvent::Body(body) => action == InAction::Decode(body),
        InEvent::ReadFailed => action is Stop,
    }
}

impl MirrorStats {
    /// Takes an event of the stream to the server into account and says what to
    /// do. Bundles count as sent once they are written.
    pub fn mirror_bundles_out(&mut self, event: OutEvent) -> (r: OutAction)
        ensures
            out_follows(event, r),
            *final(self) == (match event {
                OutEvent::Written { bundles } => MirrorStats {
                    bundles_sent: old(self).bundles_sent.wrapping_add(bundles),
                    ..*old(self)
                },
                _ => *old(self),
            }),
    {
        match event {
            OutEvent::Shutdown => OutAction::Finish,
            OutEvent::Encoded { body, bundles } => {
                let len: usize = body.len();
                let length = u32_to_le_bytes(#[verifier::truncate] (len as u32));
                OutAction::Write { length, body, bundles }
            },
            OutEvent::EncodeFailed => OutAction::Receive,
            OutEvent::Lagged => OutAction::Receive,
            OutEvent::Closed => OutAction::Finish,
            OutEvent::Written { bundles } => {
                self.record_bundles_sent(bundles);
                OutAction::Receive
            },
            OutEvent::WriteFailed => OutAction::Stop,
        }
    }

    /// Takes an event of a stream from the server into account and says what to
    /// do. A message that is too long ends the stream; one that cannot be decoded
    /// does not. Bundles count as received once they are decoded.
    pub fn read_bundle_stream(&mut self, event: InEvent, shutdown: bool) -> (r: InAction)
        ensures
            in_follows(event, shutdown, r),
            *final(self) == (match event {
                InEvent::Decoded { bundles } => MirrorStats {
                    bundles_received: old(self).bundles_received.wrapping_add(bundles),
                    ..*old(self)
                },
                _ => *old(self),
            }),
    {
        match event {
            InEvent::Length(prefix) => {
                let len: usize = u32_from_le_bytes(prefix.as_slice()) as usize;
                if len > Mirror::MAX_BUNDLE_FRAME {
                    InAction::Stop
                } else {
                    InAction::ReadBody(len)
                }
            },
            InEvent::Body(body) => InAction::Decode(body),
            InEvent::ReadFailed => InAction::Stop,
            InEvent::Decoded { bundles } => {
                self.record_bundles_received(bundles);
                if shutdown {
                    InAction::Stop
                } else {
                    InAction::ReadLength
                }
            },
            InEvent::Started => {
                if shutdown {
                    InAction::Stop
                } else {
                    InAction::ReadLength
                }
            },
            InEvent::DecodeFailed => {
                if shutdown {
                    InAction::Stop
                } else {
                    InAction::ReadLength
                }
            },
        }
    }
}

/// The bytes that a message takes on a stream.
pub open spec fn message_bytes(body: Seq<u8>) -> Seq<u8> {
    length_prefix(body) + body
}

/// The bytes that messages take on a stream.
pub open spec fn stream_bytes(bodies: Seq<Seq<u8>>) -> Seq<u8>
    decreases bodies.len(),
{
    if bodies.len() == 0 {
        Seq::empty()
    } else {
        message_bytes(bodies[0]) + stream_bytes(bodies.drop_first())
    }
}

/// The messages that a reader gets out of a stream: as long as a length of at
/// most [`Mirror::MAX_BUNDLE_FRAME`] comes, and then as many bytes.
pub open spec fn read_stream(bytes: Seq<u8>) -> Seq<Seq<u8>>
    decreases bytes.len(),
{
    if bytes.len() < 4 {
        Seq::empty()
    } else {
        let len = spec_u32_from_le_bytes(bytes.take(4)) as int;
        if len > Mirror::MAX_BUNDLE_FRAME || bytes.len() < 4 + len {
            Seq::empty()
        } else {
            seq![bytes.subrange(4, 4 + len)] + read_stream(bytes.skip(4 + len))
        }
    }
}

/// The length that precedes a message tells a reader how much to read.
pub proof fn law_length_prefix_reads_back(body: Seq<u8>, prefix: [u8; 4], action: InAction)
    requires
        body.len() <= Mirror::MAX_BUNDLE_FRAME,
        prefix@ == length_prefix(body),
        in_follows(InEvent::Length(prefix), false, action),
    ensures
        action matches InAction::ReadBody(n) && n == body.len(),
{
    vstd::bytes::lemma_auto_spec_u32_to_from_le_bytes();
    assert(length_prefix(body).len() == 4);
}

/// [`read_stream`] is what comes of [`MirrorStats::read_bundle_stream`]: after a
/// length it reads as much as the function says, and where the function stops
/// there is nothing more to read.
pub proof fn law_reader_reads_the_stream(prefix: [u8; 4], rest: Seq<u8>, action: InAction)
    requires
        in_follows(InEvent::Length(prefix), false, action),
    ensures
        match action {
            InAction::ReadBody(n) => read_stream(prefix@ + rest) == if rest.len() < n {
                Seq::<Seq<u8>>::empty()
            } else {
                seq![rest.take(n as int)] + read_stream(rest.skip(n as int))
            },
            _ => action is Stop && read_stream(prefix@ + rest) == Seq::<Seq<u8>>::empty(),
        },
{
    let bytes = prefix@ + rest;
    assert(bytes.take(4) =~= prefix@);
    let len = spec_u32_from_le_bytes(prefix@) as int;
    if len <= Mirror::MAX_BUNDLE_FRAME && len <= rest.len() {
        assert(bytes.subrange(4, 4 + len) =~= rest.take(len));
        assert(bytes.skip(4 + len) =~= rest.skip(len));
    }
}

/// What is written on a stream is what is read from it: the same messages in the
/// same order, as long as none is too long.
pub proof fn law_bundle_stream_round_trip(bodies: Seq<Seq<u8>>)
    requires
        forall|i: int|
            0 <= i < bodies.len() ==> (#[trigger] bodies[i]).len() <= Mirror::MAX_BUNDLE_FRAME,
    ensures
        read_stream(stream_bytes(bodies)) == bodies,
    decreases bodies.len(),
{
    if bodies.len() == 0 {
        assert(read_stream(stream_bytes(bodies)) =~= bodies);
    } else {
        let body = bodies[0];
        let rest = bodies.drop_first();
        let bytes = stream_bytes(bodies);
        vstd::bytes::lemma_auto_spec_u32_to_from_le_bytes();
        assert forall|i: int| 0 <= i < rest.len() implies (#[trigger] rest[i]).len()
            <= Mirror::MAX_BUNDLE_FRAME by {
            assert(rest[i] == bodies[i + 1]);
        }
        law_bundle_stream_round_trip(rest);
        assert(bytes.take(4) =~= length_prefix(body));
        assert(bytes.subrange(4, 4 + body.len() as int) =~= body);
        assert(bytes.skip(4 + body.len() as int) =~= stream_bytes(rest));
        assert(seq![body] + rest =~= bodies);
    }
}

/// A message that is too long ends a stream: nothing behind it is read.
pub proof fn law_oversized_message_ends_the_stream(body: Seq<u8>, rest: Seq<u8>)
    requires
        Mirror::MAX_BUNDLE_FRAME < body.len() <= u32::MAX,
    ensures
        read_stream(message_bytes(body) + rest) == Seq::<Seq<u8>>::empty(),
{
    vstd::bytes::lemma_auto_spec_u32_to_from_le_bytes();
    assert((message_bytes(body) + rest).take(4) =~= length_prefix(body));
}

} // verus!
