//! What the proxy does with packets and bundles on their way through.

use crate::clock::NANOS_PER_MILLI;
use vstd::prelude::*;

pub mod bundle_stream;
pub mod cert_pin;
pub mod delay;
pub mod filter_set;
pub mod frame;
pub mod mirror;
pub mod packets;
pub mod session;
pub mod stats;

verus! {

/// The proxy holds packets and bundles back for a moment, in which the mirror
/// server sees them first and may block some of them.
pub struct Proxy;

impl Proxy {
    /// How long the relayer's loop waits where nothing is held back, in
    /// nanoseconds.
    pub const IDLE_TICK: u64 = 100 * NANOS_PER_MILLI;

    /// Marks a datagram with a packet that came in through the relayer.
    pub const SOURCE_RELAYER: u8 = 0;

    /// Marks a datagram with a packet that came from the block engine.
    pub const SOURCE_BLOCKENGINE: u8 = 1;

    /// Marks a datagram that names the connected validator.
    pub const SOURCE_CONTROL: u8 = 2;

    /// How long packets and bundles are held back, in nanoseconds.
    pub const PACKET_DELAY: u64 = 100 * NANOS_PER_MILLI;
}

} // verus!
