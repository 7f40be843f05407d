//! Bundles of packets.

use crate::protos::packet::Packet;
use crate::protos::shared::Header;
use vstd::prelude::*;

verus! {

/// Packets that stand or fall together.
#[derive(Clone, Debug, PartialEq, Eq)]
pub struct Bundle {
    pub header: Option<Header>,
    pub packets: Vec<Packet>,
}

/// A bundle with its identifier.
#[derive(Clone, Debug, PartialEq, Eq)]
pub struct BundleUuid {
    pub bundle: Option<Bundle>,
    pub uuid: String,
}

} // verus!
