//! Messages of the block engine.

use crate::protos::bundle::BundleUuid;
use crate::protos::packet::PacketBatch;
use crate::protos::shared::Header;
use vstd::prelude::*;

verus! {

/// Packets for a validator.
#[derive(Clone, Debug, PartialEq, Eq)]
pub struct SubscribePacketsResponse {
    pub header: Option<Header>,
    pub batch: Option<PacketBatch>,
}

/// Bundles for a validator.
#[derive(Clone, Debug, PartialEq, Eq)]
pub struct SubscribeBundlesResponse {
    pub bundles: Vec<BundleUuid>,
}

/// Where a block engine can be reached.
#[derive(Clone, Debug, PartialEq, Eq)]
pub struct BlockEngineEndpoint {
    pub block_engine_url: String,
    pub shredstream_receiver_address: String,
}

/// The block engines that there are.
#[derive(Clone, Debug, PartialEq, Eq)]
pub struct GetBlockEngineEndpointResponse {
    pub global_endpoint: Option<BlockEngineEndpoint>,
    pub regioned_endpoints: Vec<BlockEngineEndpoint>,
}

} // verus!
