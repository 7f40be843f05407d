//! The relayer: packets from the network to the validator.

pub mod auth;
pub mod batching;
pub mod forwarder;
pub mod keys;
pub mod staked_nodes_updater_service;
pub mod subscription;
pub mod tpu;
