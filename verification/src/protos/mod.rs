//! The messages that the relayer exchanges with validators, block engines and
//! the mirror server, as plain values.

pub mod block_engine;
pub mod bundle;
pub mod packet;
pub mod relayer;
pub mod shared;
