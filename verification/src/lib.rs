//! The verified core of a relayer that stands between a validator, its block
//! engine and a mirroring server.
//!
//! Everything here is a computation on plain values. Sockets, threads, timers
//! and gRPC plumbing live in the program around the library.

pub mod table;
pub mod text;
pub mod clock;
pub mod identity;
pub mod protos;
pub mod relayer;
pub mod blockengine;
pub mod rpc;
pub mod proxy;
pub mod laws;
