//! Parts that several messages have in common.

use vstd::prelude::*;

verus! {

/// A point in time: seconds since the Unix epoch and nanoseconds within the
/// second.
#[derive(Clone, Copy, Debug, PartialEq, Eq)]
pub struct Timestamp {
    pub seconds: i64,
    pub nanos: i32,
}

/// When a message was made.
#[derive(Clone, Copy, Debug, PartialEq, Eq)]
pub struct Header {
    pub ts: Option<Timestamp>,
}

/// A sign of life.
#[derive(Clone, Copy, Debug, PartialEq, Eq)]
pub struct Heartbeat {
    pub count: u64,
}

/// An address to send to.
#[derive(Clone, Debug, PartialEq, Eq)]
pub struct Socket {
    pub ip: String,
    pub port: i64,
}

} // verus!
