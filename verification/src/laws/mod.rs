//! What the library promises, said of bytes, fields and times alone.
//!
//! The statements here do not lean on the vocabulary in which the functions are
//! specified: what a promise needs, it spells out.

pub mod filtering;
pub mod forwarding;
pub mod mirroring;
pub mod pinning;
pub mod running;
