//! The local stand-in for a block engine.

pub mod service;

use crate::text::decimal;
use crate::text::decimal_text;
use vstd::prelude::*;
use vstd::string::StringExecFns;

verus! {

/// The local stand-in for a block engine.
pub struct Blockengine;

/// The URL under which the stand-in is reached.
pub open spec fn local_url(ip: Seq<char>, port: u16) -> Seq<char> {
    "http://"@ + ip + ":"@ + decimal(port as nat)
}

impl Blockengine {
    /// Messages that a slow reader may be behind.
    pub const BLOCKENGINE_CHANNEL_LIMIT: usize = 50_000;

    /// The URL under which the stand-in is reached.
    pub fn local_blockengine_url(ip: &str, port: u16) -> (r: String)
        ensures
            r@ == local_url(ip@, port),
    {
        let mut r = String::from_str("http://");
        r.append(ip);
        r.append(":");
        let digits = decimal_text(port as u64);
        r.append(digits.as_str());
        r
    }
}

} // verus!
