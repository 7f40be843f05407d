//! Which validators may subscribe.

use crate::identity::Pubkey;
use vstd::prelude::*;

verus! {

/// Lets every validator subscribe.
#[derive(Clone, Copy, Debug)]
pub struct ValidatorAutherImpl {}

impl Default for ValidatorAutherImpl {
    fn default() -> (r: Self)
        ensures
            r == (ValidatorAutherImpl {  }),
    {
        ValidatorAutherImpl {  }
    }
}

impl ValidatorAutherImpl {
    /// Whether a validator may subscribe: each may.
    pub fn is_authorized(&self, pubkey: &Pubkey) -> (r: bool)
        ensures
            r,
    {
        true
    }
}

} // verus!
