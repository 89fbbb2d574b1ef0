//! Identifiers of stored records and queued actions.
use crate::text::{hex, hex_string};
use vstd::prelude::*;

verus! {

/// Calls `rand::random::<u64>()`; nothing is claimed of the number drawn.
#[verifier::external_body]
fn random_u64() -> (r: u64) {
    rand::random::<u64>()
}

/// A fresh identifier: a random 64-bit number in lower-case hexadecimal
/// (`format!("{:x}", random::<u64>())`).
pub fn new_record_id() -> (r: String)
    ensures
        exists|n: u64| r@ == hex(n as nat),
{
    let n = random_u64();
    hex_string(n)
}

} // verus!
