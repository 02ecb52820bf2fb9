//! The node's own listen endpoint, as configured for a local deployment.
use vstd::prelude::*;

verus! {

/// The address this node listens on.
pub fn get_self_ip() -> (r: String)
    ensures
        r@ == "[::1]"@,
{
    let s = "[::1]";
    s.to_owned()
}

/// The port this node listens on.
pub fn get_self_port() -> (r: u32)
    ensures
        r == 5002,
{
    5002
}

} // verus!
