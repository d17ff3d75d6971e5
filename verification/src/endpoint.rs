//! The address of a datastore that is reached through the `surrealcs` scheme.

use vstd::prelude::*;
use vstd::string::StringExecFns;

verus! {

/// The scheme, as an address starts.
pub const PROTOCOL: &'static str = "surrealcs://";

/// The address of the datastore at `path`: the scheme and the path.
pub fn surrealcs_address(path: &str) -> (address: String)
    ensures
        address@ == PROTOCOL@ + path@,
{
    let mut address = String::new();
    address.append(PROTOCOL);
    address.append(path);
    assert(address@ =~= PROTOCOL@ + path@);
    address
}

} // verus!
