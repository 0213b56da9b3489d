use vstd::prelude::*;

verus! {

/// The entry point of a client; it turns proxy strings into proxies.
pub struct Communicator {}

} // verus!
