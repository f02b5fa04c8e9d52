//! The network abstraction: a capability for sending one request to a
//! specific peer and awaiting the correlated response within a deadline. The
//! proposer and the liveness checks depend only on this interface, never on
//! which transport implements it.

use vstd::prelude::*;
use crate::messages::{response_matches, NetError, Request, Response};

verus! {

/// A transport that can deliver one request and return the correlated
/// response, or report why none arrived. Success, timeout and error
/// semantics are identical across implementations; a returned response
/// always structurally matches the request that was sent, so a caller that
/// knows which request it sent knows which response variant it holds.
pub trait Net {
    fn request(&mut self, peer: usize, req: &Request, timeout_ms: u64) -> (r: Result<
        Response,
        NetError,
    >)
        ensures
            r matches Ok(resp) ==> response_matches(*req, resp),
    ;
}

} // verus!
