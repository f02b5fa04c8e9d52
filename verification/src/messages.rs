//! The request/response taxonomy and the uniquely identified envelope that
//! lets a reply be matched to its originating request over a transport that
//! may lose, duplicate or reorder datagrams.

use vstd::prelude::*;
use crate::versioned::{copy_bytes, VersionedValue};

verus! {

/// A request sent by a proposer (or a liveness checker) to an acceptor.
#[derive(Debug, Clone)]
pub enum Request {
    Prepare { ballot: u64, key: Vec<u8> },
    Accept { key: Vec<u8>, value: VersionedValue },
    Ping,
}

/// An acceptor's answer. `Promise.current_value` is always the presently
/// accepted value, whether or not the promise was granted; a rejected
/// `Accepted` carries the value that blocked it.
#[derive(Debug)]
pub enum Response {
    Promise { success: bool, current_value: VersionedValue },
    Accepted { success: Result<(), VersionedValue> },
    Pong,
}

/// Either side of the wire protocol.
#[derive(Debug)]
pub enum Message {
    Request(Request),
    Response(Response),
}

/// A message wrapped with the unique identifier that correlates a response
/// to the request that elicited it.
#[derive(Debug)]
pub struct Envelope {
    pub uuid: u128,
    pub message: Message,
}

/// Why a network request produced no usable response. A proposer treats every
/// variant as a non-vote, never as a rejection.
#[derive(Debug, Clone, Copy, PartialEq, Eq, Structural)]
pub enum NetError {
    /// No response arrived within the deadline.
    Timeout,
    /// The peer could not be reached at all.
    Unreachable,
    /// A datagram arrived but could not be decoded, or its variant did not
    /// match the request that was sent.
    Malformed,
}

/// Why a `propose` call gave up.
#[derive(Debug, Clone, Copy, PartialEq, Eq, Structural)]
pub enum ConsensusError {
    /// No strict majority of acceptors answered favourably within the bounded
    /// number of escalating attempts.
    NoQuorum,
}

/// The response variant that each request variant structurally guarantees:
/// a prepare is answered by a promise, an accept by an accepted, a ping by a
/// pong.
pub open spec fn response_matches(req: Request, resp: Response) -> bool {
    match req {
        Request::Prepare { .. } => resp is Promise,
        Request::Accept { .. } => resp is Accepted,
        Request::Ping => resp is Pong,
    }
}

impl Response {
    /// Reads a response known to be a `Promise`; callers know which request
    /// they sent, so the variant is structurally guaranteed.
    pub fn to_promise(self) -> (r: (bool, VersionedValue))
        requires
            self is Promise,
        ensures
            r.0 == self->Promise_success,
            r.1 == self->Promise_current_value,
    {
        if let Response::Promise { success, current_value } = self {
            (success, current_value)
        } else {
            unreached()
        }
    }

    /// Reads a response known to be an `Accepted`.
    pub fn to_accepted(self) -> (r: Result<(), VersionedValue>)
        requires
            self is Accepted,
        ensures
            r == self->Accepted_success,
    {
        if let Response::Accepted { success } = self {
            success
        } else {
            unreached()
        }
    }

    /// True exactly when the response is a `Pong`.
    pub fn is_pong(self) -> (r: bool)
        ensures
            r == (self is Pong),
    {
        if let Response::Pong = self {
            true
        } else {
            false
        }
    }
}

impl Request {
    /// Copies a request, preserving its variant and all its fields exactly.
    pub fn dup(&self) -> (r: Request)
        ensures
            self matches Request::Prepare { ballot, key } ==> (r matches Request::Prepare {
                ballot: b2,
                key: k2,
            } && b2 == ballot && k2@ == key@),
            self matches Request::Accept { key, value } ==> (r matches Request::Accept {
                key: k2,
                value: v2,
            } && k2@ == key@ && v2.ballot == value.ballot && v2.payload() == value.payload()),
            self is Ping ==> r is Ping,
    {
        match self {
            Request::Prepare { ballot, key } => Request::Prepare {
                ballot: *ballot,
                key: copy_bytes(key),
            },
            Request::Accept { key, value } => Request::Accept {
                key: copy_bytes(key),
                value: value.dup(),
            },
            Request::Ping => Request::Ping,
        }
    }
}

impl Envelope {
    /// Wraps a response for the wire under the identifier of the request it
    /// answers, the correlation invariant of the protocol.
    pub fn reply(uuid: u128, response: Response) -> (r: Envelope)
        ensures
            r.uuid == uuid,
            r.message == Message::Response(response),
    {
        Envelope { uuid, message: Message::Response(response) }
    }

    /// Wraps a request under a freshly generated unique identifier.
    pub fn wrap_request(request: Request) -> (r: Envelope)
        ensures
            r.message == Message::Request(request),
    {
        Envelope { uuid: fresh_uuid(), message: Message::Request(request) }
    }
}

/// Relies on `uuid::Uuid::new_v4` for a globally unique identifier; nothing
/// is promised of the value, since it is drawn from the system's randomness.
#[verifier::external_body]
fn fresh_uuid() -> u128 {
    uuid::Uuid::new_v4().as_u128()
}

} // verus!
