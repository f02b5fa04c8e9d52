//! The acceptor: answers Prepare, Accept and Ping requests against versioned
//! storage, enforcing the Paxos acceptor invariants. Every request maps to
//! exactly one response; no request ever fails with an error.

use vstd::prelude::*;
use crate::messages::{response_matches, Envelope, Message, Request, Response};
use crate::storage::Storage;
use crate::versioned::VersionedValue;

verus! {

/// An acceptor over its own versioned storage.
#[derive(Debug)]
pub struct Server {
    storage: Storage,
}

/// All keys read the same in `post` as in `pre`.
pub open spec fn state_unchanged(pre: Server, post: Server) -> bool {
    forall|k: Seq<u8>| #![trigger post.promised_of(k)]
        post.promised_of(k) == pre.promised_of(k) && post.accepted_ballot_of(k)
            == pre.accepted_ballot_of(k) && post.accepted_payload_of(k)
            == pre.accepted_payload_of(k)
}

/// What answering `Prepare { ballot, key }` does: the promise is granted
/// exactly strictly above the promised ballot (two proposers holding the same
/// ballot must not both believe they hold the promise), the answer always
/// carries the presently accepted value so the proposer can discover prior
/// work, the accepted value is untouched, and no other key changes.
pub open spec fn prepare_post(
    pre: Server,
    post: Server,
    ballot: u64,
    key: Seq<u8>,
    resp: Response,
) -> bool {
    &&& resp matches Response::Promise { success, current_value } && success == (ballot
        > pre.promised_of(key)) && current_value.ballot == pre.accepted_ballot_of(key)
        && current_value.payload() == pre.accepted_payload_of(key)
    &&& post.promised_of(key) == if ballot > pre.promised_of(key) {
        ballot
    } else {
        pre.promised_of(key)
    }
    &&& post.accepted_ballot_of(key) == pre.accepted_ballot_of(key)
    &&& post.accepted_payload_of(key) == pre.accepted_payload_of(key)
    &&& forall|k2: Seq<u8>| #![trigger post.promised_of(k2)]
        k2 != key ==> post.promised_of(k2) == pre.promised_of(k2) && post.accepted_ballot_of(k2)
            == pre.accepted_ballot_of(k2) && post.accepted_payload_of(k2)
            == pre.accepted_payload_of(k2)
}

/// What answering `Accept { key, value }` does: the store succeeds exactly at
/// or above the promised ballot (a proposer re-sending its own accept at the
/// ballot it promised must succeed), raising the promise to that ballot and
/// recording the value; a refusal carries the accepted value that blocked it
/// and changes nothing; no other key changes.
pub open spec fn accept_post(
    pre: Server,
    post: Server,
    key: Seq<u8>,
    value: VersionedValue,
    resp: Response,
) -> bool {
    &&& resp matches Response::Accepted { success } && (success is Ok) == (value.ballot
        >= pre.promised_of(key)) && (success matches Err(cur) ==> cur.ballot
        == pre.accepted_ballot_of(key) && cur.payload() == pre.accepted_payload_of(key))
    &&& value.ballot >= pre.promised_of(key) ==> post.promised_of(key) == value.ballot
        && post.accepted_ballot_of(key) == value.ballot && post.accepted_payload_of(key)
        == value.payload()
    &&& value.ballot < pre.promised_of(key) ==> post.promised_of(key) == pre.promised_of(key)
        && post.accepted_ballot_of(key) == pre.accepted_ballot_of(key)
        && post.accepted_payload_of(key) == pre.accepted_payload_of(key)
    &&& forall|k2: Seq<u8>| #![trigger post.promised_of(k2)]
        k2 != key ==> post.promised_of(k2) == pre.promised_of(k2) && post.accepted_ballot_of(k2)
            == pre.accepted_ballot_of(k2) && post.accepted_payload_of(k2)
            == pre.accepted_payload_of(k2)
}

/// The whole acceptor transition: what one request does to the state and
/// what its one response holds, variant by variant. This relation reads the
/// request only through its ballot, key bytes and value (ballot, payload),
/// so it holds equally of any faithful copy of the request.
pub open spec fn handle_post(pre: Server, post: Server, req: Request, resp: Response) -> bool {
    match req {
        Request::Prepare { ballot, key } => prepare_post(pre, post, ballot, key@, resp),
        Request::Accept { key, value } => accept_post(pre, post, key@, value, resp),
        Request::Ping => resp is Pong && state_unchanged(pre, post),
    }
}

impl Server {
    /// The highest ballot this acceptor has promised for `key`.
    pub closed spec fn promised_of(&self, key: Seq<u8>) -> u64 {
        self.storage.promised_of(key)
    }

    /// The ballot of the value this acceptor currently accepts for `key`.
    pub closed spec fn accepted_ballot_of(&self, key: Seq<u8>) -> u64 {
        self.storage.accepted_ballot_of(key)
    }

    /// The payload this acceptor currently accepts for `key`.
    pub closed spec fn accepted_payload_of(&self, key: Seq<u8>) -> Option<Seq<u8>> {
        self.storage.accepted_payload_of(key)
    }

    /// Well-formedness of the underlying storage.
    pub closed spec fn wf(&self) -> bool {
        self.storage.wf()
    }

    /// A fresh acceptor: nothing promised, nothing accepted, for any key.
    pub fn new() -> (r: Server)
        ensures
            r.wf(),
            forall|k: Seq<u8>| #![trigger r.promised_of(k)]
                r.promised_of(k) == 0 && r.accepted_ballot_of(k) == 0 && r.accepted_payload_of(k)
                    is None,
    {
        Server { storage: Storage::new() }
    }

    /// Reads the promised ballot and accepted value for one key, for
    /// inspection by tests and callers.
    pub fn snapshot(&self, key: &Vec<u8>) -> (r: (u64, VersionedValue))
        ensures
            r.0 == self.promised_of(key@),
            r.1.ballot == self.accepted_ballot_of(key@),
            r.1.payload() == self.accepted_payload_of(key@),
    {
        self.storage.get(key)
    }

    /// Processes one request and produces its one response, exactly as
    /// `handle_post` states. Promised ballots never decrease, and on
    /// well-formed storage accepted ballots never decrease.
    pub fn handle(&mut self, req: Request) -> (resp: Response)
        ensures
            old(self).wf() ==> final(self).wf(),
            response_matches(req, resp),
            handle_post(*old(self), *final(self), req, resp),
            forall|k: Seq<u8>| #![trigger final(self).promised_of(k)]
                final(self).promised_of(k) >= old(self).promised_of(k),
            old(self).wf() ==> forall|k: Seq<u8>| #![trigger final(self).accepted_ballot_of(k)]
                final(self).accepted_ballot_of(k) >= old(self).accepted_ballot_of(k),
    {
        match req {
            Request::Prepare { ballot, key } => {
                let success = self.storage.promise(&key, ballot);
                let (_, current) = self.storage.get(&key);
                Response::Promise { success, current_value: current }
            },
            Request::Accept { key, value } => {
                let success = self.storage.accept(&key, value);
                Response::Accepted { success }
            },
            Request::Ping => Response::Pong,
        }
    }

    /// Unwraps an enveloped request, handles it exactly as `handle` would,
    /// and wraps the response under the identifier of the request, so the
    /// reply can be correlated. An enveloped response is not for an acceptor
    /// and is dropped without any state change.
    pub fn handle_envelope(&mut self, env: Envelope) -> (r: Option<Envelope>)
        ensures
            old(self).wf() ==> final(self).wf(),
            (r is Some) == (env.message is Request),
            env.message matches Message::Request(req) ==> {
                &&& r matches Some(out)
                &&& out.uuid == env.uuid
                &&& out.message matches Message::Response(resp)
                &&& response_matches(req, resp)
                &&& handle_post(*old(self), *final(self), req, resp)
            },
            env.message is Response ==> state_unchanged(*old(self), *final(self)),
            forall|k: Seq<u8>| #![trigger final(self).promised_of(k)]
                final(self).promised_of(k) >= old(self).promised_of(k),
            old(self).wf() ==> forall|k: Seq<u8>| #![trigger final(self).accepted_ballot_of(k)]
                final(self).accepted_ballot_of(k) >= old(self).accepted_ballot_of(k),
    {
        match env.message {
            Message::Request(req) => {
                let resp = self.handle(req);
                Some(Envelope::reply(env.uuid, resp))
            },
            Message::Response(_) => None,
        }
    }
}

} // verus!
