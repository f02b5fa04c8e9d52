//! The simulated transport: routes each request in-process to the target
//! acceptor, injecting configurable message loss, response blackholes and
//! partitions. Deterministic for a fixed seed, so test runs are reproducible.

use vstd::prelude::*;
use crate::messages::{NetError, Request, Response};
use crate::net::Net;
use crate::server::{handle_post, Server};

verus! {

/// The next state of the linear congruential generator below.
pub open spec fn lcg_next(s: u64) -> u64 {
    (((s as int) * 6364136223846793005 + 1442695040888963407) % 0x10000000000000000) as u64
}

/// A small deterministic pseudo-random source; the same seed always yields
/// the same stream, which keeps simulated fault injection reproducible.
#[derive(Debug, Clone, Copy, PartialEq, Eq, Structural)]
pub struct Lcg {
    pub state: u64,
}

impl Lcg {
    /// A generator starting from `seed`.
    pub fn new(seed: u64) -> (r: Lcg)
        ensures
            r.state == seed,
    {
        Lcg { state: seed }
    }

    /// Advances the generator one step and returns the new state.
    pub fn next(&mut self) -> (r: u64)
        ensures
            final(self).state == lcg_next(old(self).state),
            r == final(self).state,
    {
        let wide: u128 = (self.state as u128) * 6364136223846793005u128 + 1442695040888963407u128;
        let trunc: u128 = wide % 0x10000000000000000u128;
        self.state = trunc as u64;
        self.state
    }

    /// Draws once and reports whether an event with probability
    /// `per_mille` in a thousand occurred.
    pub fn roll(&mut self, per_mille: u16) -> (r: bool)
        ensures
            final(self).state == lcg_next(old(self).state),
            r == (lcg_next(old(self).state) % 1000 < per_mille as u64),
    {
        let v = self.next();
        v % 1000 < per_mille as u64
    }
}

/// What the simulated network is configured to do to traffic.
#[derive(Debug)]
pub struct FaultProfile {
    /// Requests to a peer marked true here are silently dropped.
    pub drop_requests_to: Vec<bool>,
    /// Responses from a peer marked true here are silently dropped, after the
    /// acceptor has already processed the request.
    pub drop_responses_from: Vec<bool>,
    /// Network segment of each peer; delivery across segments is refused.
    /// A peer beyond the end of this list is in segment 0.
    pub segments: Vec<u64>,
    /// Segment the calling proposer sits in.
    pub caller_segment: u64,
    /// Per-mille probability that a message is lost, applied independently to
    /// the request and to the response.
    pub loss_per_mille: u16,
}

impl FaultProfile {
    /// A fault-free profile: nothing dropped, nothing partitioned.
    pub fn none() -> (r: FaultProfile)
        ensures
            r.drop_requests_to@.len() == 0,
            r.drop_responses_from@.len() == 0,
            r.segments@.len() == 0,
            r.caller_segment == 0,
            r.loss_per_mille == 0,
    {
        FaultProfile {
            drop_requests_to: Vec::new(),
            drop_responses_from: Vec::new(),
            segments: Vec::new(),
            caller_segment: 0,
            loss_per_mille: 0,
        }
    }
}

/// Whether one draw at generator state `s` loses a message under the given
/// per-mille loss rate.
pub open spec fn roll_hits(s: u64, per_mille: u16) -> bool {
    lcg_next(s) % 1000 < per_mille as u64
}

/// The segment a peer sits in: the configured one, or segment 0 beyond the
/// end of the list.
pub open spec fn segment_of(p: FaultProfile, peer: int) -> u64 {
    if 0 <= peer < p.segments@.len() {
        p.segments@[peer]
    } else {
        0
    }
}

/// Whether the profile blackholes requests to this peer.
pub open spec fn drops_request_to(p: FaultProfile, peer: int) -> bool {
    0 <= peer < p.drop_requests_to@.len() && p.drop_requests_to@[peer]
}

/// Whether the profile blackholes responses from this peer.
pub open spec fn drops_response_from(p: FaultProfile, peer: int) -> bool {
    0 <= peer < p.drop_responses_from@.len() && p.drop_responses_from@[peer]
}

/// Exactly what one simulated request does, relating the network before and
/// after to the outcome: an unknown or partitioned peer is unreachable and
/// nothing moves; a blackholed or lost request times out before reaching the
/// acceptor; a delivered request drives the target acceptor through exactly
/// one `handle_post` step whether or not the response then survives; a
/// surviving response is returned and satisfies that same step; and the
/// generator advances exactly once per loss draw taken, so a run is fully
/// determined by its seed.
pub open spec fn sim_request_post(
    pre: SimNet,
    post: SimNet,
    peer: int,
    req: Request,
    r: Result<Response, NetError>,
) -> bool {
    let loss = pre.profile.loss_per_mille;
    let s0 = pre.rng.state;
    let s1 = if loss > 0 {
        lcg_next(s0)
    } else {
        s0
    };
    if !(0 <= peer < pre.servers@.len()) || segment_of(pre.profile, peer)
        != pre.profile.caller_segment {
        r == Err::<Response, NetError>(NetError::Unreachable) && post.servers@ == pre.servers@
            && post.rng == pre.rng
    } else if drops_request_to(pre.profile, peer) {
        r == Err::<Response, NetError>(NetError::Timeout) && post.servers@ == pre.servers@
            && post.rng == pre.rng
    } else if loss > 0 && roll_hits(s0, loss) {
        r == Err::<Response, NetError>(NetError::Timeout) && post.servers@ == pre.servers@
            && post.rng.state == s1
    } else {
        &&& exists|resp: Response|
            #[trigger] handle_post(pre.servers@[peer], post.servers@[peer], req, resp)
        &&& if drops_response_from(pre.profile, peer) {
            r == Err::<Response, NetError>(NetError::Timeout) && post.rng.state == s1
        } else if loss > 0 && roll_hits(s1, loss) {
            r == Err::<Response, NetError>(NetError::Timeout) && post.rng.state == lcg_next(s1)
        } else {
            &&& r matches Ok(resp)
            &&& handle_post(pre.servers@[peer], post.servers@[peer], req, resp)
            &&& post.rng.state == if loss > 0 {
                lcg_next(s1)
            } else {
                s0
            }
        }
    }
}

/// The simulated network: the full set of acceptors, reached in-process,
/// behind the same request interface as a real transport.
#[derive(Debug)]
pub struct SimNet {
    pub servers: Vec<Server>,
    pub profile: FaultProfile,
    pub rng: Lcg,
}

impl SimNet {
    /// A simulated network of `num_acceptors` fresh acceptors with the given
    /// fault profile and seed.
    pub fn new(num_acceptors: usize, profile: FaultProfile, seed: u64) -> (r: SimNet)
        ensures
            r.servers@.len() == num_acceptors,
            forall|i: int| 0 <= i < num_acceptors ==> (#[trigger] r.servers@[i]).wf(),
            r.profile == profile,
            r.rng.state == seed,
    {
        let mut servers: Vec<Server> = Vec::new();
        let mut i: usize = 0;
        while i < num_acceptors
            invariant
                i <= num_acceptors,
                servers@.len() == i,
                forall|j: int| 0 <= j < i ==> (#[trigger] servers@[j]).wf(),
            decreases num_acceptors - i,
        {
            servers.push(Server::new());
            i += 1;
        }
        SimNet { servers, profile, rng: Lcg::new(seed) }
    }

    /// Reads one acceptor's state for a key: its promised ballot and its
    /// accepted value.
    pub fn snapshot(&self, peer: usize, key: &Vec<u8>) -> (r: Option<
        (u64, crate::versioned::VersionedValue),
    >)
        ensures
            (r is Some) == (peer < self.servers@.len()),
            r matches Some(s) ==> s.0 == self.servers@[peer as int].promised_of(key@)
                && s.1.ballot == self.servers@[peer as int].accepted_ballot_of(key@)
                && s.1.payload() == self.servers@[peer as int].accepted_payload_of(key@),
    {
        if peer < self.servers.len() {
            Some(self.servers[peer].snapshot(key))
        } else {
            None
        }
    }
}

impl Net for SimNet {
    /// Delivery is immediate or refused: a partition reads as unreachable, a
    /// dropped request or response reads as a timeout. A response can be
    /// dropped after the acceptor has already mutated its state, exactly as
    /// on a lossy wire.
    fn request(&mut self, peer: usize, req: &Request, _timeout_ms: u64) -> (r: Result<
        Response,
        NetError,
    >)
        ensures
            final(self).servers@.len() == old(self).servers@.len(),
            final(self).profile == old(self).profile,
            forall|i: int|
                0 <= i < old(self).servers@.len() && i != peer as int ==> final(self).servers@[i]
                    == old(self).servers@[i],
            forall|i: int|
                0 <= i < old(self).servers@.len() && (#[trigger] old(self).servers@[i]).wf()
                    ==> final(self).servers@[i].wf(),
            sim_request_post(*old(self), *final(self), peer as int, *req, r),
    {
        if peer >= self.servers.len() {
            return Err(NetError::Unreachable);
        }
        let peer_segment = if peer < self.profile.segments.len() {
            self.profile.segments[peer]
        } else {
            0
        };
        if peer_segment != self.profile.caller_segment {
            return Err(NetError::Unreachable);
        }
        if peer < self.profile.drop_requests_to.len() && self.profile.drop_requests_to[peer] {
            return Err(NetError::Timeout);
        }
        if self.profile.loss_per_mille > 0 && self.rng.roll(self.profile.loss_per_mille) {
            return Err(NetError::Timeout);
        }
        let duped = req.dup();
        let ghost d = duped;
        let ghost pre_server = self.servers@[peer as int];
        let resp = self.servers[peer].handle(duped);
        proof {
            // `handle_post` reads the request only through its ballot, key
            // bytes and value (ballot, payload), all preserved by `dup`.
            let post_server = self.servers@[peer as int];
            match req {
                Request::Prepare { .. } => {
                    assert(handle_post(pre_server, post_server, *req, resp));
                },
                Request::Accept { .. } => {
                    assert(handle_post(pre_server, post_server, *req, resp));
                },
                Request::Ping => {
                    assert(handle_post(pre_server, post_server, *req, resp));
                },
            }
        }
        if peer < self.profile.drop_responses_from.len() && self.profile.drop_responses_from[peer] {
            return Err(NetError::Timeout);
        }
        if self.profile.loss_per_mille > 0 && self.rng.roll(self.profile.loss_per_mille) {
            return Err(NetError::Timeout);
        }
        Ok(resp)
    }
}

} // verus!
