//! The deterministic test harness: wires fresh acceptors and scripted
//! proposers over the simulated network, runs each proposal in turn, and
//! hands back every outcome together with the final network state for
//! inspection.

use vstd::prelude::*;
use crate::client::{chosen_payload, max_vv, select_payload, Client, MAX_COUNTER};
use crate::messages::{ConsensusError, Request};
use crate::net::Net;
use crate::sim::{FaultProfile, SimNet};
use crate::versioned::{copy_bytes, vv_eq, VersionedValue};

verus! {

/// Quorum liveness, shown where it is derivable: over the simulated network
/// with no faults configured, one two-phase round at a ballot above every
/// acceptor's promise always succeeds, and afterwards every acceptor holds
/// that ballot and one payload — the desired one whenever no acceptor held
/// prior work, the adopted one otherwise. A proposer that escalates its
/// ballot reaches such a round as soon as a majority stays reachable; under
/// partial faults the same claim is exercised by tests, since delivery then
/// depends on the loss draws.
pub fn fault_free_round(net: &mut SimNet, key: &Vec<u8>, ballot: u64, desired: &Vec<u8>) -> (r: Vec<
    u8,
>)
    requires
        old(net).profile.loss_per_mille == 0,
        old(net).profile.drop_requests_to@.len() == 0,
        old(net).profile.drop_responses_from@.len() == 0,
        old(net).profile.segments@.len() == 0,
        old(net).profile.caller_segment == 0,
        forall|j: int|
            0 <= j < old(net).servers@.len() ==> ballot > (#[trigger] old(net).servers@[j]).promised_of(key@),
    ensures
        final(net).servers@.len() == old(net).servers@.len(),
        forall|j: int|
            0 <= j < old(net).servers@.len() ==> (#[trigger] final(net).servers@[j]).promised_of(key@) == ballot && final(net).servers@[j].accepted_ballot_of(key@) == ballot && final(net).servers@[j].accepted_payload_of(key@) == Option::Some(r@),
        (forall|j: int|
            0 <= j < old(net).servers@.len() ==> (#[trigger] old(net).servers@[j]).accepted_payload_of(key@) is None) ==> r@ == desired@,
{
    let n = net.servers.len();
    let mut observed: Vec<VersionedValue> = Vec::new();
    let mut i: usize = 0;
    while i < n
        invariant
            n == net.servers@.len(),
            n == old(net).servers@.len(),
            net.profile == old(net).profile,
            old(net).profile.loss_per_mille == 0,
            old(net).profile.drop_requests_to@.len() == 0,
            old(net).profile.drop_responses_from@.len() == 0,
            old(net).profile.segments@.len() == 0,
            old(net).profile.caller_segment == 0,
            i <= n,
            observed@.len() == i,
            forall|j: int| i <= j < n ==> net.servers@[j] == old(net).servers@[j],
            forall|j: int|
                0 <= j < n ==> ballot > (#[trigger] old(net).servers@[j]).promised_of(key@),
            forall|j: int|
                0 <= j < i ==> (#[trigger] net.servers@[j]).promised_of(key@) == ballot
                    && net.servers@[j].accepted_ballot_of(key@) == old(net).servers@[j].accepted_ballot_of(key@) && net.servers@[j].accepted_payload_of(key@)
                    == old(net).servers@[j].accepted_payload_of(key@),
            forall|j: int|
                0 <= j < i ==> (#[trigger] observed@[j]).ballot == old(net).servers@[j].accepted_ballot_of(key@) && observed@[j].payload() == old(net).servers@[j].accepted_payload_of(key@),
        decreases n - i,
    {
        let req = Request::Prepare { ballot, key: copy_bytes(key) };
        let res = net.request(i, &req, 0);
        let resp = match res {
            Ok(resp) => resp,
            Err(_) => unreached(),
        };
        let (_, current_value) = resp.to_promise();
        observed.push(current_value);
        i += 1;
    }
    let highest = max_vv(&observed);
    let chosen = select_payload(&highest, desired);
    let mut i2: usize = 0;
    while i2 < n
        invariant
            n == net.servers@.len(),
            n == old(net).servers@.len(),
            net.profile == old(net).profile,
            old(net).profile.loss_per_mille == 0,
            old(net).profile.drop_requests_to@.len() == 0,
            old(net).profile.drop_responses_from@.len() == 0,
            old(net).profile.segments@.len() == 0,
            old(net).profile.caller_segment == 0,
            i2 <= n,
            forall|j: int|
                i2 <= j < n ==> (#[trigger] net.servers@[j]).promised_of(key@) == ballot,
            forall|j: int|
                0 <= j < i2 ==> (#[trigger] net.servers@[j]).promised_of(key@) == ballot
                    && net.servers@[j].accepted_ballot_of(key@) == ballot
                    && net.servers@[j].accepted_payload_of(key@) == Option::Some(chosen@),
        decreases n - i2,
    {
        let value = VersionedValue { ballot, value: Some(copy_bytes(&chosen)) };
        let req = Request::Accept { key: copy_bytes(key), value };
        let res = net.request(i2, &req, 0);
        proof {
            assert(res is Ok);
        }
        i2 += 1;
    }
    proof {
        if forall|j: int|
            0 <= j < old(net).servers@.len() ==> (#[trigger] old(net).servers@[j]).accepted_payload_of(key@) is None {
            if highest.payload() matches Option::Some(_) {
                let w = choose|j: int|
                    0 <= j < observed@.len() && vv_eq(#[trigger] observed@[j], highest);
                assert(observed@[w].payload() is None);
                assert(false);
            }
        }
    }
    chosen
}

/// One scripted agreement attempt: which proposer, from which network
/// segment, proposes which value for which key, with which retry budget.
#[derive(Debug)]
pub struct Proposal {
    /// The proposer's unique tag.
    pub tag: u16,
    /// The proposer's starting ballot counter.
    pub counter: u64,
    /// The segment the proposer sits in, matched against the acceptors'
    /// segments when the network is partitioned.
    pub caller_segment: u64,
    pub key: Vec<u8>,
    pub value: Vec<u8>,
    /// How many escalating attempts the proposer makes before giving up.
    pub max_attempts: u64,
}

/// What one scripted proposal produced: the propose result, and the promise
/// values its proposer observed in its last attempt — the evidence behind an
/// agreed payload.
#[derive(Debug)]
pub struct Outcome {
    pub result: Result<Vec<u8>, ConsensusError>,
    pub observed: Vec<crate::versioned::VersionedValue>,
}

/// Runs every proposal, in order, against `num_acceptors` fresh acceptors
/// reached over the simulated network with the given fault profile and seed;
/// the run is fully determined by its arguments. Returns one outcome per
/// proposal and the final network, whose acceptor states tests can inspect.
/// Every successful outcome's payload is exactly the selection rule applied
/// to what its proposer observed: prior work re-proposed verbatim, the
/// proposal's own value only where none existed.
pub fn simulate(
    num_acceptors: usize,
    profile: FaultProfile,
    seed: u64,
    proposals: Vec<Proposal>,
    timeout_ms: u64,
) -> (r: (Vec<Outcome>, SimNet))
    requires
        forall|i: int|
            0 <= i < proposals@.len() ==> (#[trigger] proposals@[i]).counter
                + proposals@[i].max_attempts < MAX_COUNTER,
    ensures
        r.0@.len() == proposals@.len(),
        forall|i: int|
            0 <= i < proposals@.len() ==> ((#[trigger] r.0@[i]).result matches Ok(p) ==> p@
                == chosen_payload(r.0@[i].observed@, proposals@[i].value@)),
{
    let mut net = SimNet::new(num_acceptors, profile, seed);
    let mut results: Vec<Outcome> = Vec::new();
    let mut i: usize = 0;
    while i < proposals.len()
        invariant
            i <= proposals@.len(),
            results@.len() == i,
            forall|k: int|
                0 <= k < proposals@.len() ==> (#[trigger] proposals@[k]).counter
                    + proposals@[k].max_attempts < MAX_COUNTER,
            forall|k: int|
                0 <= k < i ==> ((#[trigger] results@[k]).result matches Ok(p) ==> p@
                    == chosen_payload(results@[k].observed@, proposals@[k].value@)),
        decreases proposals@.len() - i,
    {
        let p = &proposals[i];
        net.profile.caller_segment = p.caller_segment;
        let mut peers: Vec<usize> = Vec::new();
        let mut j: usize = 0;
        while j < num_acceptors
            invariant
                j <= num_acceptors,
            decreases num_acceptors - j,
        {
            peers.push(j);
            j += 1;
        }
        let mut client = Client::new(p.tag, p.counter, p.max_attempts, peers, timeout_ms);
        let result = client.propose(&mut net, &p.key, &p.value);
        results.push(Outcome { result, observed: client.last_observed });
        i += 1;
    }
    (results, net)
}

} // verus!
