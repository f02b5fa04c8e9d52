//! The proposer: chooses a fresh ballot, broadcasts Prepare, quorum-checks
//! the promises, re-proposes any value already carried by the highest
//! promise, broadcasts Accept, quorum-checks the acknowledgements, and
//! retries with an escalated ballot on conflict, a bounded number of times.

use vstd::prelude::*;
use crate::messages::{ConsensusError, Request};
use crate::net::Net;
use crate::versioned::{copy_bytes, lemma_vv_le_trans, vv_eq, vv_le, VersionedValue};

verus! {

/// Ballots place the proposer's monotone counter in the high bits and its
/// unique tag in the low 16 bits, so two proposers can never pick numerically
/// identical ballots and one proposer's ballots strictly escalate.
pub open spec fn spec_ballot(counter: u64, tag: u16) -> u64 {
    (counter << 16) | (tag as u64)
}

/// Counters stay below 2^48 so that the shifted ballot never discards bits.
pub const MAX_COUNTER: u64 = 0x1000000000000;

/// Builds the ballot for one attempt from the counter and the proposer tag.
pub fn make_ballot(counter: u64, tag: u16) -> (r: u64)
    requires
        counter < MAX_COUNTER,
    ensures
        r == spec_ballot(counter, tag),
{
    (counter << 16u64) | (tag as u64)
}

/// Two proposers with distinct tags never build the same ballot, whatever
/// their counters: collisions are structurally impossible.
pub proof fn lemma_ballot_distinct_tags(c1: u64, t1: u16, c2: u64, t2: u16)
    requires
        t1 != t2,
    ensures
        spec_ballot(c1, t1) != spec_ballot(c2, t2),
{
    assert(((c1 << 16) | (t1 as u64)) != ((c2 << 16) | (t2 as u64))) by (bit_vector)
        requires
            t1 != t2,
    ;
}

/// One proposer's ballots strictly escalate with its counter.
pub proof fn lemma_ballot_escalates(c1: u64, c2: u64, t: u16)
    requires
        c1 < c2,
        c2 < MAX_COUNTER,
    ensures
        spec_ballot(c1, t) < spec_ballot(c2, t),
{
    assert(((c1 << 16) | (t as u64)) < ((c2 << 16) | (t as u64))) by (bit_vector)
        requires
            c1 < c2,
            c2 < 0x1000000000000u64,
    ;
}

/// A strict majority of `n` peers.
pub fn majority(n: usize) -> (r: usize)
    ensures
        r == n / 2 + 1,
{
    n / 2 + 1
}

/// Two disjoint finite sets have a union exactly as large as both together.
proof fn lemma_disjoint_union_len(s1: Set<int>, s2: Set<int>)
    requires
        s1.finite(),
        s2.finite(),
        forall|i: int| !(s1.contains(i) && s2.contains(i)),
    ensures
        s1.union(s2).finite(),
        s1.union(s2).len() == s1.len() + s2.len(),
    decreases s1.len(),
{
    broadcast use vstd::set_lib::group_set_properties;

    if s1.is_empty() {
        assert(s1.union(s2) =~= s2);
    } else {
        let a = s1.choose();
        lemma_disjoint_union_len(s1.remove(a), s2);
        assert(s1.remove(a).union(s2) =~= s1.union(s2).remove(a));
        assert(s1.union(s2).contains(a));
    }
}

/// Quorum intersection: any two strict majorities of one peer set of `n`
/// acceptors share at least one acceptor. This is the property that makes a
/// strict majority the quorum rule: an acceptor inside the overlap has seen
/// both rounds, so a value accepted by one majority cannot be missed by a
/// later majority prepare.
pub proof fn lemma_quorum_intersection(n: int, q1: Set<int>, q2: Set<int>)
    requires
        n >= 0,
        q1.subset_of(vstd::set_lib::set_int_range(0, n)),
        q2.subset_of(vstd::set_lib::set_int_range(0, n)),
        q1.len() >= n / 2 + 1,
        q2.len() >= n / 2 + 1,
    ensures
        exists|i: int| q1.contains(i) && q2.contains(i),
{
    let range = vstd::set_lib::set_int_range(0, n);
    vstd::set_lib::lemma_int_range(0, n);
    vstd::set_lib::lemma_len_subset(q1, range);
    vstd::set_lib::lemma_len_subset(q2, range);
    if forall|i: int| !(q1.contains(i) && q2.contains(i)) {
        lemma_disjoint_union_len(q1, q2);
        vstd::set_lib::lemma_len_subset(q1.union(q2), range);
        assert(2 * (n / 2) >= n - 1);
        assert(false);
    }
}

/// The largest value in the sequence under the (ballot, payload) order; the
/// "never written" value when the sequence is empty.
pub open spec fn max_of(values: Seq<VersionedValue>) -> VersionedValue
    decreases values.len(),
{
    if values.len() == 0 {
        VersionedValue { ballot: 0, value: Option::None }
    } else {
        let rest = max_of(values.drop_last());
        if vv_le(rest, values.last()) {
            values.last()
        } else {
            rest
        }
    }
}

/// The selection rule at the spec level: the payload of the highest value
/// among the observed ones when any is present, the proposer's own desired
/// payload only when no observation carried prior work.
pub open spec fn chosen_payload(observed: Seq<VersionedValue>, desired: Seq<u8>) -> Seq<u8> {
    match max_of(observed).payload() {
        Option::Some(p) => p,
        Option::None => desired,
    }
}

/// The largest of the given versioned values under the (ballot, payload)
/// order; the "never written" value if the list is empty. A present payload
/// in the result is always the payload of one of the inputs, never invented.
pub fn max_vv(values: &Vec<VersionedValue>) -> (r: VersionedValue)
    ensures
        vv_eq(r, max_of(values@)),
        forall|j: int| 0 <= j < values@.len() ==> vv_le(#[trigger] values@[j], r),
        (r.ballot == 0 && r.payload() is None) || exists|j: int|
            0 <= j < values@.len() && vv_eq(#[trigger] values@[j], r),
{
    let mut best = VersionedValue::empty();
    let mut i: usize = 0;
    proof {
        assert(values@.take(0) =~= Seq::<VersionedValue>::empty());
    }
    while i < values.len()
        invariant
            i <= values@.len(),
            vv_eq(best, max_of(values@.take(i as int))),
            forall|j: int| 0 <= j < i ==> vv_le(#[trigger] values@[j], best),
            (best.ballot == 0 && best.payload() is None) || exists|j: int|
                0 <= j < i && vv_eq(#[trigger] values@[j], best),
        decreases values@.len() - i,
    {
        let cur = &values[i];
        let keep_cur = match best.compare(cur) {
            crate::versioned::Cmp::Greater => false,
            _ => true,
        };
        proof {
            assert(values@.take(i + 1).drop_last() =~= values@.take(i as int));
            assert(values@.take(i + 1).last() == values@[i as int]);
        }
        if keep_cur {
            let prev = Ghost(best);
            best = cur.dup();
            proof {
                assert(vv_eq(values@[i as int], best));
                assert(vv_le(prev@, best));
                assert(vv_le(max_of(values@.take(i as int)), values@.take(i + 1).last()));
                assert(vv_eq(best, max_of(values@.take(i + 1))));
                assert forall|j: int| 0 <= j < i + 1 implies vv_le(#[trigger] values@[j], best) by {
                    if j < i {
                        lemma_vv_le_trans(values@[j], prev@, best);
                    }
                }
            }
        } else {
            proof {
                assert(vv_le(values@[i as int], best));
                assert(!vv_le(max_of(values@.take(i as int)), values@.take(i + 1).last()));
                assert(vv_eq(best, max_of(values@.take(i + 1))));
            }
        }
        i += 1;
    }
    proof {
        assert(values@.take(values@.len() as int) =~= values@);
    }
    best
}

/// The Paxos selection rule: a payload already carried by the highest promise
/// must be re-proposed verbatim; only if no promise carried any prior value
/// may the proposer use its own desired payload.
pub fn select_payload(highest: &VersionedValue, desired: &Vec<u8>) -> (r: Vec<u8>)
    ensures
        r@ == match highest.payload() {
            Option::Some(p) => p,
            Option::None => desired@,
        },
{
    match highest.payload_ref() {
        Some(p) => copy_bytes(p),
        None => copy_bytes(desired),
    }
}

/// The outcome of one two-phase attempt: how many acceptors granted the
/// prepare, how many acknowledged the accept, the `current_value` carried by
/// every promise that arrived (granted or not: the prior work this attempt
/// observed), and the agreed payload if both phases reached a strict
/// majority.
pub struct Attempt {
    pub agreed: Option<Vec<u8>>,
    pub prepare_acks: usize,
    pub accept_acks: usize,
    pub observed: Vec<VersionedValue>,
}

/// One full two-phase attempt at the given ballot. The attempt succeeds
/// exactly when a strict majority of all peers granted the prepare and a
/// strict majority acknowledged the accept; missing, failed and mismatched
/// responses count as non-votes, never as rejections. An agreed payload is
/// exactly the selection rule applied to the observed promise values: a
/// payload carried by the highest observation is re-proposed verbatim, and
/// the proposer's own value is used only when no observation carried one.
pub fn attempt<N: Net>(
    net: &mut N,
    peers: &Vec<usize>,
    key: &Vec<u8>,
    ballot: u64,
    desired: &Vec<u8>,
    timeout_ms: u64,
) -> (r: Attempt)
    ensures
        r.prepare_acks <= peers@.len(),
        r.accept_acks <= peers@.len(),
        (r.agreed is Some) == (r.prepare_acks >= peers@.len() / 2 + 1 && r.accept_acks
            >= peers@.len() / 2 + 1),
        r.observed@.len() <= peers@.len(),
        r.prepare_acks <= r.observed@.len(),
        r.agreed matches Some(p) ==> p@ == chosen_payload(r.observed@, desired@),
{
    let total = peers.len();
    let maj = majority(total);
    let mut prepare_acks: usize = 0;
    let mut observed: Vec<VersionedValue> = Vec::new();
    let mut i: usize = 0;
    while i < total
        invariant
            total == peers@.len(),
            i <= total,
            prepare_acks <= i,
            observed@.len() <= i,
            prepare_acks <= observed@.len(),
        decreases total - i,
    {
        let req = Request::Prepare { ballot, key: copy_bytes(key) };
        match net.request(peers[i], &req, timeout_ms) {
            Ok(resp) => {
                let (success, current_value) = resp.to_promise();
                if success {
                    prepare_acks += 1;
                }
                observed.push(current_value);
            },
            Err(_) => {},
        }
        i += 1;
    }
    if prepare_acks < maj {
        return Attempt { agreed: None, prepare_acks, accept_acks: 0, observed };
    }
    let highest = max_vv(&observed);
    let chosen = select_payload(&highest, desired);
    proof {
        assert(chosen@ == chosen_payload(observed@, desired@));
    }
    let mut accept_acks: usize = 0;
    let mut j: usize = 0;
    while j < total
        invariant
            total == peers@.len(),
            j <= total,
            accept_acks <= j,
        decreases total - j,
    {
        let value = VersionedValue { ballot, value: Some(copy_bytes(&chosen)) };
        let req = Request::Accept { key: copy_bytes(key), value };
        match net.request(peers[j], &req, timeout_ms) {
            Ok(resp) => {
                match resp.to_accepted() {
                    Ok(()) => {
                        accept_acks += 1;
                    },
                    Err(_) => {},
                }
            },
            Err(_) => {},
        }
        j += 1;
    }
    if accept_acks >= maj {
        Attempt { agreed: Some(chosen), prepare_acks, accept_acks, observed }
    } else {
        Attempt { agreed: None, prepare_acks, accept_acks, observed }
    }
}

/// A proposer: drives agreement attempts for keys against a fixed peer set
/// through any transport that implements `Net`.
#[derive(Debug)]
pub struct Client {
    /// The proposer-unique tag embedded in every ballot this client builds.
    pub tag: u16,
    /// Monotone per-proposer counter; never reused, so ballots strictly
    /// escalate across attempts.
    pub counter: u64,
    /// How many escalating attempts one `propose` call makes before giving up.
    pub max_attempts: u64,
    /// The full, statically configured peer set; quorum is a strict majority
    /// of it.
    pub peers: Vec<usize>,
    /// Deadline handed to the transport for each request.
    pub timeout_ms: u64,
    /// The promise values observed by the most recent attempt; a successful
    /// `propose` returns exactly the payload the selection rule dictates over
    /// these.
    pub last_observed: Vec<VersionedValue>,
}

impl Client {
    /// The counter must be able to escalate through every attempt without
    /// reaching the ballot-encoding bound.
    pub open spec fn wf(&self) -> bool {
        self.counter + self.max_attempts < MAX_COUNTER
    }

    /// A proposer with the given unique tag, starting counter, retry bound,
    /// peer set and per-request deadline.
    pub fn new(tag: u16, counter: u64, max_attempts: u64, peers: Vec<usize>, timeout_ms: u64) -> (r:
        Client)
        requires
            counter + max_attempts < MAX_COUNTER,
        ensures
            r.wf(),
            r.tag == tag,
            r.counter == counter,
            r.max_attempts == max_attempts,
            r.peers == peers,
            r.timeout_ms == timeout_ms,
            r.last_observed@.len() == 0,
    {
        Client { tag, counter, max_attempts, peers, timeout_ms, last_observed: Vec::new() }
    }

    /// Attempts to make `desired` (or a value already agreed by a majority)
    /// the durable value for `key`; returns the payload actually agreed,
    /// which callers must compare against `desired` to learn whether their
    /// own value won. A returned payload is exactly the selection rule
    /// applied to the promises the winning attempt observed (recorded in
    /// `last_observed`): prior work is re-proposed verbatim, the caller's
    /// value wins only where none existed. Gives up with `NoQuorum` exactly
    /// when all attempts are exhausted, each attempt having used a fresh,
    /// strictly higher ballot.
    pub fn propose<N: Net>(&mut self, net: &mut N, key: &Vec<u8>, desired: &Vec<u8>) -> (r: Result<
        Vec<u8>,
        ConsensusError,
    >)
        requires
            old(self).wf(),
        ensures
            final(self).tag == old(self).tag,
            final(self).max_attempts == old(self).max_attempts,
            final(self).peers == old(self).peers,
            final(self).counter >= old(self).counter,
            final(self).counter <= old(self).counter + old(self).max_attempts,
            r is Err ==> r == Err::<Vec<u8>, ConsensusError>(ConsensusError::NoQuorum)
                && final(self).counter == old(self).counter + old(self).max_attempts,
            old(self).max_attempts == 0 ==> r is Err,
            r matches Ok(p) ==> p@ == chosen_payload(final(self).last_observed@, desired@),
    {
        let mut attempts: u64 = 0;
        while attempts < self.max_attempts
            invariant
                attempts <= self.max_attempts,
                self.counter == old(self).counter + attempts,
                self.tag == old(self).tag,
                self.max_attempts == old(self).max_attempts,
                self.peers == old(self).peers,
                self.timeout_ms == old(self).timeout_ms,
                old(self).wf(),
            decreases self.max_attempts - attempts,
        {
            let ballot = make_ballot(self.counter, self.tag);
            self.counter += 1;
            attempts += 1;
            let outcome = attempt(net, &self.peers, key, ballot, desired, self.timeout_ms);
            let Attempt { agreed, prepare_acks: _, accept_acks: _, observed } = outcome;
            self.last_observed = observed;
            if let Some(agreed_payload) = agreed {
                return Ok(agreed_payload);
            }
        }
        Err(ConsensusError::NoQuorum)
    }
}

} // verus!
