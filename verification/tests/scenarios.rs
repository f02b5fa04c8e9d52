use paxos_register::client::Client;
use paxos_register::messages::{ConsensusError, NetError, Request, Response};
use paxos_register::sim::{FaultProfile, SimNet};
use paxos_register::simulator::{fault_free_round, Proposal};
use paxos_register::{simulate, Net, VersionedValue};

fn proposal(tag: u16, counter: u64, segment: u64, key: &[u8], value: &[u8]) -> Proposal {
    Proposal {
        tag,
        counter,
        caller_segment: segment,
        key: key.to_vec(),
        value: value.to_vec(),
        max_attempts: 5,
    }
}

fn agreed_at(net: &SimNet, peer: usize, key: &[u8]) -> Option<Vec<u8>> {
    let (_, accepted) = net.snapshot(peer, &key.to_vec()).expect("peer exists");
    accepted.value
}

#[test]
fn single_proposer_no_faults_agrees_on_its_value() {
    let (results, net) = simulate(
        3,
        FaultProfile::none(),
        1,
        vec![proposal(1, 0, 0, b"x", b"v1")],
        10,
    );
    assert_eq!(results.len(), 1);
    assert_eq!(results[0].result, Ok(b"v1".to_vec()));
    for peer in 0..3 {
        assert_eq!(agreed_at(&net, peer, b"x"), Some(b"v1".to_vec()));
    }
}

#[test]
fn racing_proposers_converge_on_one_value() {
    let (results, net) = simulate(
        3,
        FaultProfile::none(),
        1,
        vec![
            proposal(1, 0, 0, b"x", b"v1"),
            proposal(2, 0, 0, b"x", b"v2"),
        ],
        10,
    );
    // Exactly one payload wins; the later proposer converges to the winner's
    // payload and never introduces a third value.
    assert_eq!(results[0].result, Ok(b"v1".to_vec()));
    assert_eq!(results[1].result, Ok(b"v1".to_vec()));
    for peer in 0..3 {
        assert_eq!(agreed_at(&net, peer, b"x"), Some(b"v1".to_vec()));
    }
}

#[test]
fn quorum_survives_one_silent_acceptor() {
    let profile = FaultProfile {
        drop_requests_to: Vec::new(),
        drop_responses_from: vec![false, false, true],
        segments: Vec::new(),
        caller_segment: 0,
        loss_per_mille: 0,
    };
    let (results, net) = simulate(3, profile, 1, vec![proposal(1, 0, 0, b"x", b"v1")], 10);
    assert_eq!(results.len(), 1);
    assert_eq!(results[0].result, Ok(b"v1".to_vec()));
    // The two responsive acceptors agree on the value.
    assert_eq!(agreed_at(&net, 0, b"x"), Some(b"v1".to_vec()));
    assert_eq!(agreed_at(&net, 1, b"x"), Some(b"v1".to_vec()));
}

#[test]
fn minority_partition_fails_and_majority_partition_succeeds() {
    let profile = FaultProfile {
        drop_requests_to: Vec::new(),
        drop_responses_from: Vec::new(),
        segments: vec![0, 1, 1],
        caller_segment: 0,
        loss_per_mille: 0,
    };
    let (results, _net) = simulate(
        3,
        profile,
        1,
        vec![
            // Reaches only the one acceptor in segment 0: below quorum.
            proposal(1, 0, 0, b"x", b"minority"),
            // Reaches the two acceptors in segment 1: a strict majority.
            proposal(2, 0, 1, b"x", b"majority"),
        ],
        10,
    );
    assert_eq!(results[0].result, Err(ConsensusError::NoQuorum));
    assert_eq!(results[1].result, Ok(b"majority".to_vec()));
}

#[test]
fn retries_with_escalating_ballots_ride_out_message_loss() {
    // A lossy but majority-connected network: the single proposer keeps
    // escalating and eventually lands its value.
    let profile = FaultProfile {
        drop_requests_to: Vec::new(),
        drop_responses_from: Vec::new(),
        segments: Vec::new(),
        caller_segment: 0,
        loss_per_mille: 100,
    };
    let mut p = proposal(1, 0, 0, b"x", b"v1");
    p.max_attempts = 50;
    let (results, _net) = simulate(3, profile, 42, vec![p], 10);
    assert_eq!(results.len(), 1);
    assert_eq!(results[0].result, Ok(b"v1".to_vec()));
}

#[test]
fn independent_keys_agree_independently() {
    let (results, net) = simulate(
        3,
        FaultProfile::none(),
        1,
        vec![
            proposal(1, 0, 0, b"a", b"va"),
            proposal(2, 0, 0, b"b", b"vb"),
        ],
        10,
    );
    assert_eq!(results[0].result, Ok(b"va".to_vec()));
    assert_eq!(results[1].result, Ok(b"vb".to_vec()));
    assert_eq!(agreed_at(&net, 0, b"a"), Some(b"va".to_vec()));
    assert_eq!(agreed_at(&net, 0, b"b"), Some(b"vb".to_vec()));
}

#[test]
fn liveness_pings_travel_over_the_same_capability() {
    let mut net = SimNet::new(2, FaultProfile::none(), 1);
    let resp = net.request(0, &Request::Ping, 10).expect("fault-free ping");
    assert!(resp.is_pong());
    // An unknown peer is unreachable, not a protocol error.
    match net.request(9, &Request::Ping, 10) {
        Err(NetError::Unreachable) => {},
        other => panic!("an unknown peer must be unreachable, got {:?}", other),
    }
    // A blackholed peer reads as a timeout: a non-vote.
    net.profile.drop_requests_to = vec![true, false];
    match net.request(0, &Request::Ping, 10) {
        Err(NetError::Timeout) => {},
        other => panic!("a dropped request must time out, got {:?}", other),
    }
}

#[test]
fn proposer_adopts_a_previously_accepted_value() {
    let mut net = SimNet::new(3, FaultProfile::none(), 1);
    // One acceptor already accepted a value from some earlier round.
    let seeded = VersionedValue { ballot: 3, value: Some(b"seeded".to_vec()) };
    match net.servers[0].handle(Request::Accept { key: b"x".to_vec(), value: seeded }) {
        Response::Accepted { success } => assert!(success.is_ok()),
        other => panic!("accept must be answered by an accepted, got {:?}", other),
    }
    // A proposer with its own desired value must re-propose the accepted
    // payload verbatim, never override it.
    let mut client = Client::new(1, 0, 5, vec![0, 1, 2], 10);
    let agreed = client.propose(&mut net, &b"x".to_vec(), &b"mine".to_vec());
    assert_eq!(agreed, Ok(b"seeded".to_vec()));
    // The recorded observations justify the adoption: one promise carried
    // the seeded prior work.
    assert!(client
        .last_observed
        .iter()
        .any(|v| v.value.as_deref() == Some(b"seeded".as_slice())));
    for peer in 0..3 {
        assert_eq!(agreed_at(&net, peer, b"x"), Some(b"seeded".to_vec()));
    }
}

#[test]
fn fault_free_round_reaches_full_agreement() {
    let mut net = SimNet::new(3, FaultProfile::none(), 1);
    let key = b"x".to_vec();
    let agreed = fault_free_round(&mut net, &key, 1, &b"v1".to_vec());
    assert_eq!(agreed, b"v1".to_vec());
    for peer in 0..3 {
        let (promised, accepted) = net.snapshot(peer, &key).expect("peer exists");
        assert_eq!(promised, 1);
        assert_eq!(accepted, VersionedValue { ballot: 1, value: Some(b"v1".to_vec()) });
    }
    // A later round at a higher ballot must adopt the agreed value, never
    // replace it with its own.
    let adopted = fault_free_round(&mut net, &key, 2, &b"other".to_vec());
    assert_eq!(adopted, b"v1".to_vec());
    for peer in 0..3 {
        let (promised, accepted) = net.snapshot(peer, &key).expect("peer exists");
        assert_eq!(promised, 2);
        assert_eq!(accepted, VersionedValue { ballot: 2, value: Some(b"v1".to_vec()) });
    }
}

#[test]
fn exhausted_retries_surface_no_quorum() {
    // Two acceptors of three unreachable: no attempt can ever reach quorum.
    let profile = FaultProfile {
        drop_requests_to: vec![false, true, true],
        drop_responses_from: Vec::new(),
        segments: Vec::new(),
        caller_segment: 0,
        loss_per_mille: 0,
    };
    let (results, _net) = simulate(3, profile, 1, vec![proposal(1, 0, 0, b"x", b"v")], 10);
    assert_eq!(results.len(), 1);
    assert_eq!(results[0].result, Err(ConsensusError::NoQuorum));
}
