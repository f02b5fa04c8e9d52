use paxos_register::client::{majority, make_ballot, max_vv, select_payload};
use paxos_register::VersionedValue;

fn vv(ballot: u64, value: Option<&[u8]>) -> VersionedValue {
    VersionedValue { ballot, value: value.map(|b| b.to_vec()) }
}

#[test]
fn majority_is_a_strict_majority_of_all_peers() {
    assert_eq!(majority(1), 1);
    assert_eq!(majority(2), 2);
    assert_eq!(majority(3), 2);
    assert_eq!(majority(4), 3);
    assert_eq!(majority(5), 3);
}

#[test]
fn ballots_from_distinct_tags_never_collide() {
    // Same counters, different tags; and even with counters crossed over.
    assert_ne!(make_ballot(0, 1), make_ballot(0, 2));
    assert_ne!(make_ballot(7, 1), make_ballot(7, 2));
    assert_eq!(make_ballot(3, 4), 3 << 16 | 4);
}

#[test]
fn ballots_escalate_with_the_counter() {
    assert!(make_ballot(0, 5) < make_ballot(1, 5));
    assert!(make_ballot(1, 5) < make_ballot(2, 5));
    // A later counter beats an earlier one whatever the tags.
    assert!(make_ballot(0, u16::MAX) < make_ballot(1, 0));
}

#[test]
fn max_vv_picks_the_highest_observed_value() {
    let values = vec![
        vv(1, Some(b"one")),
        vv(3, Some(b"three")),
        vv(2, Some(b"two")),
    ];
    let best = max_vv(&values);
    assert_eq!(best, vv(3, Some(b"three")));
    // Payload breaks ballot ties.
    let tied = vec![vv(3, Some(b"aa")), vv(3, Some(b"ab"))];
    assert_eq!(max_vv(&tied), vv(3, Some(b"ab")));
    // Nothing observed: the "never written" value.
    assert_eq!(max_vv(&Vec::new()), vv(0, None));
}

#[test]
fn selection_adopts_a_prior_value_verbatim() {
    let highest = vv(4, Some(b"prior"));
    let desired = b"mine".to_vec();
    assert_eq!(select_payload(&highest, &desired), b"prior".to_vec());
}

#[test]
fn selection_uses_the_desired_value_only_when_no_prior_work_exists() {
    let highest = vv(4, None);
    let desired = b"mine".to_vec();
    assert_eq!(select_payload(&highest, &desired), b"mine".to_vec());
}
