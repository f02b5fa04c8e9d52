use paxos_register::versioned::{Cmp, VersionedValue};

fn vv(ballot: u64, value: Option<&[u8]>) -> VersionedValue {
    VersionedValue { ballot, value: value.map(|b| b.to_vec()) }
}

#[test]
fn higher_ballot_dominates_any_payload() {
    let low = vv(1, Some(b"zzzzzz"));
    let high = vv(2, None);
    assert!(matches!(low.compare(&high), Cmp::Less));
    assert!(matches!(high.compare(&low), Cmp::Greater));
    assert!(low.le(&high));
    assert!(!high.le(&low));
}

#[test]
fn equal_ballots_compare_by_payload() {
    assert!(matches!(vv(3, None).compare(&vv(3, Some(b""))), Cmp::Less));
    assert!(matches!(vv(3, Some(b"abc")).compare(&vv(3, Some(b"abd"))), Cmp::Less));
    assert!(matches!(vv(3, Some(b"ab")).compare(&vv(3, Some(b"abc"))), Cmp::Less));
    assert!(matches!(vv(3, Some(b"abc")).compare(&vv(3, Some(b"abc"))), Cmp::Equal));
    assert!(matches!(vv(3, Some(b"b")).compare(&vv(3, Some(b"abc"))), Cmp::Greater));
}

#[test]
fn interchangeable_values_compare_equal() {
    let a = vv(7, Some(b"pay"));
    let b = vv(7, Some(b"pay"));
    assert!(matches!(a.compare(&b), Cmp::Equal));
    assert!(a.le(&b) && b.le(&a));
}

#[test]
fn default_means_never_written() {
    let d = VersionedValue::default();
    assert_eq!(d.ballot, 0);
    assert!(d.value.is_none());
    let e = VersionedValue::empty();
    assert_eq!(d, e);
}

#[test]
fn dup_preserves_ballot_and_payload() {
    let a = vv(9, Some(b"data"));
    let b = a.dup();
    assert_eq!(a, b);
}

#[test]
fn payload_accessors_leave_ballot_alone() {
    let mut a = vv(5, Some(b"old"));
    assert_eq!(a.payload_ref().as_deref(), Some(b"old".as_slice()));
    a.set_payload(Some(b"new".to_vec()));
    assert_eq!(a.ballot, 5);
    assert_eq!(a.payload_ref().as_deref(), Some(b"new".as_slice()));
    a.set_payload(None);
    assert_eq!(a.ballot, 5);
    assert!(a.payload_ref().is_none());
}
