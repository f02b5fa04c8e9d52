use paxos_register::messages::{Request, Response};
use paxos_register::storage::Storage;
use paxos_register::{Server, VersionedValue};

fn vv(ballot: u64, value: Option<&[u8]>) -> VersionedValue {
    VersionedValue { ballot, value: value.map(|b| b.to_vec()) }
}

#[test]
fn prepare_succeeds_only_strictly_above_promise() {
    let mut srv = Server::new();
    let key = b"k".to_vec();
    let (s1, cur1) = match srv.handle(Request::Prepare { ballot: 5, key: key.clone() }) {
        Response::Promise { success, current_value } => (success, current_value),
        other => panic!("prepare must be answered by a promise, got {:?}", other),
    };
    assert!(s1);
    assert_eq!(cur1, vv(0, None));
    // The same ballot again must fail: strict greater-than.
    match srv.handle(Request::Prepare { ballot: 5, key: key.clone() }) {
        Response::Promise { success, .. } => assert!(!success),
        other => panic!("prepare must be answered by a promise, got {:?}", other),
    }
    // A higher one succeeds.
    match srv.handle(Request::Prepare { ballot: 6, key: key.clone() }) {
        Response::Promise { success, .. } => assert!(success),
        other => panic!("prepare must be answered by a promise, got {:?}", other),
    }
}

#[test]
fn accept_succeeds_at_or_above_promise() {
    let mut srv = Server::new();
    let key = b"k".to_vec();
    srv.handle(Request::Prepare { ballot: 5, key: key.clone() });
    // Equal to the promise: succeeds (a proposer re-sends at its own ballot).
    match srv.handle(Request::Accept { key: key.clone(), value: vv(5, Some(b"v")) }) {
        Response::Accepted { success } => assert!(success.is_ok()),
        other => panic!("accept must be answered by an accepted, got {:?}", other),
    }
    // Below the promise: refused, carrying the blocking value.
    match srv.handle(Request::Accept { key: key.clone(), value: vv(4, Some(b"w")) }) {
        Response::Accepted { success } => {
            assert_eq!(success.unwrap_err(), vv(5, Some(b"v")));
        },
        other => panic!("accept must be answered by an accepted, got {:?}", other),
    }
    let (promised, accepted) = srv.snapshot(&key);
    assert_eq!(promised, 5);
    assert_eq!(accepted, vv(5, Some(b"v")));
}

#[test]
fn promise_answer_always_carries_current_value() {
    let mut srv = Server::new();
    let key = b"k".to_vec();
    srv.handle(Request::Accept { key: key.clone(), value: vv(3, Some(b"stored")) });
    // A failing prepare still reports the accepted value.
    match srv.handle(Request::Prepare { ballot: 1, key: key.clone() }) {
        Response::Promise { success, current_value } => {
            assert!(!success);
            assert_eq!(current_value, vv(3, Some(b"stored")));
        },
        other => panic!("prepare must be answered by a promise, got {:?}", other),
    }
}

#[test]
fn ping_answers_pong_without_touching_state() {
    let mut srv = Server::new();
    let key = b"k".to_vec();
    srv.handle(Request::Accept { key: key.clone(), value: vv(2, Some(b"v")) });
    let resp = srv.handle(Request::Ping);
    assert!(resp.is_pong());
    assert_eq!(srv.snapshot(&key), (2, vv(2, Some(b"v"))));
}

#[test]
fn promised_ballot_never_regresses() {
    let mut storage = Storage::new();
    let key = b"k".to_vec();
    assert!(storage.promise(&key, 5));
    assert!(!storage.promise(&key, 3));
    assert!(!storage.promise(&key, 5));
    assert_eq!(storage.get(&key).0, 5);
    assert!(storage.promise(&key, 8));
    assert_eq!(storage.get(&key).0, 8);
}

#[test]
fn accepted_ballot_never_regresses() {
    let mut storage = Storage::new();
    let key = b"k".to_vec();
    assert!(storage.accept(&key, vv(5, Some(b"five"))).is_ok());
    let blocked = storage.accept(&key, vv(3, Some(b"three")));
    assert_eq!(blocked.unwrap_err(), vv(5, Some(b"five")));
    assert_eq!(storage.get(&key).1, vv(5, Some(b"five")));
    assert!(storage.accept(&key, vv(7, Some(b"seven"))).is_ok());
    assert_eq!(storage.get(&key).1, vv(7, Some(b"seven")));
}

#[test]
fn accept_raises_the_promise_to_its_ballot() {
    let mut storage = Storage::new();
    let key = b"k".to_vec();
    assert!(storage.accept(&key, vv(4, Some(b"v"))).is_ok());
    assert_eq!(storage.get(&key), (4, vv(4, Some(b"v"))));
    // A prepare at that ballot now fails: the promise was raised.
    assert!(!storage.promise(&key, 4));
}

#[test]
fn keys_are_fully_independent() {
    let mut storage = Storage::new();
    let ka = b"a".to_vec();
    let kb = b"b".to_vec();
    assert!(storage.promise(&ka, 10));
    assert!(storage.accept(&kb, vv(2, Some(b"vb"))).is_ok());
    assert_eq!(storage.get(&ka), (10, vv(0, None)));
    assert_eq!(storage.get(&kb), (2, vv(2, Some(b"vb"))));
    // Touching one key leaves the other exactly as it was.
    assert!(storage.promise(&kb, 11));
    assert_eq!(storage.get(&ka), (10, vv(0, None)));
}

#[test]
fn fresh_storage_reads_as_never_written() {
    let storage = Storage::new();
    let key = b"anything".to_vec();
    assert_eq!(storage.get(&key), (0, vv(0, None)));
}

#[test]
fn response_accessors_read_their_variant() {
    let p = Response::Promise { success: true, current_value: vv(1, None) };
    let (success, cur) = p.to_promise();
    assert!(success);
    assert_eq!(cur, vv(1, None));
    let a = Response::Accepted { success: Err(vv(2, Some(b"v"))) };
    assert_eq!(a.to_accepted().unwrap_err(), vv(2, Some(b"v")));
    assert!(Response::Pong.is_pong());
    assert!(!Response::Promise { success: false, current_value: vv(0, None) }.is_pong());
}
