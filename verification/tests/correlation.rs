use paxos_register::messages::{Envelope, Message, Request, Response};
use paxos_register::pending::{PendingTable, Routed};
use paxos_register::{Server, VersionedValue};

#[test]
fn first_response_fulfills_then_duplicates_are_dropped() {
    let mut table = PendingTable::new();
    assert!(table.register(10));
    let resp = Envelope::reply(10, Response::Pong);
    assert!(matches!(table.route(resp), Routed::Fulfilled));
    let dup = Envelope::reply(10, Response::Pong);
    assert!(matches!(table.route(dup), Routed::Duplicate));
    assert!(table.take(10).is_some());
}

#[test]
fn stale_responses_are_dropped_silently() {
    let mut table = PendingTable::new();
    let stale = Envelope::reply(99, Response::Pong);
    assert!(matches!(table.route(stale), Routed::Unknown));
}

#[test]
fn duplicate_registration_is_refused() {
    let mut table = PendingTable::new();
    assert!(table.register(7));
    assert!(!table.register(7));
}

#[test]
fn unanswered_entries_are_taken_out_as_timeouts() {
    let mut table = PendingTable::new();
    assert!(table.register(5));
    // Deadline passed with no response: the entry is removed, reported empty.
    assert!(table.take(5).is_none());
    // And the identifier is no longer tracked at all.
    assert!(table.take(5).is_none());
    assert!(matches!(table.route(Envelope::reply(5, Response::Pong)), Routed::Unknown));
}

#[test]
fn inbound_requests_are_dispatched_and_answered_under_the_same_id() {
    let mut table = PendingTable::new();
    let env = Envelope::wrap_request(Request::Ping);
    let uuid = env.uuid;
    match table.route(env) {
        Routed::Dispatch { uuid: got, request } => {
            assert_eq!(got, uuid);
            let mut srv = Server::new();
            let out = srv
                .handle_envelope(Envelope { uuid: got, message: Message::Request(request) })
                .expect("a request always gets a reply");
            assert_eq!(out.uuid, uuid);
            assert!(matches!(out.message, Message::Response(Response::Pong)));
        },
        other => panic!("a request must be dispatched, got {:?}", routed_name(&other)),
    }
}

#[test]
fn enveloped_responses_are_not_handled_by_the_acceptor() {
    let mut srv = Server::new();
    let key = b"k".to_vec();
    srv.handle(Request::Accept {
        key: key.clone(),
        value: VersionedValue { ballot: 1, value: Some(b"v".to_vec()) },
    });
    let inbound = Envelope::reply(3, Response::Pong);
    assert!(srv.handle_envelope(inbound).is_none());
    let (promised, accepted) = srv.snapshot(&key);
    assert_eq!(promised, 1);
    assert_eq!(accepted, VersionedValue { ballot: 1, value: Some(b"v".to_vec()) });
}

fn routed_name(r: &Routed) -> &'static str {
    match r {
        Routed::Fulfilled => "fulfilled",
        Routed::Duplicate => "duplicate",
        Routed::Unknown => "unknown",
        Routed::Dispatch { .. } => "dispatch",
    }
}
