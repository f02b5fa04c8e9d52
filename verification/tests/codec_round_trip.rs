use paxos_register::codec::{decode_envelope, encode_envelope};
use paxos_register::messages::{Envelope, Message, Request, Response};
use paxos_register::VersionedValue;

fn round_trip(env: &Envelope) -> Envelope {
    let bytes = encode_envelope(env);
    decode_envelope(&bytes).expect("an encoded envelope must decode")
}

fn assert_vv_eq(a: &VersionedValue, b: &VersionedValue) {
    assert_eq!(a.ballot, b.ballot);
    assert_eq!(a.value, b.value);
}

#[test]
fn prepare_round_trips() {
    let env = Envelope {
        uuid: 0x0123_4567_89ab_cdef_0011_2233_4455_6677,
        message: Message::Request(Request::Prepare { ballot: 42, key: b"some-key".to_vec() }),
    };
    let back = round_trip(&env);
    assert_eq!(back.uuid, env.uuid);
    match back.message {
        Message::Request(Request::Prepare { ballot, key }) => {
            assert_eq!(ballot, 42);
            assert_eq!(key, b"some-key".to_vec());
        },
        other => panic!("wrong shape after round trip: {:?}", other),
    }
}

#[test]
fn accept_with_absent_payload_round_trips() {
    let env = Envelope {
        uuid: 7,
        message: Message::Request(Request::Accept {
            key: vec![],
            value: VersionedValue { ballot: 0, value: None },
        }),
    };
    let back = round_trip(&env);
    assert_eq!(back.uuid, 7);
    match back.message {
        Message::Request(Request::Accept { key, value }) => {
            assert!(key.is_empty());
            assert_eq!(value.ballot, 0);
            assert!(value.value.is_none());
        },
        other => panic!("wrong shape after round trip: {:?}", other),
    }
}

#[test]
fn ping_round_trips() {
    let env = Envelope { uuid: u128::MAX, message: Message::Request(Request::Ping) };
    let back = round_trip(&env);
    assert_eq!(back.uuid, u128::MAX);
    assert!(matches!(back.message, Message::Request(Request::Ping)));
}

#[test]
fn promise_round_trips() {
    for success in [false, true] {
        let env = Envelope {
            uuid: 1,
            message: Message::Response(Response::Promise {
                success,
                current_value: VersionedValue { ballot: 3, value: Some(b"prior".to_vec()) },
            }),
        };
        let back = round_trip(&env);
        match back.message {
            Message::Response(Response::Promise { success: s2, current_value }) => {
                assert_eq!(s2, success);
                assert_vv_eq(
                    &current_value,
                    &VersionedValue { ballot: 3, value: Some(b"prior".to_vec()) },
                );
            },
            other => panic!("wrong shape after round trip: {:?}", other),
        }
    }
}

#[test]
fn accepted_ok_and_err_round_trip() {
    let ok = Envelope {
        uuid: 2,
        message: Message::Response(Response::Accepted { success: Ok(()) }),
    };
    match round_trip(&ok).message {
        Message::Response(Response::Accepted { success }) => assert!(success.is_ok()),
        other => panic!("wrong shape after round trip: {:?}", other),
    }
    let err = Envelope {
        uuid: 3,
        message: Message::Response(Response::Accepted {
            success: Err(VersionedValue { ballot: 8, value: Some(b"winner".to_vec()) }),
        }),
    };
    match round_trip(&err).message {
        Message::Response(Response::Accepted { success }) => {
            let cur = success.unwrap_err();
            assert_vv_eq(&cur, &VersionedValue { ballot: 8, value: Some(b"winner".to_vec()) });
        },
        other => panic!("wrong shape after round trip: {:?}", other),
    }
}

#[test]
fn pong_round_trips() {
    let env = Envelope { uuid: 0, message: Message::Response(Response::Pong) };
    let back = round_trip(&env);
    assert_eq!(back.uuid, 0);
    assert!(matches!(back.message, Message::Response(Response::Pong)));
}

#[test]
fn pong_encoding_is_exactly_these_bytes() {
    let env = Envelope { uuid: 1, message: Message::Response(Response::Pong) };
    let bytes = encode_envelope(&env);
    let mut expected = vec![0u8; 15];
    expected.push(1); // uuid, big-endian
    expected.push(1); // tag: response
    expected.push(2); // tag: pong
    assert_eq!(bytes, expected);
}

#[test]
fn prepare_encoding_is_exactly_these_bytes() {
    let env = Envelope {
        uuid: 0,
        message: Message::Request(Request::Prepare { ballot: 0x0102, key: b"k".to_vec() }),
    };
    let bytes = encode_envelope(&env);
    let mut expected = vec![0u8; 16]; // uuid 0
    expected.push(0); // tag: request
    expected.push(0); // tag: prepare
    expected.extend_from_slice(&[0, 0, 0, 0, 0, 0, 1, 2]); // ballot
    expected.extend_from_slice(&[0, 0, 0, 0, 0, 0, 0, 1]); // key length
    expected.push(b'k');
    assert_eq!(bytes, expected);
}

#[test]
fn truncated_and_padded_buffers_are_malformed() {
    let env = Envelope { uuid: 5, message: Message::Request(Request::Ping) };
    let bytes = encode_envelope(&env);
    let mut truncated = bytes.clone();
    truncated.pop();
    assert!(decode_envelope(&truncated).is_none());
    let mut padded = bytes.clone();
    padded.push(0);
    assert!(decode_envelope(&padded).is_none());
    assert!(decode_envelope(&Vec::new()).is_none());
}

#[test]
fn unknown_tags_are_malformed() {
    let env = Envelope { uuid: 5, message: Message::Request(Request::Ping) };
    let mut bytes = encode_envelope(&env);
    bytes[16] = 9; // message tag
    assert!(decode_envelope(&bytes).is_none());
    let mut bytes2 = encode_envelope(&env);
    bytes2[17] = 9; // request tag
    assert!(decode_envelope(&bytes2).is_none());
}
