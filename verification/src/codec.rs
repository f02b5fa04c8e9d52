//! The wire format: a self-describing byte encoding of envelopes that
//! round-trips every variant exactly, including an absent payload. Integers
//! travel big-endian with fixed width, byte strings carry a length prefix,
//! and every tagged union carries a one-byte tag.

use vstd::prelude::*;
use crate::messages::{Envelope, Message, Request, Response};
use crate::versioned::VersionedValue;

verus! {

// ---------------------------------------------------------------------------
// Abstract models of the wire values: the same shapes with byte sequences in
// place of byte vectors, so contracts and the round-trip law can speak of
// mathematical values.
// ---------------------------------------------------------------------------

#[verifier::ext_equal]
pub struct VvModel {
    pub ballot: u64,
    pub payload: Option<Seq<u8>>,
}

#[verifier::ext_equal]
pub enum ReqModel {
    Prepare { ballot: u64, key: Seq<u8> },
    Accept { key: Seq<u8>, value: VvModel },
    Ping,
}

#[verifier::ext_equal]
pub enum RespModel {
    Promise { success: bool, current_value: VvModel },
    /// `rejected` is absent when the value was stored, and carries the
    /// acceptor's current value when the store was refused.
    Accepted { rejected: Option<VvModel> },
    Pong,
}

#[verifier::ext_equal]
pub enum MsgModel {
    Request(ReqModel),
    Response(RespModel),
}

#[verifier::ext_equal]
pub struct EnvModel {
    pub uuid: u128,
    pub message: MsgModel,
}

pub open spec fn vv_model(v: VersionedValue) -> VvModel {
    VvModel { ballot: v.ballot, payload: v.payload() }
}

pub open spec fn req_model(r: Request) -> ReqModel {
    match r {
        Request::Prepare { ballot, key } => ReqModel::Prepare { ballot, key: key@ },
        Request::Accept { key, value } => ReqModel::Accept { key: key@, value: vv_model(value) },
        Request::Ping => ReqModel::Ping,
    }
}

pub open spec fn resp_model(r: Response) -> RespModel {
    match r {
        Response::Promise { success, current_value } => RespModel::Promise {
            success,
            current_value: vv_model(current_value),
        },
        Response::Accepted { success } => RespModel::Accepted {
            rejected: match success {
                Result::Ok(()) => Option::None,
                Result::Err(v) => Option::Some(vv_model(v)),
            },
        },
        Response::Pong => RespModel::Pong,
    }
}

pub open spec fn msg_model(m: Message) -> MsgModel {
    match m {
        Message::Request(r) => MsgModel::Request(req_model(r)),
        Message::Response(r) => MsgModel::Response(resp_model(r)),
    }
}

pub open spec fn env_model(e: Envelope) -> EnvModel {
    EnvModel { uuid: e.uuid, message: msg_model(e.message) }
}

// ---------------------------------------------------------------------------
// Spec-level encoders.
// ---------------------------------------------------------------------------

#[verifier::opaque]
pub open spec fn senc_u64(x: u64) -> Seq<u8> {
    seq![
        (x >> 56) as u8,
        (x >> 48) as u8,
        (x >> 40) as u8,
        (x >> 32) as u8,
        (x >> 24) as u8,
        (x >> 16) as u8,
        (x >> 8) as u8,
        x as u8,
    ]
}

pub open spec fn senc_u128(x: u128) -> Seq<u8> {
    senc_u64((x >> 64) as u64) + senc_u64(x as u64)
}

pub open spec fn senc_bytes(b: Seq<u8>) -> Seq<u8> {
    senc_u64(b.len() as u64) + b
}

pub open spec fn senc_opt_bytes(o: Option<Seq<u8>>) -> Seq<u8> {
    match o {
        Option::None => seq![0u8],
        Option::Some(b) => seq![1u8] + senc_bytes(b),
    }
}

pub open spec fn senc_vv(v: VvModel) -> Seq<u8> {
    senc_u64(v.ballot) + senc_opt_bytes(v.payload)
}

pub open spec fn senc_request(r: ReqModel) -> Seq<u8> {
    match r {
        ReqModel::Prepare { ballot, key } => seq![0u8] + senc_u64(ballot) + senc_bytes(key),
        ReqModel::Accept { key, value } => seq![1u8] + senc_bytes(key) + senc_vv(value),
        ReqModel::Ping => seq![2u8],
    }
}

pub open spec fn senc_response(r: RespModel) -> Seq<u8> {
    match r {
        RespModel::Promise { success, current_value } => seq![0u8] + seq![
            if success {
                1u8
            } else {
                0u8
            },
        ] + senc_vv(current_value),
        RespModel::Accepted { rejected } => match rejected {
            Option::None => seq![1u8] + seq![0u8],
            Option::Some(v) => seq![1u8] + seq![1u8] + senc_vv(v),
        },
        RespModel::Pong => seq![2u8],
    }
}

pub open spec fn senc_message(m: MsgModel) -> Seq<u8> {
    match m {
        MsgModel::Request(r) => seq![0u8] + senc_request(r),
        MsgModel::Response(r) => seq![1u8] + senc_response(r),
    }
}

pub open spec fn senc_envelope(e: EnvModel) -> Seq<u8> {
    senc_u128(e.uuid) + senc_message(e.message)
}

// ---------------------------------------------------------------------------
// Spec-level decoders: position-passing, total, strict. Every malformed or
// unknown shape decodes to nothing.
// ---------------------------------------------------------------------------

#[verifier::opaque]
pub open spec fn combine_u64(s: Seq<u8>, pos: int) -> u64 {
    (((s[pos] as u64) << 56) | ((s[pos + 1] as u64) << 48) | ((s[pos + 2] as u64) << 40) | ((s[pos
        + 3] as u64) << 32) | ((s[pos + 4] as u64) << 24) | ((s[pos + 5] as u64) << 16) | ((s[pos
        + 6] as u64) << 8) | (s[pos + 7] as u64))
}

pub open spec fn sdec_u8(s: Seq<u8>, pos: int) -> Option<(u8, int)> {
    if 0 <= pos && pos + 1 <= s.len() {
        Option::Some((s[pos], pos + 1))
    } else {
        Option::None
    }
}

pub open spec fn sdec_u64(s: Seq<u8>, pos: int) -> Option<(u64, int)> {
    if 0 <= pos && pos + 8 <= s.len() {
        Option::Some((combine_u64(s, pos), pos + 8))
    } else {
        Option::None
    }
}

pub open spec fn sdec_u128(s: Seq<u8>, pos: int) -> Option<(u128, int)> {
    match sdec_u64(s, pos) {
        Option::Some((hi, p1)) => match sdec_u64(s, p1) {
            Option::Some((lo, p2)) => Option::Some(
                ((((hi as u128) << 64) | (lo as u128)), p2),
            ),
            Option::None => Option::None,
        },
        Option::None => Option::None,
    }
}

pub open spec fn sdec_bytes(s: Seq<u8>, pos: int) -> Option<(Seq<u8>, int)> {
    match sdec_u64(s, pos) {
        Option::Some((n, p)) => if p + n <= s.len() {
            Option::Some((s.subrange(p, p + n as int), p + n as int))
        } else {
            Option::None
        },
        Option::None => Option::None,
    }
}

pub open spec fn sdec_opt_bytes(s: Seq<u8>, pos: int) -> Option<(Option<Seq<u8>>, int)> {
    match sdec_u8(s, pos) {
        Option::Some((tag, p)) => if tag == 0 {
            Option::Some((Option::None, p))
        } else if tag == 1 {
            match sdec_bytes(s, p) {
                Option::Some((b, p2)) => Option::Some((Option::Some(b), p2)),
                Option::None => Option::None,
            }
        } else {
            Option::None
        },
        Option::None => Option::None,
    }
}

pub open spec fn sdec_vv(s: Seq<u8>, pos: int) -> Option<(VvModel, int)> {
    match sdec_u64(s, pos) {
        Option::Some((ballot, p)) => match sdec_opt_bytes(s, p) {
            Option::Some((payload, p2)) => Option::Some((VvModel { ballot, payload }, p2)),
            Option::None => Option::None,
        },
        Option::None => Option::None,
    }
}

pub open spec fn sdec_request(s: Seq<u8>, pos: int) -> Option<(ReqModel, int)> {
    match sdec_u8(s, pos) {
        Option::Some((tag, p)) => if tag == 0 {
            match sdec_u64(s, p) {
                Option::Some((ballot, p1)) => match sdec_bytes(s, p1) {
                    Option::Some((key, p2)) => Option::Some(
                        (ReqModel::Prepare { ballot, key }, p2),
                    ),
                    Option::None => Option::None,
                },
                Option::None => Option::None,
            }
        } else if tag == 1 {
            match sdec_bytes(s, p) {
                Option::Some((key, p1)) => match sdec_vv(s, p1) {
                    Option::Some((value, p2)) => Option::Some(
                        (ReqModel::Accept { key, value }, p2),
                    ),
                    Option::None => Option::None,
                },
                Option::None => Option::None,
            }
        } else if tag == 2 {
            Option::Some((ReqModel::Ping, p))
        } else {
            Option::None
        },
        Option::None => Option::None,
    }
}

pub open spec fn sdec_response(s: Seq<u8>, pos: int) -> Option<(RespModel, int)> {
    match sdec_u8(s, pos) {
        Option::Some((tag, p)) => if tag == 0 {
            match sdec_u8(s, p) {
                Option::Some((sb, p1)) => if sb == 0 || sb == 1 {
                    match sdec_vv(s, p1) {
                        Option::Some((current_value, p2)) => Option::Some(
                            (RespModel::Promise { success: sb == 1, current_value }, p2),
                        ),
                        Option::None => Option::None,
                    }
                } else {
                    Option::None
                },
                Option::None => Option::None,
            }
        } else if tag == 1 {
            match sdec_u8(s, p) {
                Option::Some((eb, p1)) => if eb == 0 {
                    Option::Some((RespModel::Accepted { rejected: Option::None }, p1))
                } else if eb == 1 {
                    match sdec_vv(s, p1) {
                        Option::Some((v, p2)) => Option::Some(
                            (RespModel::Accepted { rejected: Option::Some(v) }, p2),
                        ),
                        Option::None => Option::None,
                    }
                } else {
                    Option::None
                },
                Option::None => Option::None,
            }
        } else if tag == 2 {
            Option::Some((RespModel::Pong, p))
        } else {
            Option::None
        },
        Option::None => Option::None,
    }
}

pub open spec fn sdec_message(s: Seq<u8>, pos: int) -> Option<(MsgModel, int)> {
    match sdec_u8(s, pos) {
        Option::Some((tag, p)) => if tag == 0 {
            match sdec_request(s, p) {
                Option::Some((r, p2)) => Option::Some((MsgModel::Request(r), p2)),
                Option::None => Option::None,
            }
        } else if tag == 1 {
            match sdec_response(s, p) {
                Option::Some((r, p2)) => Option::Some((MsgModel::Response(r), p2)),
                Option::None => Option::None,
            }
        } else {
            Option::None
        },
        Option::None => Option::None,
    }
}

pub open spec fn sdec_envelope(s: Seq<u8>, pos: int) -> Option<(EnvModel, int)> {
    match sdec_u128(s, pos) {
        Option::Some((uuid, p)) => match sdec_message(s, p) {
            Option::Some((message, p2)) => Option::Some((EnvModel { uuid, message }, p2)),
            Option::None => Option::None,
        },
        Option::None => Option::None,
    }
}

// ---------------------------------------------------------------------------
// The round-trip law: decoding an encoding, wherever it sits in a larger
// buffer, yields the value that was encoded and stops exactly after it.
// Byte-sequence lengths must fit the 8-byte length prefix; every value built
// from in-memory vectors satisfies that.
// ---------------------------------------------------------------------------

pub open spec fn vv_model_wf(v: VvModel) -> bool {
    v.payload matches Option::Some(b) ==> b.len() < 0x10000000000000000
}

pub open spec fn req_model_wf(r: ReqModel) -> bool {
    match r {
        ReqModel::Prepare { key, .. } => key.len() < 0x10000000000000000,
        ReqModel::Accept { key, value } => key.len() < 0x10000000000000000 && vv_model_wf(value),
        ReqModel::Ping => true,
    }
}

pub open spec fn resp_model_wf(r: RespModel) -> bool {
    match r {
        RespModel::Promise { current_value, .. } => vv_model_wf(current_value),
        RespModel::Accepted { rejected } => match rejected {
            Option::None => true,
            Option::Some(v) => vv_model_wf(v),
        },
        RespModel::Pong => true,
    }
}

pub open spec fn msg_model_wf(m: MsgModel) -> bool {
    match m {
        MsgModel::Request(r) => req_model_wf(r),
        MsgModel::Response(r) => resp_model_wf(r),
    }
}

pub open spec fn env_model_wf(e: EnvModel) -> bool {
    msg_model_wf(e.message)
}

proof fn lemma_senc_u64_len(x: u64)
    ensures
        senc_u64(x).len() == 8,
{
    reveal(senc_u64);
}

proof fn lemma_senc_vv_lens(v: VvModel)
    ensures
        senc_vv(v).len() == 8 + senc_opt_bytes(v.payload).len(),
        v.payload matches Option::Some(b) ==> senc_opt_bytes(v.payload).len() == 9 + b.len(),
        v.payload is None ==> senc_opt_bytes(v.payload).len() == 1,
{
    lemma_senc_u64_len(v.ballot);
    match v.payload {
        Option::Some(b) => {
            lemma_senc_u64_len(b.len() as u64);
        },
        Option::None => {},
    }
}

proof fn lemma_u64_recombine(x: u64)
    ensures
        ((((x >> 56) as u8 as u64) << 56) | (((x >> 48) as u8 as u64) << 48) | (((x
            >> 40) as u8 as u64) << 40) | (((x >> 32) as u8 as u64) << 32) | (((x
            >> 24) as u8 as u64) << 24) | (((x >> 16) as u8 as u64) << 16) | (((x
            >> 8) as u8 as u64) << 8) | ((x as u8) as u64)) == x,
{
    assert(((((x >> 56) as u8 as u64) << 56) | (((x >> 48) as u8 as u64) << 48) | (((x
        >> 40) as u8 as u64) << 40) | (((x >> 32) as u8 as u64) << 32) | (((x
        >> 24) as u8 as u64) << 24) | (((x >> 16) as u8 as u64) << 16) | (((x
        >> 8) as u8 as u64) << 8) | ((x as u8) as u64)) == x) by (bit_vector);
}

proof fn lemma_rt_u8(pre: Seq<u8>, x: u8, suf: Seq<u8>)
    ensures
        sdec_u8(pre + seq![x] + suf, pre.len() as int) == Option::Some(
            (x, pre.len() as int + 1),
        ),
{
    let s = pre + seq![x] + suf;
    assert(s[pre.len() as int] == x);
}

proof fn lemma_rt_u64(pre: Seq<u8>, x: u64, suf: Seq<u8>)
    ensures
        sdec_u64(pre + senc_u64(x) + suf, pre.len() as int) == Option::Some(
            (x, pre.len() as int + 8),
        ),
{
    reveal(senc_u64);
    reveal(combine_u64);
    let s = pre + senc_u64(x) + suf;
    let pos = pre.len() as int;
    assert forall|k: int| 0 <= k < 8 implies s[pos + k] == senc_u64(x)[k] by {
        assert((pre + senc_u64(x))[pos + k] == senc_u64(x)[k]);
    }
    lemma_u64_recombine(x);
    assert(combine_u64(s, pos) == x);
}

proof fn lemma_rt_u128(pre: Seq<u8>, x: u128, suf: Seq<u8>)
    ensures
        sdec_u128(pre + senc_u128(x) + suf, pre.len() as int) == Option::Some(
            (x, pre.len() as int + 16),
        ),
{
    let hi = (x >> 64) as u64;
    let lo = x as u64;
    lemma_senc_u64_len(hi);
    lemma_senc_u64_len(lo);
    let s = pre + senc_u128(x) + suf;
    assert(s =~= pre + senc_u64(hi) + (senc_u64(lo) + suf));
    lemma_rt_u64(pre, hi, senc_u64(lo) + suf);
    assert(s =~= (pre + senc_u64(hi)) + senc_u64(lo) + suf);
    lemma_rt_u64(pre + senc_u64(hi), lo, suf);
    assert((((hi as u128) << 64) | (lo as u128)) == x) by (bit_vector)
        requires
            hi == (x >> 64) as u64,
            lo == x as u64,
    ;
}

proof fn lemma_rt_bytes(pre: Seq<u8>, b: Seq<u8>, suf: Seq<u8>)
    requires
        b.len() < 0x10000000000000000,
    ensures
        sdec_bytes(pre + senc_bytes(b) + suf, pre.len() as int) == Option::Some(
            (b, pre.len() as int + 8 + b.len() as int),
        ),
{
    let n = b.len() as u64;
    lemma_senc_u64_len(n);
    let s = pre + senc_bytes(b) + suf;
    let pos = pre.len() as int;
    assert(s =~= pre + senc_u64(n) + (b + suf));
    lemma_rt_u64(pre, n, b + suf);
    assert(s.subrange(pos + 8, pos + 8 + n as int) =~= b);
}

#[verifier::rlimit(100)]
proof fn lemma_rt_opt_bytes(pre: Seq<u8>, o: Option<Seq<u8>>, suf: Seq<u8>)
    requires
        o matches Option::Some(b) ==> b.len() < 0x10000000000000000,
    ensures
        sdec_opt_bytes(pre + senc_opt_bytes(o) + suf, pre.len() as int) == Option::Some(
            (o, pre.len() as int + senc_opt_bytes(o).len() as int),
        ),
{
    let s = pre + senc_opt_bytes(o) + suf;
    match o {
        Option::None => {
            assert(s =~= pre + seq![0u8] + suf);
            lemma_rt_u8(pre, 0u8, suf);
        },
        Option::Some(b) => {
            lemma_senc_u64_len(b.len() as u64);
            assert(s =~= pre + seq![1u8] + (senc_bytes(b) + suf));
            lemma_rt_u8(pre, 1u8, senc_bytes(b) + suf);
            assert(s =~= (pre + seq![1u8]) + senc_bytes(b) + suf);
            lemma_rt_bytes(pre + seq![1u8], b, suf);
        },
    }
}

#[verifier::rlimit(100)]
proof fn lemma_rt_vv(pre: Seq<u8>, v: VvModel, suf: Seq<u8>)
    requires
        vv_model_wf(v),
    ensures
        sdec_vv(pre + senc_vv(v) + suf, pre.len() as int) == Option::Some(
            (v, pre.len() as int + senc_vv(v).len() as int),
        ),
{
    lemma_senc_vv_lens(v);
    let s = pre + senc_vv(v) + suf;
    assert(s =~= pre + senc_u64(v.ballot) + (senc_opt_bytes(v.payload) + suf));
    lemma_rt_u64(pre, v.ballot, senc_opt_bytes(v.payload) + suf);
    assert(s =~= (pre + senc_u64(v.ballot)) + senc_opt_bytes(v.payload) + suf);
    lemma_rt_opt_bytes(pre + senc_u64(v.ballot), v.payload, suf);
}

#[verifier::rlimit(100)]
proof fn lemma_rt_request(pre: Seq<u8>, r: ReqModel, suf: Seq<u8>)
    requires
        req_model_wf(r),
    ensures
        sdec_request(pre + senc_request(r) + suf, pre.len() as int) == Option::Some(
            (r, pre.len() as int + senc_request(r).len() as int),
        ),
{
    let s = pre + senc_request(r) + suf;
    match r {
        ReqModel::Prepare { ballot, key } => {
            lemma_senc_u64_len(ballot);
            lemma_senc_u64_len(key.len() as u64);
            assert(s =~= pre + seq![0u8] + (senc_u64(ballot) + (senc_bytes(key) + suf)));
            lemma_rt_u8(pre, 0u8, senc_u64(ballot) + (senc_bytes(key) + suf));
            assert(s =~= (pre + seq![0u8]) + senc_u64(ballot) + (senc_bytes(key) + suf));
            lemma_rt_u64(pre + seq![0u8], ballot, senc_bytes(key) + suf);
            assert(s =~= ((pre + seq![0u8]) + senc_u64(ballot)) + senc_bytes(key) + suf);
            lemma_rt_bytes((pre + seq![0u8]) + senc_u64(ballot), key, suf);
        },
        ReqModel::Accept { key, value } => {
            lemma_senc_u64_len(key.len() as u64);
            lemma_senc_vv_lens(value);
            assert(s =~= pre + seq![1u8] + (senc_bytes(key) + (senc_vv(value) + suf)));
            lemma_rt_u8(pre, 1u8, senc_bytes(key) + (senc_vv(value) + suf));
            assert(s =~= (pre + seq![1u8]) + senc_bytes(key) + (senc_vv(value) + suf));
            lemma_rt_bytes(pre + seq![1u8], key, senc_vv(value) + suf);
            assert(s =~= ((pre + seq![1u8]) + senc_bytes(key)) + senc_vv(value) + suf);
            lemma_rt_vv((pre + seq![1u8]) + senc_bytes(key), value, suf);
        },
        ReqModel::Ping => {
            assert(s =~= pre + seq![2u8] + suf);
            lemma_rt_u8(pre, 2u8, suf);
        },
    }
}

#[verifier::rlimit(100)]
proof fn lemma_rt_response(pre: Seq<u8>, r: RespModel, suf: Seq<u8>)
    requires
        resp_model_wf(r),
    ensures
        sdec_response(pre + senc_response(r) + suf, pre.len() as int) == Option::Some(
            (r, pre.len() as int + senc_response(r).len() as int),
        ),
{
    let s = pre + senc_response(r) + suf;
    match r {
        RespModel::Promise { success, current_value } => {
            lemma_senc_vv_lens(current_value);
            let sb = if success {
                1u8
            } else {
                0u8
            };
            assert(s =~= pre + seq![0u8] + (seq![sb] + (senc_vv(current_value) + suf)));
            lemma_rt_u8(pre, 0u8, seq![sb] + (senc_vv(current_value) + suf));
            assert(s =~= (pre + seq![0u8]) + seq![sb] + (senc_vv(current_value) + suf));
            lemma_rt_u8(pre + seq![0u8], sb, senc_vv(current_value) + suf);
            assert(s =~= ((pre + seq![0u8]) + seq![sb]) + senc_vv(current_value) + suf);
            lemma_rt_vv((pre + seq![0u8]) + seq![sb], current_value, suf);
        },
        RespModel::Accepted { rejected } => {
            match rejected {
                Option::None => {
                    assert(s =~= pre + seq![1u8] + (seq![0u8] + suf));
                    lemma_rt_u8(pre, 1u8, seq![0u8] + suf);
                    assert(s =~= (pre + seq![1u8]) + seq![0u8] + suf);
                    lemma_rt_u8(pre + seq![1u8], 0u8, suf);
                },
                Option::Some(v) => {
                    lemma_senc_vv_lens(v);
                    assert(s =~= pre + seq![1u8] + (seq![1u8] + (senc_vv(v) + suf)));
                    lemma_rt_u8(pre, 1u8, seq![1u8] + (senc_vv(v) + suf));
                    assert(s =~= (pre + seq![1u8]) + seq![1u8] + (senc_vv(v) + suf));
                    lemma_rt_u8(pre + seq![1u8], 1u8, senc_vv(v) + suf);
                    assert(s =~= ((pre + seq![1u8]) + seq![1u8]) + senc_vv(v) + suf);
                    lemma_rt_vv((pre + seq![1u8]) + seq![1u8], v, suf);
                },
            }
        },
        RespModel::Pong => {
            assert(s =~= pre + seq![2u8] + suf);
            lemma_rt_u8(pre, 2u8, suf);
        },
    }
}

#[verifier::rlimit(100)]
proof fn lemma_rt_message(pre: Seq<u8>, m: MsgModel, suf: Seq<u8>)
    requires
        msg_model_wf(m),
    ensures
        sdec_message(pre + senc_message(m) + suf, pre.len() as int) == Option::Some(
            (m, pre.len() as int + senc_message(m).len() as int),
        ),
{
    let s = pre + senc_message(m) + suf;
    match m {
        MsgModel::Request(r) => {
            assert(s =~= pre + seq![0u8] + (senc_request(r) + suf));
            lemma_rt_u8(pre, 0u8, senc_request(r) + suf);
            assert(s =~= (pre + seq![0u8]) + senc_request(r) + suf);
            lemma_rt_request(pre + seq![0u8], r, suf);
        },
        MsgModel::Response(r) => {
            assert(s =~= pre + seq![1u8] + (senc_response(r) + suf));
            lemma_rt_u8(pre, 1u8, senc_response(r) + suf);
            assert(s =~= (pre + seq![1u8]) + senc_response(r) + suf);
            lemma_rt_response(pre + seq![1u8], r, suf);
        },
    }
}

// ---------------------------------------------------------------------------
// Executable encoder: appends the spec encoding, byte for byte.
// ---------------------------------------------------------------------------

fn push_u64(out: &mut Vec<u8>, x: u64)
    ensures
        final(out)@ == old(out)@ + senc_u64(x),
{
    proof {
        reveal(senc_u64);
    }
    out.push((x >> 56) as u8);
    out.push((x >> 48) as u8);
    out.push((x >> 40) as u8);
    out.push((x >> 32) as u8);
    out.push((x >> 24) as u8);
    out.push((x >> 16) as u8);
    out.push((x >> 8) as u8);
    out.push(x as u8);
    proof {
        assert(out@ =~= old(out)@ + senc_u64(x));
    }
}

fn push_u128(out: &mut Vec<u8>, x: u128)
    ensures
        final(out)@ == old(out)@ + senc_u128(x),
{
    push_u64(out, (x >> 64) as u64);
    push_u64(out, x as u64);
    proof {
        assert(out@ =~= old(out)@ + senc_u128(x));
    }
}

fn push_bytes(out: &mut Vec<u8>, b: &Vec<u8>)
    ensures
        final(out)@ == old(out)@ + senc_bytes(b@),
{
    push_u64(out, b.len() as u64);
    let ghost mid = out@;
    let mut i: usize = 0;
    while i < b.len()
        invariant
            i <= b@.len(),
            out@ == mid + b@.subrange(0, i as int),
        decreases b@.len() - i,
    {
        out.push(b[i]);
        proof {
            assert(out@ =~= mid + b@.subrange(0, i + 1));
        }
        i += 1;
    }
    proof {
        assert(b@.subrange(0, b@.len() as int) =~= b@);
        assert(out@ =~= old(out)@ + senc_bytes(b@));
    }
}

fn push_opt_bytes(out: &mut Vec<u8>, o: &Option<Vec<u8>>)
    ensures
        final(out)@ == old(out)@ + senc_opt_bytes(
            match *o {
                Option::Some(b) => Option::Some(b@),
                Option::None => Option::None,
            },
        ),
{
    match o {
        None => {
            out.push(0u8);
            proof {
                assert(out@ =~= old(out)@ + seq![0u8]);
            }
        },
        Some(b) => {
            out.push(1u8);
            push_bytes(out, b);
            proof {
                assert(out@ =~= old(out)@ + (seq![1u8] + senc_bytes(b@)));
            }
        },
    }
}

fn push_vv(out: &mut Vec<u8>, v: &VersionedValue)
    ensures
        final(out)@ == old(out)@ + senc_vv(vv_model(*v)),
{
    push_u64(out, v.ballot);
    push_opt_bytes(out, &v.value);
    proof {
        assert(out@ =~= old(out)@ + senc_vv(vv_model(*v)));
    }
}

fn push_request(out: &mut Vec<u8>, r: &Request)
    ensures
        final(out)@ == old(out)@ + senc_request(req_model(*r)),
{
    match r {
        Request::Prepare { ballot, key } => {
            out.push(0u8);
            push_u64(out, *ballot);
            push_bytes(out, key);
        },
        Request::Accept { key, value } => {
            out.push(1u8);
            push_bytes(out, key);
            push_vv(out, value);
        },
        Request::Ping => {
            out.push(2u8);
        },
    }
    proof {
        assert(out@ =~= old(out)@ + senc_request(req_model(*r)));
    }
}

fn push_response(out: &mut Vec<u8>, r: &Response)
    ensures
        final(out)@ == old(out)@ + senc_response(resp_model(*r)),
{
    match r {
        Response::Promise { success, current_value } => {
            out.push(0u8);
            if *success {
                out.push(1u8);
            } else {
                out.push(0u8);
            }
            push_vv(out, current_value);
        },
        Response::Accepted { success } => {
            out.push(1u8);
            match success {
                Ok(()) => {
                    out.push(0u8);
                },
                Err(v) => {
                    out.push(1u8);
                    push_vv(out, v);
                },
            }
        },
        Response::Pong => {
            out.push(2u8);
        },
    }
    proof {
        assert(out@ =~= old(out)@ + senc_response(resp_model(*r)));
    }
}

fn push_message(out: &mut Vec<u8>, m: &Message)
    ensures
        final(out)@ == old(out)@ + senc_message(msg_model(*m)),
{
    match m {
        Message::Request(r) => {
            out.push(0u8);
            push_request(out, r);
        },
        Message::Response(r) => {
            out.push(1u8);
            push_response(out, r);
        },
    }
    proof {
        assert(out@ =~= old(out)@ + senc_message(msg_model(*m)));
    }
}

/// Serializes an envelope for transport, producing exactly the bytes of the
/// abstract encoding of its model.
pub fn encode_envelope(env: &Envelope) -> (r: Vec<u8>)
    ensures
        r@ == senc_envelope(env_model(*env)),
{
    let mut out: Vec<u8> = Vec::new();
    push_u128(&mut out, env.uuid);
    push_message(&mut out, &env.message);
    proof {
        assert(out@ =~= senc_envelope(env_model(*env)));
    }
    out
}

// ---------------------------------------------------------------------------
// Executable decoder: realises the spec decoder exactly, returning nothing
// on every malformed input.
// ---------------------------------------------------------------------------

fn read_u8(buf: &Vec<u8>, pos: usize) -> (r: Option<(u8, usize)>)
    ensures
        (r is Some) == (sdec_u8(buf@, pos as int) is Some),
        r matches Some(t) ==> sdec_u8(buf@, pos as int) == Option::Some((t.0, t.1 as int)),
{
    if pos < buf.len() {
        Some((buf[pos], pos + 1))
    } else {
        None
    }
}

fn read_u64(buf: &Vec<u8>, pos: usize) -> (r: Option<(u64, usize)>)
    ensures
        (r is Some) == (sdec_u64(buf@, pos as int) is Some),
        r matches Some(t) ==> sdec_u64(buf@, pos as int) == Option::Some((t.0, t.1 as int)),
{
    if pos <= buf.len() && buf.len() - pos >= 8 {
        proof {
            reveal(combine_u64);
        }
        let x = ((buf[pos] as u64) << 56u64) | ((buf[pos + 1] as u64) << 48u64) | ((buf[pos
            + 2] as u64) << 40u64) | ((buf[pos + 3] as u64) << 32u64) | ((buf[pos
            + 4] as u64) << 24u64) | ((buf[pos + 5] as u64) << 16u64) | ((buf[pos
            + 6] as u64) << 8u64) | (buf[pos + 7] as u64);
        Some((x, pos + 8))
    } else {
        None
    }
}

fn read_u128(buf: &Vec<u8>, pos: usize) -> (r: Option<(u128, usize)>)
    ensures
        (r is Some) == (sdec_u128(buf@, pos as int) is Some),
        r matches Some(t) ==> sdec_u128(buf@, pos as int) == Option::Some((t.0, t.1 as int)),
{
    match read_u64(buf, pos) {
        Some((hi, p1)) => match read_u64(buf, p1) {
            Some((lo, p2)) => Some((((hi as u128) << 64u128) | (lo as u128), p2)),
            None => None,
        },
        None => None,
    }
}

fn read_bytes(buf: &Vec<u8>, pos: usize) -> (r: Option<(Vec<u8>, usize)>)
    ensures
        (r is Some) == (sdec_bytes(buf@, pos as int) is Some),
        r matches Some(t) ==> sdec_bytes(buf@, pos as int) == Option::Some((t.0@, t.1 as int)),
{
    match read_u64(buf, pos) {
        Some((n, p)) => {
            if n <= (buf.len() - p) as u64 {
                let n_us = n as usize;
                let total = buf.len();
                let mut v: Vec<u8> = Vec::new();
                let mut i: usize = 0;
                while i < n_us
                    invariant
                        i <= n_us,
                        total == buf@.len(),
                        p + n_us <= total,
                        v@ == buf@.subrange(p as int, p as int + i as int),
                    decreases n_us - i,
                {
                    v.push(buf[p + i]);
                    proof {
                        assert(v@ =~= buf@.subrange(p as int, p as int + i as int + 1));
                    }
                    i += 1;
                }
                Some((v, p + n_us))
            } else {
                None
            }
        },
        None => None,
    }
}

fn read_opt_bytes(buf: &Vec<u8>, pos: usize) -> (r: Option<(Option<Vec<u8>>, usize)>)
    ensures
        (r is Some) == (sdec_opt_bytes(buf@, pos as int) is Some),
        r matches Some(t) ==> sdec_opt_bytes(buf@, pos as int) == Option::Some(
            (
                match t.0 {
                    Option::Some(b) => Option::Some(b@),
                    Option::None => Option::None,
                },
                t.1 as int,
            ),
        ),
{
    match read_u8(buf, pos) {
        Some((tag, p)) => {
            if tag == 0 {
                Some((None, p))
            } else if tag == 1 {
                match read_bytes(buf, p) {
                    Some((b, p2)) => Some((Some(b), p2)),
                    None => None,
                }
            } else {
                None
            }
        },
        None => None,
    }
}

fn read_vv(buf: &Vec<u8>, pos: usize) -> (r: Option<(VersionedValue, usize)>)
    ensures
        (r is Some) == (sdec_vv(buf@, pos as int) is Some),
        r matches Some(t) ==> sdec_vv(buf@, pos as int) == Option::Some(
            (vv_model(t.0), t.1 as int),
        ),
{
    match read_u64(buf, pos) {
        Some((ballot, p)) => match read_opt_bytes(buf, p) {
            Some((value, p2)) => Some((VersionedValue { ballot, value }, p2)),
            None => None,
        },
        None => None,
    }
}

fn read_request(buf: &Vec<u8>, pos: usize) -> (r: Option<(Request, usize)>)
    ensures
        (r is Some) == (sdec_request(buf@, pos as int) is Some),
        r matches Some(t) ==> sdec_request(buf@, pos as int) == Option::Some(
            (req_model(t.0), t.1 as int),
        ),
{
    match read_u8(buf, pos) {
        Some((tag, p)) => {
            if tag == 0 {
                match read_u64(buf, p) {
                    Some((ballot, p1)) => match read_bytes(buf, p1) {
                        Some((key, p2)) => Some((Request::Prepare { ballot, key }, p2)),
                        None => None,
                    },
                    None => None,
                }
            } else if tag == 1 {
                match read_bytes(buf, p) {
                    Some((key, p1)) => match read_vv(buf, p1) {
                        Some((value, p2)) => Some((Request::Accept { key, value }, p2)),
                        None => None,
                    },
                    None => None,
                }
            } else if tag == 2 {
                Some((Request::Ping, p))
            } else {
                None
            }
        },
        None => None,
    }
}

fn read_response(buf: &Vec<u8>, pos: usize) -> (r: Option<(Response, usize)>)
    ensures
        (r is Some) == (sdec_response(buf@, pos as int) is Some),
        r matches Some(t) ==> sdec_response(buf@, pos as int) == Option::Some(
            (resp_model(t.0), t.1 as int),
        ),
{
    match read_u8(buf, pos) {
        Some((tag, p)) => {
            if tag == 0 {
                match read_u8(buf, p) {
                    Some((sb, p1)) => {
                        if sb == 0 || sb == 1 {
                            match read_vv(buf, p1) {
                                Some((current_value, p2)) => Some(
                                    (
                                        Response::Promise { success: sb == 1, current_value },
                                        p2,
                                    ),
                                ),
                                None => None,
                            }
                        } else {
                            None
                        }
                    },
                    None => None,
                }
            } else if tag == 1 {
                match read_u8(buf, p) {
                    Some((eb, p1)) => {
                        if eb == 0 {
                            Some((Response::Accepted { success: Ok(()) }, p1))
                        } else if eb == 1 {
                            match read_vv(buf, p1) {
                                Some((v, p2)) => Some(
                                    (Response::Accepted { success: Err(v) }, p2),
                                ),
                                None => None,
                            }
                        } else {
                            None
                        }
                    },
                    None => None,
                }
            } else if tag == 2 {
                Some((Response::Pong, p))
            } else {
                None
            }
        },
        None => None,
    }
}

fn read_message(buf: &Vec<u8>, pos: usize) -> (r: Option<(Message, usize)>)
    ensures
        (r is Some) == (sdec_message(buf@, pos as int) is Some),
        r matches Some(t) ==> sdec_message(buf@, pos as int) == Option::Some(
            (msg_model(t.0), t.1 as int),
        ),
{
    match read_u8(buf, pos) {
        Some((tag, p)) => {
            if tag == 0 {
                match read_request(buf, p) {
                    Some((r2, p2)) => Some((Message::Request(r2), p2)),
                    None => None,
                }
            } else if tag == 1 {
                match read_response(buf, p) {
                    Some((r2, p2)) => Some((Message::Response(r2), p2)),
                    None => None,
                }
            } else {
                None
            }
        },
        None => None,
    }
}

/// Deserializes an envelope, accepting exactly the buffers that are a whole
/// abstract encoding of one envelope and nothing more; anything else is
/// malformed and yields nothing.
pub fn decode_envelope(buf: &Vec<u8>) -> (r: Option<Envelope>)
    ensures
        (r is Some) == (sdec_envelope(buf@, 0) matches Option::Some(t) && t.1 == buf@.len() as int),
        r matches Some(env) ==> sdec_envelope(buf@, 0) == Option::Some(
            (env_model(env), buf@.len() as int),
        ),
{
    match read_u128(buf, 0) {
        Some((uuid, p)) => match read_message(buf, p) {
            Some((message, p2)) => {
                if p2 == buf.len() {
                    Some(Envelope { uuid, message })
                } else {
                    None
                }
            },
            None => None,
        },
        None => None,
    }
}

/// The round-trip law: every well-formed envelope value, once encoded,
/// decodes back to an equal envelope — identifier and message variant and
/// fields preserved exactly, including an absent payload — consuming the
/// whole encoding.
#[verifier::rlimit(100)]
pub proof fn lemma_envelope_round_trip(e: EnvModel)
    requires
        env_model_wf(e),
    ensures
        sdec_envelope(senc_envelope(e), 0) == Option::Some(
            (e, senc_envelope(e).len() as int),
        ),
{
    let empty = Seq::<u8>::empty();
    lemma_senc_u64_len((e.uuid >> 64) as u64);
    lemma_senc_u64_len(e.uuid as u64);
    let s = empty + senc_envelope(e) + empty;
    assert(s =~= empty + senc_u128(e.uuid) + (senc_message(e.message) + empty));
    lemma_rt_u128(empty, e.uuid, senc_message(e.message) + empty);
    assert(s =~= (empty + senc_u128(e.uuid)) + senc_message(e.message) + empty);
    lemma_rt_message(empty + senc_u128(e.uuid), e.message, empty);
    assert(s =~= senc_envelope(e));
}

} // verus!
