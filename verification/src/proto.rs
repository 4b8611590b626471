//! The messages of the translation protocol and their protobuf encoding.
//!
//! Each message has an executable type, a mathematical model (strings as
//! character sequences), the list of field records it encodes to, and the
//! decoding rule of each field. Field numbers:
//!
//! * `RequestMeta`: endpoint 1, app_key 2, app_id 3, resource_id 4, connection_id 5,
//!   session_id 6, sequence 7.
//! * `ResponseMeta`: session_id 1, sequence 2, status_code 3, message 4.
//! * `User`: uid 1, did 2, platform 3, sdk_version 4, app_version 5.
//! * `Audio`: data 1, url 2, url_type 3, format 4, codec 5, language 6, rate 7,
//!   bits 8, channel 9, binary_data 10, tos_bucket 11, tos_access_key 12,
//!   audio_tos_object 13, role_trn 14.
//! * `ReqParams`: mode 1, source_language 2, target_language 3, speaker_id 4.
//! * `TranslateRequest`: request_meta 1, event 2, user 3, source_audio 4,
//!   target_audio 5, request 6, denoise 7.
//! * `TranslateResponse`: response_meta 1, event 2, data 3, text 4, start_time 5,
//!   end_time 6, spk_chg 7, muted_duration_ms 8.
//!
//! Fields at their default value are not written (an `Option` field is written
//! whenever it is `Some`); fields come out in tag order. When decoding, a later
//! occurrence of a scalar field replaces an earlier one, a repeated message field
//! is merged into the earlier one, unknown fields are skipped, and a known field
//! with the wrong wire type is an error.

use vstd::prelude::*;
use vstd::utf8::*;
use crate::wire::{
    all_encodable, encodable, encode_record, encode_records, lemma_encode_records_append,
    lemma_records_roundtrip, parse_records, read_records, records_view, put_bool_field, put_bytes_field,
    put_int32_field, put_string_field, string_from_utf8, FieldValue, WireRecord, WireValue,
    MAX_TAG,
};

verus! {

broadcast use vstd::utf8::group_utf8_lib;

/// Nesting budget of a top-level message: nested messages and groups may go
/// this many levels deep.
pub const NESTING_LIMIT: u32 = 100;

/// A message could not be decoded: the bytes are not a well-formed encoding.
#[derive(Debug, Clone, Copy, PartialEq, Eq)]
pub struct WireError;

// ---------------------------------------------------------------------------
// Field records of each field kind.

pub open spec fn str_field(tag: u32, s: Seq<char>) -> Seq<WireRecord> {
    if s.len() == 0 {
        Seq::empty()
    } else {
        seq![WireRecord { tag, value: WireValue::Delimited(encode_utf8(s)) }]
    }
}

pub open spec fn bytes_field(tag: u32, b: Seq<u8>) -> Seq<WireRecord> {
    if b.len() == 0 {
        Seq::empty()
    } else {
        seq![WireRecord { tag, value: WireValue::Delimited(b) }]
    }
}

pub open spec fn i32_field(tag: u32, v: i32) -> Seq<WireRecord> {
    if v == 0 {
        Seq::empty()
    } else {
        seq![WireRecord { tag, value: WireValue::Varint(v as u64) }]
    }
}

pub open spec fn bool_field(tag: u32, v: bool) -> Seq<WireRecord> {
    if !v {
        Seq::empty()
    } else {
        seq![WireRecord { tag, value: WireValue::Varint(1) }]
    }
}

pub open spec fn opt_bool_field(tag: u32, v: Option<bool>) -> Seq<WireRecord> {
    match v {
        Some(b) => seq![WireRecord { tag, value: WireValue::Varint(if b { 1 } else { 0 }) }],
        None => Seq::empty(),
    }
}

pub open spec fn msg_field(tag: u32, encoded: Option<Seq<u8>>) -> Seq<WireRecord> {
    match encoded {
        Some(b) => seq![WireRecord { tag, value: WireValue::Delimited(b) }],
        None => Seq::empty(),
    }
}

// Decoding rule of each field kind.

pub open spec fn as_str(v: WireValue) -> Option<Seq<char>> {
    match v {
        WireValue::Delimited(b) => if valid_utf8(b) {
            Some(decode_utf8(b))
        } else {
            None
        },
        _ => None,
    }
}

pub open spec fn as_bytes(v: WireValue) -> Option<Seq<u8>> {
    match v {
        WireValue::Delimited(b) => Some(b),
        _ => None,
    }
}

pub open spec fn as_i32(v: WireValue) -> Option<i32> {
    match v {
        WireValue::Varint(x) => Some(x as i32),
        _ => None,
    }
}

pub open spec fn as_bool(v: WireValue) -> Option<bool> {
    match v {
        WireValue::Varint(x) => Some(x != 0),
        _ => None,
    }
}

/// Applies the records one after the other; the first that cannot be applied
/// makes the whole fail.
pub open spec fn fold_records<M>(
    m: M,
    rs: Seq<WireRecord>,
    step: spec_fn(M, WireRecord) -> Option<M>,
) -> Option<M>
    decreases rs.len(),
{
    if rs.len() == 0 {
        Some(m)
    } else {
        match step(m, rs[0]) {
            Some(m2) => fold_records(m2, rs.drop_first(), step),
            None => None,
        }
    }
}

pub proof fn lemma_fold_append<M>(
    m: M,
    a: Seq<WireRecord>,
    b: Seq<WireRecord>,
    step: spec_fn(M, WireRecord) -> Option<M>,
)
    ensures
        fold_records(m, a + b, step) == match fold_records(m, a, step) {
            Some(m2) => fold_records(m2, b, step),
            None => None,
        },
    decreases a.len(),
{
    if a.len() == 0 {
        assert(a + b =~= b);
    } else {
        assert((a + b).drop_first() =~= a.drop_first() + b);
        assert((a + b)[0] == a[0]);
        match step(m, a[0]) {
            Some(m2) => lemma_fold_append(m2, a.drop_first(), b, step),
            None => {},
        }
    }
}

pub proof fn lemma_fold_step<M>(m: M, rs: Seq<WireRecord>, i: int, step: spec_fn(M, WireRecord) -> Option<M>)
    requires
        0 <= i < rs.len(),
    ensures
        fold_records(m, rs.skip(i), step) == match step(m, rs[i]) {
            Some(m2) => fold_records(m2, rs.skip(i + 1), step),
            None => None,
        },
{
    assert(rs.skip(i).drop_first() =~= rs.skip(i + 1));
}

pub proof fn lemma_encode_single(r: WireRecord)
    ensures
        encode_records(seq![r]) == encode_record(r),
{
    reveal_with_fuel(encode_records, 2);
    assert(seq![r].drop_first() =~= Seq::<WireRecord>::empty());
    assert(encode_record(r) + Seq::<u8>::empty() =~= encode_record(r));
}

// ---------------------------------------------------------------------------
// Executable field writers and readers.

fn emit_str(buf: &mut Vec<u8>, tag: u32, s: &String)
    requires
        1 <= tag <= MAX_TAG,
    ensures
        final(buf)@ == old(buf)@ + encode_records(str_field(tag, s@)),
{
    if !s.as_str().is_empty() {
        put_string_field(buf, tag, s);
        proof {
            lemma_encode_single(WireRecord { tag, value: WireValue::Delimited(encode_utf8(s@)) });
        }
    } else {
        assert(old(buf)@ + Seq::<u8>::empty() =~= old(buf)@);
    }
}

fn emit_bytes(buf: &mut Vec<u8>, tag: u32, b: &Vec<u8>)
    requires
        1 <= tag <= MAX_TAG,
    ensures
        final(buf)@ == old(buf)@ + encode_records(bytes_field(tag, b@)),
{
    if b.len() > 0 {
        put_bytes_field(buf, tag, b);
        proof {
            lemma_encode_single(WireRecord { tag, value: WireValue::Delimited(b@) });
        }
    } else {
        assert(old(buf)@ + Seq::<u8>::empty() =~= old(buf)@);
    }
}

fn emit_i32(buf: &mut Vec<u8>, tag: u32, v: i32)
    requires
        1 <= tag <= MAX_TAG,
    ensures
        final(buf)@ == old(buf)@ + encode_records(i32_field(tag, v)),
{
    if v != 0 {
        put_int32_field(buf, tag, v);
        proof {
            lemma_encode_single(WireRecord { tag, value: WireValue::Varint(v as u64) });
        }
    } else {
        assert(old(buf)@ + Seq::<u8>::empty() =~= old(buf)@);
    }
}

fn emit_bool(buf: &mut Vec<u8>, tag: u32, v: bool)
    requires
        1 <= tag <= MAX_TAG,
    ensures
        final(buf)@ == old(buf)@ + encode_records(bool_field(tag, v)),
{
    if v {
        put_bool_field(buf, tag, v);
        proof {
            lemma_encode_single(WireRecord { tag, value: WireValue::Varint(1) });
        }
    } else {
        assert(old(buf)@ + Seq::<u8>::empty() =~= old(buf)@);
    }
}

fn emit_opt_bool(buf: &mut Vec<u8>, tag: u32, v: Option<bool>)
    requires
        1 <= tag <= MAX_TAG,
    ensures
        final(buf)@ == old(buf)@ + encode_records(opt_bool_field(tag, v)),
{
    match v {
        Some(b) => {
            put_bool_field(buf, tag, b);
            proof {
                lemma_encode_single(
                    WireRecord { tag, value: WireValue::Varint(if b { 1 } else { 0 }) },
                );
            }
        },
        None => {
            assert(old(buf)@ + Seq::<u8>::empty() =~= old(buf)@);
        },
    }
}

fn emit_msg(buf: &mut Vec<u8>, tag: u32, encoded: Option<Vec<u8>>)
    requires
        1 <= tag <= MAX_TAG,
    ensures
        final(buf)@ == old(buf)@ + encode_records(
            msg_field(
                tag,
                match encoded {
                    Some(b) => Some(b@),
                    None => None,
                },
            ),
        ),
{
    match encoded {
        Some(b) => {
            put_bytes_field(buf, tag, &b);
            proof {
                lemma_encode_single(WireRecord { tag, value: WireValue::Delimited(b@) });
            }
        },
        None => {
            assert(old(buf)@ + Seq::<u8>::empty() =~= old(buf)@);
        },
    }
}

fn get_str(v: &FieldValue) -> (res: Option<String>)
    ensures
        match as_str(v@) {
            Some(s) => res matches Some(x) && x@ == s,
            None => res is None,
        },
{
    match v {
        FieldValue::Delimited(b) => string_from_utf8(b.clone()),
        _ => None,
    }
}

fn get_bytes(v: &FieldValue) -> (res: Option<Vec<u8>>)
    ensures
        match as_bytes(v@) {
            Some(s) => res matches Some(x) && x@ == s,
            None => res is None,
        },
{
    match v {
        FieldValue::Delimited(b) => Some(b.clone()),
        _ => None,
    }
}

fn get_i32(v: &FieldValue) -> (res: Option<i32>)
    ensures
        res == as_i32(v@),
{
    match v {
        FieldValue::Varint(x) => Some(*x as i32),
        _ => None,
    }
}

fn get_bool(v: &FieldValue) -> (res: Option<bool>)
    ensures
        res == as_bool(v@),
{
    match v {
        FieldValue::Varint(x) => Some(*x != 0),
        _ => None,
    }
}

pub proof fn lemma_str_field_roundtrip(tag: u32, s: Seq<char>)
    ensures
        str_field(tag, s).len() == 1 ==> as_str(str_field(tag, s)[0].value) == Some(s),
{
    if s.len() > 0 {
        vstd::utf8::encode_utf8_valid_utf8(s);
        vstd::utf8::encode_utf8_decode_utf8(s);
    }
}

pub proof fn lemma_i32_wire(v: i32)
    ensures
        (v as u64) as i32 == v,
{
    assert((v as u64) as i32 == v) by (bit_vector);
}

/// A string whose UTF-8 encoding a length varint can describe.
pub open spec fn str_fits(s: Seq<char>) -> bool {
    encode_utf8(s).len() < 0x1_0000_0000_0000_0000
}

pub proof fn lemma_all_encodable_append(a: Seq<WireRecord>, b: Seq<WireRecord>)
    requires
        all_encodable(a),
        all_encodable(b),
    ensures
        all_encodable(a + b),
{
    assert forall|i: int| 0 <= i < (a + b).len() implies #[trigger] encodable((a + b)[i]) by {
        if i < a.len() {
            assert(encodable(a[i]));
        } else {
            assert(encodable(b[i - a.len()]));
        }
    }
}

/// Folding one optional field record over a message.
pub proof fn lemma_fold_one<M>(m: M, rs: Seq<WireRecord>, step: spec_fn(M, WireRecord) -> Option<M>)
    requires
        rs.len() <= 1,
    ensures
        fold_records(m, rs, step) == if rs.len() == 0 {
            Some(m)
        } else {
            step(m, rs[0])
        },
{
    reveal_with_fuel(fold_records, 2);
    if rs.len() == 1 {
        assert(rs.drop_first() =~= Seq::<WireRecord>::empty());
    }
}


// ---------------------------------------------------------------------------
// RequestMeta

#[derive(Debug)]
pub struct RequestMeta {
    pub endpoint: String,
    pub app_key: String,
    pub app_id: String,
    pub resource_id: String,
    pub connection_id: String,
    pub session_id: String,
    pub sequence: i32,
}

pub struct RequestMetaModel {
    pub endpoint: Seq<char>,
    pub app_key: Seq<char>,
    pub app_id: Seq<char>,
    pub resource_id: Seq<char>,
    pub connection_id: Seq<char>,
    pub session_id: Seq<char>,
    pub sequence: i32,
}

impl View for RequestMeta {
    type V = RequestMetaModel;

    open spec fn view(&self) -> RequestMetaModel {
        RequestMetaModel {
            endpoint: self.endpoint@,
            app_key: self.app_key@,
            app_id: self.app_id@,
            resource_id: self.resource_id@,
            connection_id: self.connection_id@,
            session_id: self.session_id@,
            sequence: self.sequence,
        }
    }
}

pub open spec fn request_meta_default() -> RequestMetaModel {
    RequestMetaModel {
        endpoint: Seq::empty(),
        app_key: Seq::empty(),
        app_id: Seq::empty(),
        resource_id: Seq::empty(),
        connection_id: Seq::empty(),
        session_id: Seq::empty(),
        sequence: 0,
    }
}

/// The field records of a request header, in tag order.
pub open spec fn request_meta_records(m: RequestMetaModel) -> Seq<WireRecord> {
    str_field(1, m.endpoint)
    + str_field(2, m.app_key)
    + str_field(3, m.app_id)
    + str_field(4, m.resource_id)
    + str_field(5, m.connection_id)
    + str_field(6, m.session_id)
    + i32_field(7, m.sequence)
}

/// The encoding of a request header.
pub open spec fn request_meta_bytes(m: RequestMetaModel) -> Seq<u8> {
    encode_records(request_meta_records(m))
}

/// What one field record does to a request header being decoded.
pub open spec fn request_meta_apply(m: RequestMetaModel, r: WireRecord, budget: nat) -> Option<RequestMetaModel> {
    if r.tag == 1 {
        match as_str(r.value) {
            Some(v) => Some(RequestMetaModel { endpoint: v, ..m }),
            None => None,
        }
    } else if r.tag == 2 {
        match as_str(r.value) {
            Some(v) => Some(RequestMetaModel { app_key: v, ..m }),
            None => None,
        }
    } else if r.tag == 3 {
        match as_str(r.value) {
            Some(v) => Some(RequestMetaModel { app_id: v, ..m }),
            None => None,
        }
    } else if r.tag == 4 {
        match as_str(r.value) {
            Some(v) => Some(RequestMetaModel { resource_id: v, ..m }),
            None => None,
        }
    } else if r.tag == 5 {
        match as_str(r.value) {
            Some(v) => Some(RequestMetaModel { connection_id: v, ..m }),
            None => None,
        }
    } else if r.tag == 6 {
        match as_str(r.value) {
            Some(v) => Some(RequestMetaModel { session_id: v, ..m }),
            None => None,
        }
    } else if r.tag == 7 {
        match as_i32(r.value) {
            Some(v) => Some(RequestMetaModel { sequence: v, ..m }),
            None => None,
        }
    } else {
        Some(m)
    }
}

pub open spec fn request_meta_step(budget: nat) -> spec_fn(RequestMetaModel, WireRecord) -> Option<RequestMetaModel> {
    |m: RequestMetaModel, r: WireRecord| request_meta_apply(m, r, budget)
}

/// Decoding `bytes` into `m`: fields that `bytes` does not hold keep their value in `m`.
pub open spec fn request_meta_decode(m: RequestMetaModel, bytes: Seq<u8>, budget: nat) -> Option<RequestMetaModel>
    decreases budget,
{
    match parse_records(bytes, budget) {
        Some(rs) => fold_records(m, rs, request_meta_step(budget)),
        None => None,
    }
}

/// Every payload of the request header is short enough for a length varint.
pub open spec fn request_meta_fits(m: RequestMetaModel) -> bool {
    &&& str_fits(m.endpoint)
    &&& str_fits(m.app_key)
    &&& str_fits(m.app_id)
    &&& str_fits(m.resource_id)
    &&& str_fits(m.connection_id)
    &&& str_fits(m.session_id)
}

impl RequestMeta {
    /// The request header with every field at its default.
    pub fn empty() -> (m: Self)
        ensures
            m@ == request_meta_default(),
    {
        RequestMeta {
            endpoint: String::new(),
            app_key: String::new(),
            app_id: String::new(),
            resource_id: String::new(),
            connection_id: String::new(),
            session_id: String::new(),
            sequence: 0,
        }
    }

    /// The protobuf encoding of this request header.
    pub fn encode(&self) -> (out: Vec<u8>)
        ensures
            out@ == request_meta_bytes(self@),
    {
        let mut buf: Vec<u8> = Vec::new();
        emit_str(&mut buf, 1, &self.endpoint);
        emit_str(&mut buf, 2, &self.app_key);
        emit_str(&mut buf, 3, &self.app_id);
        emit_str(&mut buf, 4, &self.resource_id);
        emit_str(&mut buf, 5, &self.connection_id);
        emit_str(&mut buf, 6, &self.session_id);
        emit_i32(&mut buf, 7, self.sequence);
        proof {
            let m = self@;
            let a0 = str_field(1, m.endpoint);
            let a1 = str_field(2, m.app_key);
            let a2 = str_field(3, m.app_id);
            let a3 = str_field(4, m.resource_id);
            let a4 = str_field(5, m.connection_id);
            let a5 = str_field(6, m.session_id);
            let a6 = i32_field(7, m.sequence);
            lemma_encode_records_append(a0, a1);
            lemma_encode_records_append(a0 + a1, a2);
            lemma_encode_records_append(a0 + a1 + a2, a3);
            lemma_encode_records_append(a0 + a1 + a2 + a3, a4);
            lemma_encode_records_append(a0 + a1 + a2 + a3 + a4, a5);
            lemma_encode_records_append(a0 + a1 + a2 + a3 + a4 + a5, a6);
            assert(buf@ =~= request_meta_bytes(m));
        }
        buf
    }

    pub(crate) fn merge_from(m: RequestMeta, bytes: &[u8], budget: u32) -> (res: Option<RequestMeta>)
        ensures
            match request_meta_decode(m@, bytes@, budget as nat) {
                Some(x) => res matches Some(r) && r@ == x,
                None => res is None,
            },
        decreases budget,
    {
        let rs = match read_records(bytes, budget) {
            Some(rs) => rs,
            None => {
                return None;
            },
        };
        let ghost rv = records_view(rs@);
        let ghost step = request_meta_step(budget as nat);
        let mut cur = m;
        let mut i: usize = 0;
        assert(rv.skip(0) =~= rv);
        while i < rs.len()
            invariant
                i <= rs@.len(),
                rv == records_view(rs@),
                parse_records(bytes@, budget as nat) == Some(rv),
                step == request_meta_step(budget as nat),
                fold_records(m@, rv, step) == fold_records(cur@, rv.skip(i as int), step),
            decreases rs@.len() - i,
        {
            let r = &rs[i];
            proof {
                lemma_fold_step(cur@, rv, i as int, step);
                assert(rv[i as int] == r@);
                assert(step(cur@, r@) == request_meta_apply(cur@, r@, budget as nat));
            }
            if r.tag == 1 {
                match get_str(&r.value) {
                    Some(v) => cur.endpoint = v,
                    None => return None,
                }
            } else if r.tag == 2 {
                match get_str(&r.value) {
                    Some(v) => cur.app_key = v,
                    None => return None,
                }
            } else if r.tag == 3 {
                match get_str(&r.value) {
                    Some(v) => cur.app_id = v,
                    None => return None,
                }
            } else if r.tag == 4 {
                match get_str(&r.value) {
                    Some(v) => cur.resource_id = v,
                    None => return None,
                }
            } else if r.tag == 5 {
                match get_str(&r.value) {
                    Some(v) => cur.connection_id = v,
                    None => return None,
                }
            } else if r.tag == 6 {
                match get_str(&r.value) {
                    Some(v) => cur.session_id = v,
                    None => return None,
                }
            } else if r.tag == 7 {
                match get_i32(&r.value) {
                    Some(v) => cur.sequence = v,
                    None => return None,
                }
            }
            i += 1;
        }
        assert(rv.skip(i as int) =~= Seq::<WireRecord>::empty());
        Some(cur)
    }
}

/// Decoding the encoding of a request header gives it back.
pub proof fn lemma_request_meta_roundtrip(m: RequestMetaModel, budget: nat)
    requires
        request_meta_fits(m),
    ensures
        request_meta_decode(request_meta_default(), request_meta_bytes(m), budget) == Some(m),
    decreases budget,
{
    let a0 = str_field(1, m.endpoint);
    let a1 = str_field(2, m.app_key);
    let a2 = str_field(3, m.app_id);
    let a3 = str_field(4, m.resource_id);
    let a4 = str_field(5, m.connection_id);
    let a5 = str_field(6, m.session_id);
    let a6 = i32_field(7, m.sequence);
    let rs = request_meta_records(m);
    let step = request_meta_step(budget);
    let d = request_meta_default();
    assert(all_encodable(rs)) by {
        lemma_all_encodable_append(a0, a1);
        lemma_all_encodable_append(a0 + a1, a2);
        lemma_all_encodable_append(a0 + a1 + a2, a3);
        lemma_all_encodable_append(a0 + a1 + a2 + a3, a4);
        lemma_all_encodable_append(a0 + a1 + a2 + a3 + a4, a5);
        lemma_all_encodable_append(a0 + a1 + a2 + a3 + a4 + a5, a6);
    }
    lemma_records_roundtrip(rs, budget);
    lemma_str_field_roundtrip(1, m.endpoint);
    assert(m.endpoint.len() == 0 ==> m.endpoint =~= d.endpoint);
    lemma_str_field_roundtrip(2, m.app_key);
    assert(m.app_key.len() == 0 ==> m.app_key =~= d.app_key);
    lemma_str_field_roundtrip(3, m.app_id);
    assert(m.app_id.len() == 0 ==> m.app_id =~= d.app_id);
    lemma_str_field_roundtrip(4, m.resource_id);
    assert(m.resource_id.len() == 0 ==> m.resource_id =~= d.resource_id);
    lemma_str_field_roundtrip(5, m.connection_id);
    assert(m.connection_id.len() == 0 ==> m.connection_id =~= d.connection_id);
    lemma_str_field_roundtrip(6, m.session_id);
    assert(m.session_id.len() == 0 ==> m.session_id =~= d.session_id);
    lemma_i32_wire(m.sequence);
    lemma_fold_append(d, a0 + a1 + a2 + a3 + a4 + a5, a6, step);
    lemma_fold_append(d, a0 + a1 + a2 + a3 + a4, a5, step);
    lemma_fold_append(d, a0 + a1 + a2 + a3, a4, step);
    lemma_fold_append(d, a0 + a1 + a2, a3, step);
    lemma_fold_append(d, a0 + a1, a2, step);
    lemma_fold_append(d, a0, a1, step);
    let m0 = RequestMetaModel { endpoint: m.endpoint, ..d };
    lemma_fold_one(d, a0, step);
    assert(fold_records(d, a0, step) == Some(m0));
    let m1 = RequestMetaModel { app_key: m.app_key, ..m0 };
    lemma_fold_one(m0, a1, step);
    assert(fold_records(m0, a1, step) == Some(m1));
    let m2 = RequestMetaModel { app_id: m.app_id, ..m1 };
    lemma_fold_one(m1, a2, step);
    assert(fold_records(m1, a2, step) == Some(m2));
    let m3 = RequestMetaModel { resource_id: m.resource_id, ..m2 };
    lemma_fold_one(m2, a3, step);
    assert(fold_records(m2, a3, step) == Some(m3));
    let m4 = RequestMetaModel { connection_id: m.connection_id, ..m3 };
    lemma_fold_one(m3, a4, step);
    assert(fold_records(m3, a4, step) == Some(m4));
    let m5 = RequestMetaModel { session_id: m.session_id, ..m4 };
    lemma_fold_one(m4, a5, step);
    assert(fold_records(m4, a5, step) == Some(m5));
    lemma_fold_one(m5, a6, step);
    assert(fold_records(m5, a6, step) == Some(m));
}

// ---------------------------------------------------------------------------
// ResponseMeta

/// The header of a response. The billing record that the service may attach
/// (field 5) must be a well-formed message; its contents are not kept.
#[derive(Debug)]
pub struct ResponseMeta {
    pub session_id: String,
    pub sequence: i32,
    pub status_code: i32,
    pub message: String,
}

pub struct ResponseMetaModel {
    pub session_id: Seq<char>,
    pub sequence: i32,
    pub status_code: i32,
    pub message: Seq<char>,
}

impl View for ResponseMeta {
    type V = ResponseMetaModel;

    open spec fn view(&self) -> ResponseMetaModel {
        ResponseMetaModel {
            session_id: self.session_id@,
            sequence: self.sequence,
            status_code: self.status_code,
            message: self.message@,
        }
    }
}

pub open spec fn response_meta_default() -> ResponseMetaModel {
    ResponseMetaModel {
        session_id: Seq::empty(),
        sequence: 0,
        status_code: 0,
        message: Seq::empty(),
    }
}

/// The field records of a response header, in tag order.
pub open spec fn response_meta_records(m: ResponseMetaModel) -> Seq<WireRecord> {
    str_field(1, m.session_id)
    + i32_field(2, m.sequence)
    + i32_field(3, m.status_code)
    + str_field(4, m.message)
}

/// The encoding of a response header.
pub open spec fn response_meta_bytes(m: ResponseMetaModel) -> Seq<u8> {
    encode_records(response_meta_records(m))
}

/// What one field record does to a response header being decoded.
pub open spec fn response_meta_apply(m: ResponseMetaModel, r: WireRecord, budget: nat) -> Option<ResponseMetaModel> {
    if r.tag == 1 {
        match as_str(r.value) {
            Some(v) => Some(ResponseMetaModel { session_id: v, ..m }),
            None => None,
        }
    } else if r.tag == 2 {
        match as_i32(r.value) {
            Some(v) => Some(ResponseMetaModel { sequence: v, ..m }),
            None => None,
        }
    } else if r.tag == 3 {
        match as_i32(r.value) {
            Some(v) => Some(ResponseMetaModel { status_code: v, ..m }),
            None => None,
        }
    } else if r.tag == 4 {
        match as_str(r.value) {
            Some(v) => Some(ResponseMetaModel { message: v, ..m }),
            None => None,
        }
    } else if r.tag == 5 {
        match as_bytes(r.value) {
            Some(b) => if budget >= 1 && parse_records(b, (budget - 1) as nat) is Some {
                Some(m)
            } else {
                None
            },
            None => None,
        }
    } else {
        Some(m)
    }
}

pub open spec fn response_meta_step(budget: nat) -> spec_fn(ResponseMetaModel, WireRecord) -> Option<ResponseMetaModel> {
    |m: ResponseMetaModel, r: WireRecord| response_meta_apply(m, r, budget)
}

/// Decoding `bytes` into `m`: fields that `bytes` does not hold keep their value in `m`.
pub open spec fn response_meta_decode(m: ResponseMetaModel, bytes: Seq<u8>, budget: nat) -> Option<ResponseMetaModel>
    decreases budget,
{
    match parse_records(bytes, budget) {
        Some(rs) => fold_records(m, rs, response_meta_step(budget)),
        None => None,
    }
}

/// Every payload of the response header is short enough for a length varint.
pub open spec fn response_meta_fits(m: ResponseMetaModel) -> bool {
    &&& str_fits(m.session_id)
    &&& str_fits(m.message)
}

impl ResponseMeta {
    /// The response header with every field at its default.
    pub fn empty() -> (m: Self)
        ensures
            m@ == response_meta_default(),
    {
        ResponseMeta {
            session_id: String::new(),
            sequence: 0,
            status_code: 0,
            message: String::new(),
        }
    }

    /// The protobuf encoding of this response header.
    pub fn encode(&self) -> (out: Vec<u8>)
        ensures
            out@ == response_meta_bytes(self@),
    {
        let mut buf: Vec<u8> = Vec::new();
        emit_str(&mut buf, 1, &self.session_id);
        emit_i32(&mut buf, 2, self.sequence);
        emit_i32(&mut buf, 3, self.status_code);
        emit_str(&mut buf, 4, &self.message);
        proof {
            let m = self@;
            let a0 = str_field(1, m.session_id);
            let a1 = i32_field(2, m.sequence);
            let a2 = i32_field(3, m.status_code);
            let a3 = str_field(4, m.message);
            lemma_encode_records_append(a0, a1);
            lemma_encode_records_append(a0 + a1, a2);
            lemma_encode_records_append(a0 + a1 + a2, a3);
            assert(buf@ =~= response_meta_bytes(m));
        }
        buf
    }

    pub(crate) fn merge_from(m: ResponseMeta, bytes: &[u8], budget: u32) -> (res: Option<ResponseMeta>)
        ensures
            match response_meta_decode(m@, bytes@, budget as nat) {
                Some(x) => res matches Some(r) && r@ == x,
                None => res is None,
            },
        decreases budget,
    {
        let rs = match read_records(bytes, budget) {
            Some(rs) => rs,
            None => {
                return None;
            },
        };
        let ghost rv = records_view(rs@);
        let ghost step = response_meta_step(budget as nat);
        let mut cur = m;
        let mut i: usize = 0;
        assert(rv.skip(0) =~= rv);
        while i < rs.len()
            invariant
                i <= rs@.len(),
                rv == records_view(rs@),
                parse_records(bytes@, budget as nat) == Some(rv),
                step == response_meta_step(budget as nat),
                fold_records(m@, rv, step) == fold_records(cur@, rv.skip(i as int), step),
            decreases rs@.len() - i,
        {
            let r = &rs[i];
            proof {
                lemma_fold_step(cur@, rv, i as int, step);
                assert(rv[i as int] == r@);
                assert(step(cur@, r@) == response_meta_apply(cur@, r@, budget as nat));
            }
            if r.tag == 1 {
                match get_str(&r.value) {
                    Some(v) => cur.session_id = v,
                    None => return None,
                }
            } else if r.tag == 2 {
                match get_i32(&r.value) {
                    Some(v) => cur.sequence = v,
                    None => return None,
                }
            } else if r.tag == 3 {
                match get_i32(&r.value) {
                    Some(v) => cur.status_code = v,
                    None => return None,
                }
            } else if r.tag == 4 {
                match get_str(&r.value) {
                    Some(v) => cur.message = v,
                    None => return None,
                }
            } else if r.tag == 5 {
                match get_bytes(&r.value) {
                    Some(b) => {
                        if budget == 0 {
                            return None;
                        }
                        if read_records(b.as_slice(), budget - 1).is_none() {
                            return None;
                        }
                    },
                    None => return None,
                }
            }
            i += 1;
        }
        assert(rv.skip(i as int) =~= Seq::<WireRecord>::empty());
        Some(cur)
    }
}

/// Decoding the encoding of a response header gives it back.
pub proof fn lemma_response_meta_roundtrip(m: ResponseMetaModel, budget: nat)
    requires
        response_meta_fits(m),
    ensures
        response_meta_decode(response_meta_default(), response_meta_bytes(m), budget) == Some(m),
    decreases budget,
{
    let a0 = str_field(1, m.session_id);
    let a1 = i32_field(2, m.sequence);
    let a2 = i32_field(3, m.status_code);
    let a3 = str_field(4, m.message);
    let rs = response_meta_records(m);
    let step = response_meta_step(budget);
    let d = response_meta_default();
    assert(all_encodable(rs)) by {
        lemma_all_encodable_append(a0, a1);
        lemma_all_encodable_append(a0 + a1, a2);
        lemma_all_encodable_append(a0 + a1 + a2, a3);
    }
    lemma_records_roundtrip(rs, budget);
    lemma_str_field_roundtrip(1, m.session_id);
    assert(m.session_id.len() == 0 ==> m.session_id =~= d.session_id);
    lemma_i32_wire(m.sequence);
    lemma_i32_wire(m.status_code);
    lemma_str_field_roundtrip(4, m.message);
    assert(m.message.len() == 0 ==> m.message =~= d.message);
    lemma_fold_append(d, a0 + a1 + a2, a3, step);
    lemma_fold_append(d, a0 + a1, a2, step);
    lemma_fold_append(d, a0, a1, step);
    let m0 = ResponseMetaModel { session_id: m.session_id, ..d };
    lemma_fold_one(d, a0, step);
    assert(fold_records(d, a0, step) == Some(m0));
    let m1 = ResponseMetaModel { sequence: m.sequence, ..m0 };
    lemma_fold_one(m0, a1, step);
    assert(fold_records(m0, a1, step) == Some(m1));
    let m2 = ResponseMetaModel { status_code: m.status_code, ..m1 };
    lemma_fold_one(m1, a2, step);
    assert(fold_records(m1, a2, step) == Some(m2));
    lemma_fold_one(m2, a3, step);
    assert(fold_records(m2, a3, step) == Some(m));
}

// ---------------------------------------------------------------------------
// User

#[derive(Debug)]
pub struct User {
    pub uid: String,
    pub did: String,
    pub platform: String,
    pub sdk_version: String,
    pub app_version: String,
}

pub struct UserModel {
    pub uid: Seq<char>,
    pub did: Seq<char>,
    pub platform: Seq<char>,
    pub sdk_version: Seq<char>,
    pub app_version: Seq<char>,
}

impl View for User {
    type V = UserModel;

    open spec fn view(&self) -> UserModel {
        UserModel {
            uid: self.uid@,
            did: self.did@,
            platform: self.platform@,
            sdk_version: self.sdk_version@,
            app_version: self.app_version@,
        }
    }
}

pub open spec fn user_default() -> UserModel {
    UserModel {
        uid: Seq::empty(),
        did: Seq::empty(),
        platform: Seq::empty(),
        sdk_version: Seq::empty(),
        app_version: Seq::empty(),
    }
}

/// The field records of a client description, in tag order.
pub open spec fn user_records(m: UserModel) -> Seq<WireRecord> {
    str_field(1, m.uid)
    + str_field(2, m.did)
    + str_field(3, m.platform)
    + str_field(4, m.sdk_version)
    + str_field(5, m.app_version)
}

/// The encoding of a client description.
pub open spec fn user_bytes(m: UserModel) -> Seq<u8> {
    encode_records(user_records(m))
}

/// What one field record does to a client description being decoded.
pub open spec fn user_apply(m: UserModel, r: WireRecord, budget: nat) -> Option<UserModel> {
    if r.tag == 1 {
        match as_str(r.value) {
            Some(v) => Some(UserModel { uid: v, ..m }),
            None => None,
        }
    } else if r.tag == 2 {
        match as_str(r.value) {
            Some(v) => Some(UserModel { did: v, ..m }),
            None => None,
        }
    } else if r.tag == 3 {
        match as_str(r.value) {
            Some(v) => Some(UserModel { platform: v, ..m }),
            None => None,
        }
    } else if r.tag == 4 {
        match as_str(r.value) {
            Some(v) => Some(UserModel { sdk_version: v, ..m }),
            None => None,
        }
    } else if r.tag == 5 {
        match as_str(r.value) {
            Some(v) => Some(UserModel { app_version: v, ..m }),
            None => None,
        }
    } else {
        Some(m)
    }
}

pub open spec fn user_step(budget: nat) -> spec_fn(UserModel, WireRecord) -> Option<UserModel> {
    |m: UserModel, r: WireRecord| user_apply(m, r, budget)
}

/// Decoding `bytes` into `m`: fields that `bytes` does not hold keep their value in `m`.
pub open spec fn user_decode(m: UserModel, bytes: Seq<u8>, budget: nat) -> Option<UserModel>
    decreases budget,
{
    match parse_records(bytes, budget) {
        Some(rs) => fold_records(m, rs, user_step(budget)),
        None => None,
    }
}

/// Every payload of the client description is short enough for a length varint.
pub open spec fn user_fits(m: UserModel) -> bool {
    &&& str_fits(m.uid)
    &&& str_fits(m.did)
    &&& str_fits(m.platform)
    &&& str_fits(m.sdk_version)
    &&& str_fits(m.app_version)
}

impl User {
    /// The client description with every field at its default.
    pub fn empty() -> (m: Self)
        ensures
            m@ == user_default(),
    {
        User {
            uid: String::new(),
            did: String::new(),
            platform: String::new(),
            sdk_version: String::new(),
            app_version: String::new(),
        }
    }

    /// The protobuf encoding of this client description.
    pub fn encode(&self) -> (out: Vec<u8>)
        ensures
            out@ == user_bytes(self@),
    {
        let mut buf: Vec<u8> = Vec::new();
        emit_str(&mut buf, 1, &self.uid);
        emit_str(&mut buf, 2, &self.did);
        emit_str(&mut buf, 3, &self.platform);
        emit_str(&mut buf, 4, &self.sdk_version);
        emit_str(&mut buf, 5, &self.app_version);
        proof {
            let m = self@;
            let a0 = str_field(1, m.uid);
            let a1 = str_field(2, m.did);
            let a2 = str_field(3, m.platform);
            let a3 = str_field(4, m.sdk_version);
            let a4 = str_field(5, m.app_version);
            lemma_encode_records_append(a0, a1);
            lemma_encode_records_append(a0 + a1, a2);
            lemma_encode_records_append(a0 + a1 + a2, a3);
            lemma_encode_records_append(a0 + a1 + a2 + a3, a4);
            assert(buf@ =~= user_bytes(m));
        }
        buf
    }

    pub(crate) fn merge_from(m: User, bytes: &[u8], budget: u32) -> (res: Option<User>)
        ensures
            match user_decode(m@, bytes@, budget as nat) {
                Some(x) => res matches Some(r) && r@ == x,
                None => res is None,
            },
        decreases budget,
    {
        let rs = match read_records(bytes, budget) {
            Some(rs) => rs,
            None => {
                return None;
            },
        };
        let ghost rv = records_view(rs@);
        let ghost step = user_step(budget as nat);
        let mut cur = m;
        let mut i: usize = 0;
        assert(rv.skip(0) =~= rv);
        while i < rs.len()
            invariant
                i <= rs@.len(),
                rv == records_view(rs@),
                parse_records(bytes@, budget as nat) == Some(rv),
                step == user_step(budget as nat),
                fold_records(m@, rv, step) == fold_records(cur@, rv.skip(i as int), step),
            decreases rs@.len() - i,
        {
            let r = &rs[i];
            proof {
                lemma_fold_step(cur@, rv, i as int, step);
                assert(rv[i as int] == r@);
                assert(step(cur@, r@) == user_apply(cur@, r@, budget as nat));
            }
            if r.tag == 1 {
                match get_str(&r.value) {
                    Some(v) => cur.uid = v,
                    None => return None,
                }
            } else if r.tag == 2 {
                match get_str(&r.value) {
                    Some(v) => cur.did = v,
                    None => return None,
                }
            } else if r.tag == 3 {
                match get_str(&r.value) {
                    Some(v) => cur.platform = v,
                    None => return None,
                }
            } else if r.tag == 4 {
                match get_str(&r.value) {
                    Some(v) => cur.sdk_version = v,
                    None => return None,
                }
            } else if r.tag == 5 {
                match get_str(&r.value) {
                    Some(v) => cur.app_version = v,
                    None => return None,
                }
            }
            i += 1;
        }
        assert(rv.skip(i as int) =~= Seq::<WireRecord>::empty());
        Some(cur)
    }
}

/// Decoding the encoding of a client description gives it back.
pub proof fn lemma_user_roundtrip(m: UserModel, budget: nat)
    requires
        user_fits(m),
    ensures
        user_decode(user_default(), user_bytes(m), budget) == Some(m),
    decreases budget,
{
    let a0 = str_field(1, m.uid);
    let a1 = str_field(2, m.did);
    let a2 = str_field(3, m.platform);
    let a3 = str_field(4, m.sdk_version);
    let a4 = str_field(5, m.app_version);
    let rs = user_records(m);
    let step = user_step(budget);
    let d = user_default();
    assert(all_encodable(rs)) by {
        lemma_all_encodable_append(a0, a1);
        lemma_all_encodable_append(a0 + a1, a2);
        lemma_all_encodable_append(a0 + a1 + a2, a3);
        lemma_all_encodable_append(a0 + a1 + a2 + a3, a4);
    }
    lemma_records_roundtrip(rs, budget);
    lemma_str_field_roundtrip(1, m.uid);
    assert(m.uid.len() == 0 ==> m.uid =~= d.uid);
    lemma_str_field_roundtrip(2, m.did);
    assert(m.did.len() == 0 ==> m.did =~= d.did);
    lemma_str_field_roundtrip(3, m.platform);
    assert(m.platform.len() == 0 ==> m.platform =~= d.platform);
    lemma_str_field_roundtrip(4, m.sdk_version);
    assert(m.sdk_version.len() == 0 ==> m.sdk_version =~= d.sdk_version);
    lemma_str_field_roundtrip(5, m.app_version);
    assert(m.app_version.len() == 0 ==> m.app_version =~= d.app_version);
    lemma_fold_append(d, a0 + a1 + a2 + a3, a4, step);
    lemma_fold_append(d, a0 + a1 + a2, a3, step);
    lemma_fold_append(d, a0 + a1, a2, step);
    lemma_fold_append(d, a0, a1, step);
    let m0 = UserModel { uid: m.uid, ..d };
    lemma_fold_one(d, a0, step);
    assert(fold_records(d, a0, step) == Some(m0));
    let m1 = UserModel { did: m.did, ..m0 };
    lemma_fold_one(m0, a1, step);
    assert(fold_records(m0, a1, step) == Some(m1));
    let m2 = UserModel { platform: m.platform, ..m1 };
    lemma_fold_one(m1, a2, step);
    assert(fold_records(m1, a2, step) == Some(m2));
    let m3 = UserModel { sdk_version: m.sdk_version, ..m2 };
    lemma_fold_one(m2, a3, step);
    assert(fold_records(m2, a3, step) == Some(m3));
    lemma_fold_one(m3, a4, step);
    assert(fold_records(m3, a4, step) == Some(m));
}

// ---------------------------------------------------------------------------
// Audio

#[derive(Debug)]
pub struct Audio {
    pub data: String,
    pub url: String,
    pub url_type: String,
    pub format: String,
    pub codec: String,
    pub language: String,
    pub rate: i32,
    pub bits: i32,
    pub channel: i32,
    pub binary_data: Vec<u8>,
    pub tos_bucket: String,
    pub tos_access_key: String,
    pub audio_tos_object: String,
    pub role_trn: String,
}

pub struct AudioModel {
    pub data: Seq<char>,
    pub url: Seq<char>,
    pub url_type: Seq<char>,
    pub format: Seq<char>,
    pub codec: Seq<char>,
    pub language: Seq<char>,
    pub rate: i32,
    pub bits: i32,
    pub channel: i32,
    pub binary_data: Seq<u8>,
    pub tos_bucket: Seq<char>,
    pub tos_access_key: Seq<char>,
    pub audio_tos_object: Seq<char>,
    pub role_trn: Seq<char>,
}

impl View for Audio {
    type V = AudioModel;

    open spec fn view(&self) -> AudioModel {
        AudioModel {
            data: self.data@,
            url: self.url@,
            url_type: self.url_type@,
            format: self.format@,
            codec: self.codec@,
            language: self.language@,
            rate: self.rate,
            bits: self.bits,
            channel: self.channel,
            binary_data: self.binary_data@,
            tos_bucket: self.tos_bucket@,
            tos_access_key: self.tos_access_key@,
            audio_tos_object: self.audio_tos_object@,
            role_trn: self.role_trn@,
        }
    }
}

pub open spec fn audio_default() -> AudioModel {
    AudioModel {
        data: Seq::empty(),
        url: Seq::empty(),
        url_type: Seq::empty(),
        format: Seq::empty(),
        codec: Seq::empty(),
        language: Seq::empty(),
        rate: 0,
        bits: 0,
        channel: 0,
        binary_data: Seq::empty(),
        tos_bucket: Seq::empty(),
        tos_access_key: Seq::empty(),
        audio_tos_object: Seq::empty(),
        role_trn: Seq::empty(),
    }
}

/// The field records of a audio description, in tag order.
pub open spec fn audio_records(m: AudioModel) -> Seq<WireRecord> {
    str_field(1, m.data)
    + str_field(2, m.url)
    + str_field(3, m.url_type)
    + str_field(4, m.format)
    + str_field(5, m.codec)
    + str_field(6, m.language)
    + i32_field(7, m.rate)
    + i32_field(8, m.bits)
    + i32_field(9, m.channel)
    + bytes_field(10, m.binary_data)
    + str_field(11, m.tos_bucket)
    + str_field(12, m.tos_access_key)
    + str_field(13, m.audio_tos_object)
    + str_field(14, m.role_trn)
}

/// The encoding of a audio description.
pub open spec fn audio_bytes(m: AudioModel) -> Seq<u8> {
    encode_records(audio_records(m))
}

/// What one field record does to a audio description being decoded.
pub open spec fn audio_apply(m: AudioModel, r: WireRecord, budget: nat) -> Option<AudioModel> {
    if r.tag == 1 {
        match as_str(r.value) {
            Some(v) => Some(AudioModel { data: v, ..m }),
            None => None,
        }
    } else if r.tag == 2 {
        match as_str(r.value) {
            Some(v) => Some(AudioModel { url: v, ..m }),
            None => None,
        }
    } else if r.tag == 3 {
        match as_str(r.value) {
            Some(v) => Some(AudioModel { url_type: v, ..m }),
            None => None,
        }
    } else if r.tag == 4 {
        match as_str(r.value) {
            Some(v) => Some(AudioModel { format: v, ..m }),
            None => None,
        }
    } else if r.tag == 5 {
        match as_str(r.value) {
            Some(v) => Some(AudioModel { codec: v, ..m }),
            None => None,
        }
    } else if r.tag == 6 {
        match as_str(r.value) {
            Some(v) => Some(AudioModel { language: v, ..m }),
            None => None,
        }
    } else if r.tag == 7 {
        match as_i32(r.value) {
            Some(v) => Some(AudioModel { rate: v, ..m }),
            None => None,
        }
    } else if r.tag == 8 {
        match as_i32(r.value) {
            Some(v) => Some(AudioModel { bits: v, ..m }),
            None => None,
        }
    } else if r.tag == 9 {
        match as_i32(r.value) {
            Some(v) => Some(AudioModel { channel: v, ..m }),
            None => None,
        }
    } else if r.tag == 10 {
        match as_bytes(r.value) {
            Some(v) => Some(AudioModel { binary_data: v, ..m }),
            None => None,
        }
    } else if r.tag == 11 {
        match as_str(r.value) {
            Some(v) => Some(AudioModel { tos_bucket: v, ..m }),
            None => None,
        }
    } else if r.tag == 12 {
        match as_str(r.value) {
            Some(v) => Some(AudioModel { tos_access_key: v, ..m }),
            None => None,
        }
    } else if r.tag == 13 {
        match as_str(r.value) {
            Some(v) => Some(AudioModel { audio_tos_object: v, ..m }),
            None => None,
        }
    } else if r.tag == 14 {
        match as_str(r.value) {
            Some(v) => Some(AudioModel { role_trn: v, ..m }),
            None => None,
        }
    } else {
        Some(m)
    }
}

pub open spec fn audio_step(budget: nat) -> spec_fn(AudioModel, WireRecord) -> Option<AudioModel> {
    |m: AudioModel, r: WireRecord| audio_apply(m, r, budget)
}

/// Decoding `bytes` into `m`: fields that `bytes` does not hold keep their value in `m`.
pub open spec fn audio_decode(m: AudioModel, bytes: Seq<u8>, budget: nat) -> Option<AudioModel>
    decreases budget,
{
    match parse_records(bytes, budget) {
        Some(rs) => fold_records(m, rs, audio_step(budget)),
        None => None,
    }
}

/// Every payload of the audio description is short enough for a length varint.
pub open spec fn audio_fits(m: AudioModel) -> bool {
    &&& str_fits(m.data)
    &&& str_fits(m.url)
    &&& str_fits(m.url_type)
    &&& str_fits(m.format)
    &&& str_fits(m.codec)
    &&& str_fits(m.language)
    &&& m.binary_data.len() < 0x1_0000_0000_0000_0000
    &&& str_fits(m.tos_bucket)
    &&& str_fits(m.tos_access_key)
    &&& str_fits(m.audio_tos_object)
    &&& str_fits(m.role_trn)
}

impl Audio {
    /// The audio description with every field at its default.
    pub fn empty() -> (m: Self)
        ensures
            m@ == audio_default(),
    {
        Audio {
            data: String::new(),
            url: String::new(),
            url_type: String::new(),
            format: String::new(),
            codec: String::new(),
            language: String::new(),
            rate: 0,
            bits: 0,
            channel: 0,
            binary_data: Vec::new(),
            tos_bucket: String::new(),
            tos_access_key: String::new(),
            audio_tos_object: String::new(),
            role_trn: String::new(),
        }
    }

    /// The protobuf encoding of this audio description.
    pub fn encode(&self) -> (out: Vec<u8>)
        ensures
            out@ == audio_bytes(self@),
    {
        let mut buf: Vec<u8> = Vec::new();
        emit_str(&mut buf, 1, &self.data);
        emit_str(&mut buf, 2, &self.url);
        emit_str(&mut buf, 3, &self.url_type);
        emit_str(&mut buf, 4, &self.format);
        emit_str(&mut buf, 5, &self.codec);
        emit_str(&mut buf, 6, &self.language);
        emit_i32(&mut buf, 7, self.rate);
        emit_i32(&mut buf, 8, self.bits);
        emit_i32(&mut buf, 9, self.channel);
        emit_bytes(&mut buf, 10, &self.binary_data);
        emit_str(&mut buf, 11, &self.tos_bucket);
        emit_str(&mut buf, 12, &self.tos_access_key);
        emit_str(&mut buf, 13, &self.audio_tos_object);
        emit_str(&mut buf, 14, &self.role_trn);
        proof {
            let m = self@;
            let a0 = str_field(1, m.data);
            let a1 = str_field(2, m.url);
            let a2 = str_field(3, m.url_type);
            let a3 = str_field(4, m.format);
            let a4 = str_field(5, m.codec);
            let a5 = str_field(6, m.language);
            let a6 = i32_field(7, m.rate);
            let a7 = i32_field(8, m.bits);
            let a8 = i32_field(9, m.channel);
            let a9 = bytes_field(10, m.binary_data);
            let a10 = str_field(11, m.tos_bucket);
            let a11 = str_field(12, m.tos_access_key);
            let a12 = str_field(13, m.audio_tos_object);
            let a13 = str_field(14, m.role_trn);
            lemma_encode_records_append(a0, a1);
            lemma_encode_records_append(a0 + a1, a2);
            lemma_encode_records_append(a0 + a1 + a2, a3);
            lemma_encode_records_append(a0 + a1 + a2 + a3, a4);
            lemma_encode_records_append(a0 + a1 + a2 + a3 + a4, a5);
            lemma_encode_records_append(a0 + a1 + a2 + a3 + a4 + a5, a6);
            lemma_encode_records_append(a0 + a1 + a2 + a3 + a4 + a5 + a6, a7);
            lemma_encode_records_append(a0 + a1 + a2 + a3 + a4 + a5 + a6 + a7, a8);
            lemma_encode_records_append(a0 + a1 + a2 + a3 + a4 + a5 + a6 + a7 + a8, a9);
            lemma_encode_records_append(a0 + a1 + a2 + a3 + a4 + a5 + a6 + a7 + a8 + a9, a10);
            lemma_encode_records_append(a0 + a1 + a2 + a3 + a4 + a5 + a6 + a7 + a8 + a9 + a10, a11);
            lemma_encode_records_append(a0 + a1 + a2 + a3 + a4 + a5 + a6 + a7 + a8 + a9 + a10 + a11, a12);
            lemma_encode_records_append(a0 + a1 + a2 + a3 + a4 + a5 + a6 + a7 + a8 + a9 + a10 + a11 + a12, a13);
            assert(buf@ =~= audio_bytes(m));
        }
        buf
    }

    pub(crate) fn merge_from(m: Audio, bytes: &[u8], budget: u32) -> (res: Option<Audio>)
        ensures
            match audio_decode(m@, bytes@, budget as nat) {
                Some(x) => res matches Some(r) && r@ == x,
                None => res is None,
            },
        decreases budget,
    {
        let rs = match read_records(bytes, budget) {
            Some(rs) => rs,
            None => {
                return None;
            },
        };
        let ghost rv = records_view(rs@);
        let ghost step = audio_step(budget as nat);
        let mut cur = m;
        let mut i: usize = 0;
        assert(rv.skip(0) =~= rv);
        while i < rs.len()
            invariant
                i <= rs@.len(),
                rv == records_view(rs@),
                parse_records(bytes@, budget as nat) == Some(rv),
                step == audio_step(budget as nat),
                fold_records(m@, rv, step) == fold_records(cur@, rv.skip(i as int), step),
            decreases rs@.len() - i,
        {
            let r = &rs[i];
            proof {
                lemma_fold_step(cur@, rv, i as int, step);
                assert(rv[i as int] == r@);
                assert(step(cur@, r@) == audio_apply(cur@, r@, budget as nat));
            }
            if r.tag == 1 {
                match get_str(&r.value) {
                    Some(v) => cur.data = v,
                    None => return None,
                }
            } else if r.tag == 2 {
                match get_str(&r.value) {
                    Some(v) => cur.url = v,
                    None => return None,
                }
            } else if r.tag == 3 {
                match get_str(&r.value) {
                    Some(v) => cur.url_type = v,
                    None => return None,
                }
            } else if r.tag == 4 {
                match get_str(&r.value) {
                    Some(v) => cur.format = v,
                    None => return None,
                }
            } else if r.tag == 5 {
                match get_str(&r.value) {
                    Some(v) => cur.codec = v,
                    None => return None,
                }
            } else if r.tag == 6 {
                match get_str(&r.value) {
                    Some(v) => cur.language = v,
                    None => return None,
                }
            } else if r.tag == 7 {
                match get_i32(&r.value) {
                    Some(v) => cur.rate = v,
                    None => return None,
                }
            } else if r.tag == 8 {
                match get_i32(&r.value) {
                    Some(v) => cur.bits = v,
                    None => return None,
                }
            } else if r.tag == 9 {
                match get_i32(&r.value) {
                    Some(v) => cur.channel = v,
                    None => return None,
                }
            } else if r.tag == 10 {
                match get_bytes(&r.value) {
                    Some(v) => cur.binary_data = v,
                    None => return None,
                }
            } else if r.tag == 11 {
                match get_str(&r.value) {
                    Some(v) => cur.tos_bucket = v,
                    None => return None,
                }
            } else if r.tag == 12 {
                match get_str(&r.value) {
                    Some(v) => cur.tos_access_key = v,
                    None => return None,
                }
            } else if r.tag == 13 {
                match get_str(&r.value) {
                    Some(v) => cur.audio_tos_object = v,
                    None => return None,
                }
            } else if r.tag == 14 {
                match get_str(&r.value) {
                    Some(v) => cur.role_trn = v,
                    None => return None,
                }
            }
            i += 1;
        }
        assert(rv.skip(i as int) =~= Seq::<WireRecord>::empty());
        Some(cur)
    }
}

/// Decoding the encoding of a audio description gives it back.
#[verifier::rlimit(100)]
pub proof fn lemma_audio_roundtrip(m: AudioModel, budget: nat)
    requires
        audio_fits(m),
    ensures
        audio_decode(audio_default(), audio_bytes(m), budget) == Some(m),
    decreases budget,
{
    let a0 = str_field(1, m.data);
    let a1 = str_field(2, m.url);
    let a2 = str_field(3, m.url_type);
    let a3 = str_field(4, m.format);
    let a4 = str_field(5, m.codec);
    let a5 = str_field(6, m.language);
    let a6 = i32_field(7, m.rate);
    let a7 = i32_field(8, m.bits);
    let a8 = i32_field(9, m.channel);
    let a9 = bytes_field(10, m.binary_data);
    let a10 = str_field(11, m.tos_bucket);
    let a11 = str_field(12, m.tos_access_key);
    let a12 = str_field(13, m.audio_tos_object);
    let a13 = str_field(14, m.role_trn);
    let rs = audio_records(m);
    let step = audio_step(budget);
    let d = audio_default();
    assert(all_encodable(rs)) by {
        lemma_all_encodable_append(a0, a1);
        lemma_all_encodable_append(a0 + a1, a2);
        lemma_all_encodable_append(a0 + a1 + a2, a3);
        lemma_all_encodable_append(a0 + a1 + a2 + a3, a4);
        lemma_all_encodable_append(a0 + a1 + a2 + a3 + a4, a5);
        lemma_all_encodable_append(a0 + a1 + a2 + a3 + a4 + a5, a6);
        lemma_all_encodable_append(a0 + a1 + a2 + a3 + a4 + a5 + a6, a7);
        lemma_all_encodable_append(a0 + a1 + a2 + a3 + a4 + a5 + a6 + a7, a8);
        lemma_all_encodable_append(a0 + a1 + a2 + a3 + a4 + a5 + a6 + a7 + a8, a9);
        lemma_all_encodable_append(a0 + a1 + a2 + a3 + a4 + a5 + a6 + a7 + a8 + a9, a10);
        lemma_all_encodable_append(a0 + a1 + a2 + a3 + a4 + a5 + a6 + a7 + a8 + a9 + a10, a11);
        lemma_all_encodable_append(a0 + a1 + a2 + a3 + a4 + a5 + a6 + a7 + a8 + a9 + a10 + a11, a12);
        lemma_all_encodable_append(a0 + a1 + a2 + a3 + a4 + a5 + a6 + a7 + a8 + a9 + a10 + a11 + a12, a13);
    }
    lemma_records_roundtrip(rs, budget);
    lemma_str_field_roundtrip(1, m.data);
    assert(m.data.len() == 0 ==> m.data =~= d.data);
    lemma_str_field_roundtrip(2, m.url);
    assert(m.url.len() == 0 ==> m.url =~= d.url);
    lemma_str_field_roundtrip(3, m.url_type);
    assert(m.url_type.len() == 0 ==> m.url_type =~= d.url_type);
    lemma_str_field_roundtrip(4, m.format);
    assert(m.format.len() == 0 ==> m.format =~= d.format);
    lemma_str_field_roundtrip(5, m.codec);
    assert(m.codec.len() == 0 ==> m.codec =~= d.codec);
    lemma_str_field_roundtrip(6, m.language);
    assert(m.language.len() == 0 ==> m.language =~= d.language);
    lemma_i32_wire(m.rate);
    lemma_i32_wire(m.bits);
    lemma_i32_wire(m.channel);
    assert(m.binary_data.len() == 0 ==> m.binary_data =~= d.binary_data);
    lemma_str_field_roundtrip(11, m.tos_bucket);
    assert(m.tos_bucket.len() == 0 ==> m.tos_bucket =~= d.tos_bucket);
    lemma_str_field_roundtrip(12, m.tos_access_key);
    assert(m.tos_access_key.len() == 0 ==> m.tos_access_key =~= d.tos_access_key);
    lemma_str_field_roundtrip(13, m.audio_tos_object);
    assert(m.audio_tos_object.len() == 0 ==> m.audio_tos_object =~= d.audio_tos_object);
    lemma_str_field_roundtrip(14, m.role_trn);
    assert(m.role_trn.len() == 0 ==> m.role_trn =~= d.role_trn);
    lemma_fold_append(d, a0 + a1 + a2 + a3 + a4 + a5 + a6 + a7 + a8 + a9 + a10 + a11 + a12, a13, step);
    lemma_fold_append(d, a0 + a1 + a2 + a3 + a4 + a5 + a6 + a7 + a8 + a9 + a10 + a11, a12, step);
    lemma_fold_append(d, a0 + a1 + a2 + a3 + a4 + a5 + a6 + a7 + a8 + a9 + a10, a11, step);
    lemma_fold_append(d, a0 + a1 + a2 + a3 + a4 + a5 + a6 + a7 + a8 + a9, a10, step);
    lemma_fold_append(d, a0 + a1 + a2 + a3 + a4 + a5 + a6 + a7 + a8, a9, step);
    lemma_fold_append(d, a0 + a1 + a2 + a3 + a4 + a5 + a6 + a7, a8, step);
    lemma_fold_append(d, a0 + a1 + a2 + a3 + a4 + a5 + a6, a7, step);
    lemma_fold_append(d, a0 + a1 + a2 + a3 + a4 + a5, a6, step);
    lemma_fold_append(d, a0 + a1 + a2 + a3 + a4, a5, step);
    lemma_fold_append(d, a0 + a1 + a2 + a3, a4, step);
    lemma_fold_append(d, a0 + a1 + a2, a3, step);
    lemma_fold_append(d, a0 + a1, a2, step);
    lemma_fold_append(d, a0, a1, step);
    let m0 = AudioModel { data: m.data, ..d };
    lemma_fold_one(d, a0, step);
    assert(fold_records(d, a0, step) == Some(m0));
    let m1 = AudioModel { url: m.url, ..m0 };
    lemma_fold_one(m0, a1, step);
    assert(fold_records(m0, a1, step) == Some(m1));
    let m2 = AudioModel { url_type: m.url_type, ..m1 };
    lemma_fold_one(m1, a2, step);
    assert(fold_records(m1, a2, step) == Some(m2));
    let m3 = AudioModel { format: m.format, ..m2 };
    lemma_fold_one(m2, a3, step);
    assert(fold_records(m2, a3, step) == Some(m3));
    let m4 = AudioModel { codec: m.codec, ..m3 };
    lemma_fold_one(m3, a4, step);
    assert(fold_records(m3, a4, step) == Some(m4));
    let m5 = AudioModel { language: m.language, ..m4 };
    lemma_fold_one(m4, a5, step);
    assert(fold_records(m4, a5, step) == Some(m5));
    let m6 = AudioModel { rate: m.rate, ..m5 };
    lemma_fold_one(m5, a6, step);
    assert(fold_records(m5, a6, step) == Some(m6));
    let m7 = AudioModel { bits: m.bits, ..m6 };
    lemma_fold_one(m6, a7, step);
    assert(fold_records(m6, a7, step) == Some(m7));
    let m8 = AudioModel { channel: m.channel, ..m7 };
    lemma_fold_one(m7, a8, step);
    assert(fold_records(m7, a8, step) == Some(m8));
    let m9 = AudioModel { binary_data: m.binary_data, ..m8 };
    lemma_fold_one(m8, a9, step);
    assert(fold_records(m8, a9, step) == Some(m9));
    let m10 = AudioModel { tos_bucket: m.tos_bucket, ..m9 };
    lemma_fold_one(m9, a10, step);
    assert(fold_records(m9, a10, step) == Some(m10));
    let m11 = AudioModel { tos_access_key: m.tos_access_key, ..m10 };
    lemma_fold_one(m10, a11, step);
    assert(fold_records(m10, a11, step) == Some(m11));
    let m12 = AudioModel { audio_tos_object: m.audio_tos_object, ..m11 };
    lemma_fold_one(m11, a12, step);
    assert(fold_records(m11, a12, step) == Some(m12));
    lemma_fold_one(m12, a13, step);
    assert(fold_records(m12, a13, step) == Some(m));
}

// ---------------------------------------------------------------------------
// ReqParams

/// The parameters of a session. The client sends no corpus, so this type has no
/// field for it.
#[derive(Debug)]
pub struct ReqParams {
    pub mode: String,
    pub source_language: String,
    pub target_language: String,
    pub speaker_id: String,
}

pub struct ReqParamsModel {
    pub mode: Seq<char>,
    pub source_language: Seq<char>,
    pub target_language: Seq<char>,
    pub speaker_id: Seq<char>,
}

impl View for ReqParams {
    type V = ReqParamsModel;

    open spec fn view(&self) -> ReqParamsModel {
        ReqParamsModel {
            mode: self.mode@,
            source_language: self.source_language@,
            target_language: self.target_language@,
            speaker_id: self.speaker_id@,
        }
    }
}

pub open spec fn req_params_default() -> ReqParamsModel {
    ReqParamsModel {
        mode: Seq::empty(),
        source_language: Seq::empty(),
        target_language: Seq::empty(),
        speaker_id: Seq::empty(),
    }
}

/// The field records of a request parameters, in tag order.
pub open spec fn req_params_records(m: ReqParamsModel) -> Seq<WireRecord> {
    str_field(1, m.mode)
    + str_field(2, m.source_language)
    + str_field(3, m.target_language)
    + str_field(4, m.speaker_id)
}

/// The encoding of a request parameters.
pub open spec fn req_params_bytes(m: ReqParamsModel) -> Seq<u8> {
    encode_records(req_params_records(m))
}

/// What one field record does to a request parameters being decoded.
pub open spec fn req_params_apply(m: ReqParamsModel, r: WireRecord, budget: nat) -> Option<ReqParamsModel> {
    if r.tag == 1 {
        match as_str(r.value) {
            Some(v) => Some(ReqParamsModel { mode: v, ..m }),
            None => None,
        }
    } else if r.tag == 2 {
        match as_str(r.value) {
            Some(v) => Some(ReqParamsModel { source_language: v, ..m }),
            None => None,
        }
    } else if r.tag == 3 {
        match as_str(r.value) {
            Some(v) => Some(ReqParamsModel { target_language: v, ..m }),
            None => None,
        }
    } else if r.tag == 4 {
        match as_str(r.value) {
            Some(v) => Some(ReqParamsModel { speaker_id: v, ..m }),
            None => None,
        }
    } else {
        Some(m)
    }
}

pub open spec fn req_params_step(budget: nat) -> spec_fn(ReqParamsModel, WireRecord) -> Option<ReqParamsModel> {
    |m: ReqParamsModel, r: WireRecord| req_params_apply(m, r, budget)
}

/// Decoding `bytes` into `m`: fields that `bytes` does not hold keep their value in `m`.
pub open spec fn req_params_decode(m: ReqParamsModel, bytes: Seq<u8>, budget: nat) -> Option<ReqParamsModel>
    decreases budget,
{
    match parse_records(bytes, budget) {
        Some(rs) => fold_records(m, rs, req_params_step(budget)),
        None => None,
    }
}

/// Every payload of the request parameters is short enough for a length varint.
pub open spec fn req_params_fits(m: ReqParamsModel) -> bool {
    &&& str_fits(m.mode)
    &&& str_fits(m.source_language)
    &&& str_fits(m.target_language)
    &&& str_fits(m.speaker_id)
}

impl ReqParams {
    /// The request parameters with every field at its default.
    pub fn empty() -> (m: Self)
        ensures
            m@ == req_params_default(),
    {
        ReqParams {
            mode: String::new(),
            source_language: String::new(),
            target_language: String::new(),
            speaker_id: String::new(),
        }
    }

    /// The protobuf encoding of this request parameters.
    pub fn encode(&self) -> (out: Vec<u8>)
        ensures
            out@ == req_params_bytes(self@),
    {
        let mut buf: Vec<u8> = Vec::new();
        emit_str(&mut buf, 1, &self.mode);
        emit_str(&mut buf, 2, &self.source_language);
        emit_str(&mut buf, 3, &self.target_language);
        emit_str(&mut buf, 4, &self.speaker_id);
        proof {
            let m = self@;
            let a0 = str_field(1, m.mode);
            let a1 = str_field(2, m.source_language);
            let a2 = str_field(3, m.target_language);
            let a3 = str_field(4, m.speaker_id);
            lemma_encode_records_append(a0, a1);
            lemma_encode_records_append(a0 + a1, a2);
            lemma_encode_records_append(a0 + a1 + a2, a3);
            assert(buf@ =~= req_params_bytes(m));
        }
        buf
    }

    pub(crate) fn merge_from(m: ReqParams, bytes: &[u8], budget: u32) -> (res: Option<ReqParams>)
        ensures
            match req_params_decode(m@, bytes@, budget as nat) {
                Some(x) => res matches Some(r) && r@ == x,
                None => res is None,
            },
        decreases budget,
    {
        let rs = match read_records(bytes, budget) {
            Some(rs) => rs,
            None => {
                return None;
            },
        };
        let ghost rv = records_view(rs@);
        let ghost step = req_params_step(budget as nat);
        let mut cur = m;
        let mut i: usize = 0;
        assert(rv.skip(0) =~= rv);
        while i < rs.len()
            invariant
                i <= rs@.len(),
                rv == records_view(rs@),
                parse_records(bytes@, budget as nat) == Some(rv),
                step == req_params_step(budget as nat),
                fold_records(m@, rv, step) == fold_records(cur@, rv.skip(i as int), step),
            decreases rs@.len() - i,
        {
            let r = &rs[i];
            proof {
                lemma_fold_step(cur@, rv, i as int, step);
                assert(rv[i as int] == r@);
                assert(step(cur@, r@) == req_params_apply(cur@, r@, budget as nat));
            }
            if r.tag == 1 {
                match get_str(&r.value) {
                    Some(v) => cur.mode = v,
                    None => return None,
                }
            } else if r.tag == 2 {
                match get_str(&r.value) {
                    Some(v) => cur.source_language = v,
                    None => return None,
                }
            } else if r.tag == 3 {
                match get_str(&r.value) {
                    Some(v) => cur.target_language = v,
                    None => return None,
                }
            } else if r.tag == 4 {
                match get_str(&r.value) {
                    Some(v) => cur.speaker_id = v,
                    None => return None,
                }
            }
            i += 1;
        }
        assert(rv.skip(i as int) =~= Seq::<WireRecord>::empty());
        Some(cur)
    }
}

/// Decoding the encoding of a request parameters gives it back.
pub proof fn lemma_req_params_roundtrip(m: ReqParamsModel, budget: nat)
    requires
        req_params_fits(m),
    ensures
        req_params_decode(req_params_default(), req_params_bytes(m), budget) == Some(m),
    decreases budget,
{
    let a0 = str_field(1, m.mode);
    let a1 = str_field(2, m.source_language);
    let a2 = str_field(3, m.target_language);
    let a3 = str_field(4, m.speaker_id);
    let rs = req_params_records(m);
    let step = req_params_step(budget);
    let d = req_params_default();
    assert(all_encodable(rs)) by {
        lemma_all_encodable_append(a0, a1);
        lemma_all_encodable_append(a0 + a1, a2);
        lemma_all_encodable_append(a0 + a1 + a2, a3);
    }
    lemma_records_roundtrip(rs, budget);
    lemma_str_field_roundtrip(1, m.mode);
    assert(m.mode.len() == 0 ==> m.mode =~= d.mode);
    lemma_str_field_roundtrip(2, m.source_language);
    assert(m.source_language.len() == 0 ==> m.source_language =~= d.source_language);
    lemma_str_field_roundtrip(3, m.target_language);
    assert(m.target_language.len() == 0 ==> m.target_language =~= d.target_language);
    lemma_str_field_roundtrip(4, m.speaker_id);
    assert(m.speaker_id.len() == 0 ==> m.speaker_id =~= d.speaker_id);
    lemma_fold_append(d, a0 + a1 + a2, a3, step);
    lemma_fold_append(d, a0 + a1, a2, step);
    lemma_fold_append(d, a0, a1, step);
    let m0 = ReqParamsModel { mode: m.mode, ..d };
    lemma_fold_one(d, a0, step);
    assert(fold_records(d, a0, step) == Some(m0));
    let m1 = ReqParamsModel { source_language: m.source_language, ..m0 };
    lemma_fold_one(m0, a1, step);
    assert(fold_records(m0, a1, step) == Some(m1));
    let m2 = ReqParamsModel { target_language: m.target_language, ..m1 };
    lemma_fold_one(m1, a2, step);
    assert(fold_records(m1, a2, step) == Some(m2));
    lemma_fold_one(m2, a3, step);
    assert(fold_records(m2, a3, step) == Some(m));
}

// ---------------------------------------------------------------------------
// TranslateRequest

#[derive(Debug)]
pub struct TranslateRequest {
    pub request_meta: Option<RequestMeta>,
    pub event: i32,
    pub user: Option<User>,
    pub source_audio: Option<Audio>,
    pub target_audio: Option<Audio>,
    pub request: Option<ReqParams>,
    pub denoise: Option<bool>,
}

pub struct TranslateRequestModel {
    pub request_meta: Option<RequestMetaModel>,
    pub event: i32,
    pub user: Option<UserModel>,
    pub source_audio: Option<AudioModel>,
    pub target_audio: Option<AudioModel>,
    pub request: Option<ReqParamsModel>,
    pub denoise: Option<bool>,
}

impl View for TranslateRequest {
    type V = TranslateRequestModel;

    open spec fn view(&self) -> TranslateRequestModel {
        TranslateRequestModel {
            request_meta: match self.request_meta { Some(x) => Some(x@), None => None },
            event: self.event,
            user: match self.user { Some(x) => Some(x@), None => None },
            source_audio: match self.source_audio { Some(x) => Some(x@), None => None },
            target_audio: match self.target_audio { Some(x) => Some(x@), None => None },
            request: match self.request { Some(x) => Some(x@), None => None },
            denoise: self.denoise,
        }
    }
}

pub open spec fn translate_request_default() -> TranslateRequestModel {
    TranslateRequestModel {
        request_meta: None,
        event: 0,
        user: None,
        source_audio: None,
        target_audio: None,
        request: None,
        denoise: None,
    }
}

/// The field records of a request, in tag order.
pub open spec fn translate_request_records(m: TranslateRequestModel) -> Seq<WireRecord> {
    msg_field(1, match m.request_meta { Some(x) => Some(request_meta_bytes(x)), None => None })
    + i32_field(2, m.event)
    + msg_field(3, match m.user { Some(x) => Some(user_bytes(x)), None => None })
    + msg_field(4, match m.source_audio { Some(x) => Some(audio_bytes(x)), None => None })
    + msg_field(5, match m.target_audio { Some(x) => Some(audio_bytes(x)), None => None })
    + msg_field(6, match m.request { Some(x) => Some(req_params_bytes(x)), None => None })
    + opt_bool_field(7, m.denoise)
}

/// The encoding of a request.
pub open spec fn translate_request_bytes(m: TranslateRequestModel) -> Seq<u8> {
    encode_records(translate_request_records(m))
}

/// What one field record does to a request being decoded.
pub open spec fn translate_request_apply(m: TranslateRequestModel, r: WireRecord, budget: nat) -> Option<TranslateRequestModel> {
    if r.tag == 1 {
        match as_bytes(r.value) {
            Some(b) => if budget >= 1 {
                let base = match m.request_meta {
                    Some(x) => x,
                    None => request_meta_default(),
                };
                match request_meta_decode(base, b, (budget - 1) as nat) {
                    Some(x) => Some(TranslateRequestModel { request_meta: Some(x), ..m }),
                    None => None,
                }
            } else {
                None
            },
            None => None,
        }
    } else if r.tag == 2 {
        match as_i32(r.value) {
            Some(v) => Some(TranslateRequestModel { event: v, ..m }),
            None => None,
        }
    } else if r.tag == 3 {
        match as_bytes(r.value) {
            Some(b) => if budget >= 1 {
                let base = match m.user {
                    Some(x) => x,
                    None => user_default(),
                };
                match user_decode(base, b, (budget - 1) as nat) {
                    Some(x) => Some(TranslateRequestModel { user: Some(x), ..m }),
                    None => None,
                }
            } else {
                None
            },
            None => None,
        }
    } else if r.tag == 4 {
        match as_bytes(r.value) {
            Some(b) => if budget >= 1 {
                let base = match m.source_audio {
                    Some(x) => x,
                    None => audio_default(),
                };
                match audio_decode(base, b, (budget - 1) as nat) {
                    Some(x) => Some(TranslateRequestModel { source_audio: Some(x), ..m }),
                    None => None,
                }
            } else {
                None
            },
            None => None,
        }
    } else if r.tag == 5 {
        match as_bytes(r.value) {
            Some(b) => if budget >= 1 {
                let base = match m.target_audio {
                    Some(x) => x,
                    None => audio_default(),
                };
                match audio_decode(base, b, (budget - 1) as nat) {
                    Some(x) => Some(TranslateRequestModel { target_audio: Some(x), ..m }),
                    None => None,
                }
            } else {
                None
            },
            None => None,
        }
    } else if r.tag == 6 {
        match as_bytes(r.value) {
            Some(b) => if budget >= 1 {
                let base = match m.request {
                    Some(x) => x,
                    None => req_params_default(),
                };
                match req_params_decode(base, b, (budget - 1) as nat) {
                    Some(x) => Some(TranslateRequestModel { request: Some(x), ..m }),
                    None => None,
                }
            } else {
                None
            },
            None => None,
        }
    } else if r.tag == 7 {
        match as_bool(r.value) {
            Some(v) => Some(TranslateRequestModel { denoise: Some(v), ..m }),
            None => None,
        }
    } else {
        Some(m)
    }
}

pub open spec fn translate_request_step(budget: nat) -> spec_fn(TranslateRequestModel, WireRecord) -> Option<TranslateRequestModel> {
    |m: TranslateRequestModel, r: WireRecord| translate_request_apply(m, r, budget)
}

/// Decoding `bytes` into `m`: fields that `bytes` does not hold keep their value in `m`.
pub open spec fn translate_request_decode(m: TranslateRequestModel, bytes: Seq<u8>, budget: nat) -> Option<TranslateRequestModel>
    decreases budget,
{
    match parse_records(bytes, budget) {
        Some(rs) => fold_records(m, rs, translate_request_step(budget)),
        None => None,
    }
}

/// Every payload of the request is short enough for a length varint.
pub open spec fn translate_request_fits(m: TranslateRequestModel) -> bool {
    &&& match m.request_meta {
        Some(x) => request_meta_fits(x) && request_meta_bytes(x).len() < 0x1_0000_0000_0000_0000,
        None => true,
    }
    &&& match m.user {
        Some(x) => user_fits(x) && user_bytes(x).len() < 0x1_0000_0000_0000_0000,
        None => true,
    }
    &&& match m.source_audio {
        Some(x) => audio_fits(x) && audio_bytes(x).len() < 0x1_0000_0000_0000_0000,
        None => true,
    }
    &&& match m.target_audio {
        Some(x) => audio_fits(x) && audio_bytes(x).len() < 0x1_0000_0000_0000_0000,
        None => true,
    }
    &&& match m.request {
        Some(x) => req_params_fits(x) && req_params_bytes(x).len() < 0x1_0000_0000_0000_0000,
        None => true,
    }
}

impl TranslateRequest {
    /// The request with every field at its default.
    pub fn empty() -> (m: Self)
        ensures
            m@ == translate_request_default(),
    {
        TranslateRequest {
            request_meta: None,
            event: 0,
            user: None,
            source_audio: None,
            target_audio: None,
            request: None,
            denoise: None,
        }
    }

    /// The protobuf encoding of this request.
    pub fn encode(&self) -> (out: Vec<u8>)
        ensures
            out@ == translate_request_bytes(self@),
    {
        let mut buf: Vec<u8> = Vec::new();
        let enc_request_meta = match &self.request_meta {
            Some(x) => Some(x.encode()),
            None => None,
        };
        emit_msg(&mut buf, 1, enc_request_meta);
        emit_i32(&mut buf, 2, self.event);
        let enc_user = match &self.user {
            Some(x) => Some(x.encode()),
            None => None,
        };
        emit_msg(&mut buf, 3, enc_user);
        let enc_source_audio = match &self.source_audio {
            Some(x) => Some(x.encode()),
            None => None,
        };
        emit_msg(&mut buf, 4, enc_source_audio);
        let enc_target_audio = match &self.target_audio {
            Some(x) => Some(x.encode()),
            None => None,
        };
        emit_msg(&mut buf, 5, enc_target_audio);
        let enc_request = match &self.request {
            Some(x) => Some(x.encode()),
            None => None,
        };
        emit_msg(&mut buf, 6, enc_request);
        emit_opt_bool(&mut buf, 7, self.denoise);
        proof {
            let m = self@;
            let a0 = msg_field(1, match m.request_meta { Some(x) => Some(request_meta_bytes(x)), None => None });
            let a1 = i32_field(2, m.event);
            let a2 = msg_field(3, match m.user { Some(x) => Some(user_bytes(x)), None => None });
            let a3 = msg_field(4, match m.source_audio { Some(x) => Some(audio_bytes(x)), None => None });
            let a4 = msg_field(5, match m.target_audio { Some(x) => Some(audio_bytes(x)), None => None });
            let a5 = msg_field(6, match m.request { Some(x) => Some(req_params_bytes(x)), None => None });
            let a6 = opt_bool_field(7, m.denoise);
            lemma_encode_records_append(a0, a1);
            lemma_encode_records_append(a0 + a1, a2);
            lemma_encode_records_append(a0 + a1 + a2, a3);
            lemma_encode_records_append(a0 + a1 + a2 + a3, a4);
            lemma_encode_records_append(a0 + a1 + a2 + a3 + a4, a5);
            lemma_encode_records_append(a0 + a1 + a2 + a3 + a4 + a5, a6);
            assert(buf@ =~= translate_request_bytes(m));
        }
        buf
    }

    pub(crate) fn merge_from(m: TranslateRequest, bytes: &[u8], budget: u32) -> (res: Option<TranslateRequest>)
        ensures
            match translate_request_decode(m@, bytes@, budget as nat) {
                Some(x) => res matches Some(r) && r@ == x,
                None => res is None,
            },
        decreases budget,
    {
        let rs = match read_records(bytes, budget) {
            Some(rs) => rs,
            None => {
                return None;
            },
        };
        let ghost rv = records_view(rs@);
        let ghost step = translate_request_step(budget as nat);
        let mut cur = m;
        let mut i: usize = 0;
        assert(rv.skip(0) =~= rv);
        while i < rs.len()
            invariant
                i <= rs@.len(),
                rv == records_view(rs@),
                parse_records(bytes@, budget as nat) == Some(rv),
                step == translate_request_step(budget as nat),
                fold_records(m@, rv, step) == fold_records(cur@, rv.skip(i as int), step),
            decreases rs@.len() - i,
        {
            let r = &rs[i];
            proof {
                lemma_fold_step(cur@, rv, i as int, step);
                assert(rv[i as int] == r@);
                assert(step(cur@, r@) == translate_request_apply(cur@, r@, budget as nat));
            }
            if r.tag == 1 {
                match get_bytes(&r.value) {
                    Some(b) => {
                        if budget >= 1 {
                            let base = match cur.request_meta.take() {
                                Some(x) => x,
                                None => RequestMeta::empty(),
                            };
                            match RequestMeta::merge_from(base, b.as_slice(), budget - 1) {
                                Some(x) => cur.request_meta = Some(x),
                                None => return None,
                            }
                        } else {
                            return None;
                        }
                    },
                    None => return None,
                }
            } else if r.tag == 2 {
                match get_i32(&r.value) {
                    Some(v) => cur.event = v,
                    None => return None,
                }
            } else if r.tag == 3 {
                match get_bytes(&r.value) {
                    Some(b) => {
                        if budget >= 1 {
                            let base = match cur.user.take() {
                                Some(x) => x,
                                None => User::empty(),
                            };
                            match User::merge_from(base, b.as_slice(), budget - 1) {
                                Some(x) => cur.user = Some(x),
                                None => return None,
                            }
                        } else {
                            return None;
                        }
                    },
                    None => return None,
                }
            } else if r.tag == 4 {
                match get_bytes(&r.value) {
                    Some(b) => {
                        if budget >= 1 {
                            let base = match cur.source_audio.take() {
                                Some(x) => x,
                                None => Audio::empty(),
                            };
                            match Audio::merge_from(base, b.as_slice(), budget - 1) {
                                Some(x) => cur.source_audio = Some(x),
                                None => return None,
                            }
                        } else {
                            return None;
                        }
                    },
                    None => return None,
                }
            } else if r.tag == 5 {
                match get_bytes(&r.value) {
                    Some(b) => {
                        if budget >= 1 {
                            let base = match cur.target_audio.take() {
                                Some(x) => x,
                                None => Audio::empty(),
                            };
                            match Audio::merge_from(base, b.as_slice(), budget - 1) {
                                Some(x) => cur.target_audio = Some(x),
                                None => return None,
                            }
                        } else {
                            return None;
                        }
                    },
                    None => return None,
                }
            } else if r.tag == 6 {
                match get_bytes(&r.value) {
                    Some(b) => {
                        if budget >= 1 {
                            let base = match cur.request.take() {
                                Some(x) => x,
                                None => ReqParams::empty(),
                            };
                            match ReqParams::merge_from(base, b.as_slice(), budget - 1) {
                                Some(x) => cur.request = Some(x),
                                None => return None,
                            }
                        } else {
                            return None;
                        }
                    },
                    None => return None,
                }
            } else if r.tag == 7 {
                match get_bool(&r.value) {
                    Some(v) => cur.denoise = Some(v),
                    None => return None,
                }
            }
            i += 1;
        }
        assert(rv.skip(i as int) =~= Seq::<WireRecord>::empty());
        Some(cur)
    }

    /// Decodes a request from its protobuf encoding; fails exactly when the bytes
    /// are not a well-formed encoding of one.
    pub fn decode(bytes: &[u8]) -> (res: Result<TranslateRequest, WireError>)
        ensures
            match translate_request_decode(translate_request_default(), bytes@, NESTING_LIMIT as nat) {
                Some(x) => res matches Ok(r) && r@ == x,
                None => res is Err,
            },
    {
        match TranslateRequest::merge_from(TranslateRequest::empty(), bytes, NESTING_LIMIT) {
            Some(r) => Ok(r),
            None => Err(WireError),
        }
    }
}

/// Decoding the encoding of a request gives it back.
#[verifier::rlimit(60)]
pub proof fn lemma_translate_request_roundtrip(m: TranslateRequestModel, budget: nat)
    requires
        translate_request_fits(m),
        budget >= 1,
    ensures
        translate_request_decode(translate_request_default(), translate_request_bytes(m), budget) == Some(m),
    decreases budget,
{
    let a0 = msg_field(1, match m.request_meta { Some(x) => Some(request_meta_bytes(x)), None => None });
    let a1 = i32_field(2, m.event);
    let a2 = msg_field(3, match m.user { Some(x) => Some(user_bytes(x)), None => None });
    let a3 = msg_field(4, match m.source_audio { Some(x) => Some(audio_bytes(x)), None => None });
    let a4 = msg_field(5, match m.target_audio { Some(x) => Some(audio_bytes(x)), None => None });
    let a5 = msg_field(6, match m.request { Some(x) => Some(req_params_bytes(x)), None => None });
    let a6 = opt_bool_field(7, m.denoise);
    let rs = translate_request_records(m);
    let step = translate_request_step(budget);
    let d = translate_request_default();
    assert(all_encodable(rs)) by {
        lemma_all_encodable_append(a0, a1);
        lemma_all_encodable_append(a0 + a1, a2);
        lemma_all_encodable_append(a0 + a1 + a2, a3);
        lemma_all_encodable_append(a0 + a1 + a2 + a3, a4);
        lemma_all_encodable_append(a0 + a1 + a2 + a3 + a4, a5);
        lemma_all_encodable_append(a0 + a1 + a2 + a3 + a4 + a5, a6);
    }
    lemma_records_roundtrip(rs, budget);
    if let Some(x) = m.request_meta {
        lemma_request_meta_roundtrip(x, (budget - 1) as nat);
    }
    lemma_i32_wire(m.event);
    if let Some(x) = m.user {
        lemma_user_roundtrip(x, (budget - 1) as nat);
    }
    if let Some(x) = m.source_audio {
        lemma_audio_roundtrip(x, (budget - 1) as nat);
    }
    if let Some(x) = m.target_audio {
        lemma_audio_roundtrip(x, (budget - 1) as nat);
    }
    if let Some(x) = m.request {
        lemma_req_params_roundtrip(x, (budget - 1) as nat);
    }
    lemma_fold_append(d, a0 + a1 + a2 + a3 + a4 + a5, a6, step);
    lemma_fold_append(d, a0 + a1 + a2 + a3 + a4, a5, step);
    lemma_fold_append(d, a0 + a1 + a2 + a3, a4, step);
    lemma_fold_append(d, a0 + a1 + a2, a3, step);
    lemma_fold_append(d, a0 + a1, a2, step);
    lemma_fold_append(d, a0, a1, step);
    let m0 = TranslateRequestModel { request_meta: m.request_meta, ..d };
    lemma_fold_one(d, a0, step);
    assert(fold_records(d, a0, step) == Some(m0));
    let m1 = TranslateRequestModel { event: m.event, ..m0 };
    lemma_fold_one(m0, a1, step);
    assert(fold_records(m0, a1, step) == Some(m1));
    let m2 = TranslateRequestModel { user: m.user, ..m1 };
    lemma_fold_one(m1, a2, step);
    assert(fold_records(m1, a2, step) == Some(m2));
    let m3 = TranslateRequestModel { source_audio: m.source_audio, ..m2 };
    lemma_fold_one(m2, a3, step);
    assert(fold_records(m2, a3, step) == Some(m3));
    let m4 = TranslateRequestModel { target_audio: m.target_audio, ..m3 };
    lemma_fold_one(m3, a4, step);
    assert(fold_records(m3, a4, step) == Some(m4));
    let m5 = TranslateRequestModel { request: m.request, ..m4 };
    lemma_fold_one(m4, a5, step);
    assert(fold_records(m4, a5, step) == Some(m5));
    lemma_fold_one(m5, a6, step);
    assert(fold_records(m5, a6, step) == Some(m));
}

// ---------------------------------------------------------------------------
// TranslateResponse

#[derive(Debug)]
pub struct TranslateResponse {
    pub response_meta: Option<ResponseMeta>,
    pub event: i32,
    pub data: Vec<u8>,
    pub text: String,
    pub start_time: i32,
    pub end_time: i32,
    pub spk_chg: bool,
    pub muted_duration_ms: i32,
}

pub struct TranslateResponseModel {
    pub response_meta: Option<ResponseMetaModel>,
    pub event: i32,
    pub data: Seq<u8>,
    pub text: Seq<char>,
    pub start_time: i32,
    pub end_time: i32,
    pub spk_chg: bool,
    pub muted_duration_ms: i32,
}

impl View for TranslateResponse {
    type V = TranslateResponseModel;

    open spec fn view(&self) -> TranslateResponseModel {
        TranslateResponseModel {
            response_meta: match self.response_meta { Some(x) => Some(x@), None => None },
            event: self.event,
            data: self.data@,
            text: self.text@,
            start_time: self.start_time,
            end_time: self.end_time,
            spk_chg: self.spk_chg,
            muted_duration_ms: self.muted_duration_ms,
        }
    }
}

pub open spec fn translate_response_default() -> TranslateResponseModel {
    TranslateResponseModel {
        response_meta: None,
        event: 0,
        data: Seq::empty(),
        text: Seq::empty(),
        start_time: 0,
        end_time: 0,
        spk_chg: false,
        muted_duration_ms: 0,
    }
}

/// The field records of a response, in tag order.
pub open spec fn translate_response_records(m: TranslateResponseModel) -> Seq<WireRecord> {
    msg_field(1, match m.response_meta { Some(x) => Some(response_meta_bytes(x)), None => None })
    + i32_field(2, m.event)
    + bytes_field(3, m.data)
    + str_field(4, m.text)
    + i32_field(5, m.start_time)
    + i32_field(6, m.end_time)
    + bool_field(7, m.spk_chg)
    + i32_field(8, m.muted_duration_ms)
}

/// The encoding of a response.
pub open spec fn translate_response_bytes(m: TranslateResponseModel) -> Seq<u8> {
    encode_records(translate_response_records(m))
}

/// What one field record does to a response being decoded.
pub open spec fn translate_response_apply(m: TranslateResponseModel, r: WireRecord, budget: nat) -> Option<TranslateResponseModel> {
    if r.tag == 1 {
        match as_bytes(r.value) {
            Some(b) => if budget >= 1 {
                let base = match m.response_meta {
                    Some(x) => x,
                    None => response_meta_default(),
                };
                match response_meta_decode(base, b, (budget - 1) as nat) {
                    Some(x) => Some(TranslateResponseModel { response_meta: Some(x), ..m }),
                    None => None,
                }
            } else {
                None
            },
            None => None,
        }
    } else if r.tag == 2 {
        match as_i32(r.value) {
            Some(v) => Some(TranslateResponseModel { event: v, ..m }),
            None => None,
        }
    } else if r.tag == 3 {
        match as_bytes(r.value) {
            Some(v) => Some(TranslateResponseModel { data: v, ..m }),
            None => None,
        }
    } else if r.tag == 4 {
        match as_str(r.value) {
            Some(v) => Some(TranslateResponseModel { text: v, ..m }),
            None => None,
        }
    } else if r.tag == 5 {
        match as_i32(r.value) {
            Some(v) => Some(TranslateResponseModel { start_time: v, ..m }),
            None => None,
        }
    } else if r.tag == 6 {
        match as_i32(r.value) {
            Some(v) => Some(TranslateResponseModel { end_time: v, ..m }),
            None => None,
        }
    } else if r.tag == 7 {
        match as_bool(r.value) {
            Some(v) => Some(TranslateResponseModel { spk_chg: v, ..m }),
            None => None,
        }
    } else if r.tag == 8 {
        match as_i32(r.value) {
            Some(v) => Some(TranslateResponseModel { muted_duration_ms: v, ..m }),
            None => None,
        }
    } else {
        Some(m)
    }
}

pub open spec fn translate_response_step(budget: nat) -> spec_fn(TranslateResponseModel, WireRecord) -> Option<TranslateResponseModel> {
    |m: TranslateResponseModel, r: WireRecord| translate_response_apply(m, r, budget)
}

/// Decoding `bytes` into `m`: fields that `bytes` does not hold keep their value in `m`.
pub open spec fn translate_response_decode(m: TranslateResponseModel, bytes: Seq<u8>, budget: nat) -> Option<TranslateResponseModel>
    decreases budget,
{
    match parse_records(bytes, budget) {
        Some(rs) => fold_records(m, rs, translate_response_step(budget)),
        None => None,
    }
}

/// Every payload of the response is short enough for a length varint.
pub open spec fn translate_response_fits(m: TranslateResponseModel) -> bool {
    &&& match m.response_meta {
        Some(x) => response_meta_fits(x) && response_meta_bytes(x).len() < 0x1_0000_0000_0000_0000,
        None => true,
    }
    &&& m.data.len() < 0x1_0000_0000_0000_0000
    &&& str_fits(m.text)
}

impl TranslateResponse {
    /// The response with every field at its default.
    pub fn empty() -> (m: Self)
        ensures
            m@ == translate_response_default(),
    {
        TranslateResponse {
            response_meta: None,
            event: 0,
            data: Vec::new(),
            text: String::new(),
            start_time: 0,
            end_time: 0,
            spk_chg: false,
            muted_duration_ms: 0,
        }
    }

    /// The protobuf encoding of this response.
    pub fn encode(&self) -> (out: Vec<u8>)
        ensures
            out@ == translate_response_bytes(self@),
    {
        let mut buf: Vec<u8> = Vec::new();
        let enc_response_meta = match &self.response_meta {
            Some(x) => Some(x.encode()),
            None => None,
        };
        emit_msg(&mut buf, 1, enc_response_meta);
        emit_i32(&mut buf, 2, self.event);
        emit_bytes(&mut buf, 3, &self.data);
        emit_str(&mut buf, 4, &self.text);
        emit_i32(&mut buf, 5, self.start_time);
        emit_i32(&mut buf, 6, self.end_time);
        emit_bool(&mut buf, 7, self.spk_chg);
        emit_i32(&mut buf, 8, self.muted_duration_ms);
        proof {
            let m = self@;
            let a0 = msg_field(1, match m.response_meta { Some(x) => Some(response_meta_bytes(x)), None => None });
            let a1 = i32_field(2, m.event);
            let a2 = bytes_field(3, m.data);
            let a3 = str_field(4, m.text);
            let a4 = i32_field(5, m.start_time);
            let a5 = i32_field(6, m.end_time);
            let a6 = bool_field(7, m.spk_chg);
            let a7 = i32_field(8, m.muted_duration_ms);
            lemma_encode_records_append(a0, a1);
            lemma_encode_records_append(a0 + a1, a2);
            lemma_encode_records_append(a0 + a1 + a2, a3);
            lemma_encode_records_append(a0 + a1 + a2 + a3, a4);
            lemma_encode_records_append(a0 + a1 + a2 + a3 + a4, a5);
            lemma_encode_records_append(a0 + a1 + a2 + a3 + a4 + a5, a6);
            lemma_encode_records_append(a0 + a1 + a2 + a3 + a4 + a5 + a6, a7);
            assert(buf@ =~= translate_response_bytes(m));
        }
        buf
    }

    pub(crate) fn merge_from(m: TranslateResponse, bytes: &[u8], budget: u32) -> (res: Option<TranslateResponse>)
        ensures
            match translate_response_decode(m@, bytes@, budget as nat) {
                Some(x) => res matches Some(r) && r@ == x,
                None => res is None,
            },
        decreases budget,
    {
        let rs = match read_records(bytes, budget) {
            Some(rs) => rs,
            None => {
                return None;
            },
        };
        let ghost rv = records_view(rs@);
        let ghost step = translate_response_step(budget as nat);
        let mut cur = m;
        let mut i: usize = 0;
        assert(rv.skip(0) =~= rv);
        while i < rs.len()
            invariant
                i <= rs@.len(),
                rv == records_view(rs@),
                parse_records(bytes@, budget as nat) == Some(rv),
                step == translate_response_step(budget as nat),
                fold_records(m@, rv, step) == fold_records(cur@, rv.skip(i as int), step),
            decreases rs@.len() - i,
        {
            let r = &rs[i];
            proof {
                lemma_fold_step(cur@, rv, i as int, step);
                assert(rv[i as int] == r@);
                assert(step(cur@, r@) == translate_response_apply(cur@, r@, budget as nat));
            }
            if r.tag == 1 {
                match get_bytes(&r.value) {
                    Some(b) => {
                        if budget >= 1 {
                            let base = match cur.response_meta.take() {
                                Some(x) => x,
                                None => ResponseMeta::empty(),
                            };
                            match ResponseMeta::merge_from(base, b.as_slice(), budget - 1) {
                                Some(x) => cur.response_meta = Some(x),
                                None => return None,
                            }
                        } else {
                            return None;
                        }
                    },
                    None => return None,
                }
            } else if r.tag == 2 {
                match get_i32(&r.value) {
                    Some(v) => cur.event = v,
                    None => return None,
                }
            } else if r.tag == 3 {
                match get_bytes(&r.value) {
                    Some(v) => cur.data = v,
                    None => return None,
                }
            } else if r.tag == 4 {
                match get_str(&r.value) {
                    Some(v) => cur.text = v,
                    None => return None,
                }
            } else if r.tag == 5 {
                match get_i32(&r.value) {
                    Some(v) => cur.start_time = v,
                    None => return None,
                }
            } else if r.tag == 6 {
                match get_i32(&r.value) {
                    Some(v) => cur.end_time = v,
                    None => return None,
                }
            } else if r.tag == 7 {
                match get_bool(&r.value) {
                    Some(v) => cur.spk_chg = v,
                    None => return None,
                }
            } else if r.tag == 8 {
                match get_i32(&r.value) {
                    Some(v) => cur.muted_duration_ms = v,
                    None => return None,
                }
            }
            i += 1;
        }
        assert(rv.skip(i as int) =~= Seq::<WireRecord>::empty());
        Some(cur)
    }

    /// Decodes a response from its protobuf encoding; fails exactly when the bytes
    /// are not a well-formed encoding of one.
    pub fn decode(bytes: &[u8]) -> (res: Result<TranslateResponse, WireError>)
        ensures
            match translate_response_decode(translate_response_default(), bytes@, NESTING_LIMIT as nat) {
                Some(x) => res matches Ok(r) && r@ == x,
                None => res is Err,
            },
    {
        match TranslateResponse::merge_from(TranslateResponse::empty(), bytes, NESTING_LIMIT) {
            Some(r) => Ok(r),
            None => Err(WireError),
        }
    }
}

/// Decoding the encoding of a response gives it back.
#[verifier::rlimit(60)]
pub proof fn lemma_translate_response_roundtrip(m: TranslateResponseModel, budget: nat)
    requires
        translate_response_fits(m),
        budget >= 1,
    ensures
        translate_response_decode(translate_response_default(), translate_response_bytes(m), budget) == Some(m),
    decreases budget,
{
    let a0 = msg_field(1, match m.response_meta { Some(x) => Some(response_meta_bytes(x)), None => None });
    let a1 = i32_field(2, m.event);
    let a2 = bytes_field(3, m.data);
    let a3 = str_field(4, m.text);
    let a4 = i32_field(5, m.start_time);
    let a5 = i32_field(6, m.end_time);
    let a6 = bool_field(7, m.spk_chg);
    let a7 = i32_field(8, m.muted_duration_ms);
    let rs = translate_response_records(m);
    let step = translate_response_step(budget);
    let d = translate_response_default();
    assert(all_encodable(rs)) by {
        lemma_all_encodable_append(a0, a1);
        lemma_all_encodable_append(a0 + a1, a2);
        lemma_all_encodable_append(a0 + a1 + a2, a3);
        lemma_all_encodable_append(a0 + a1 + a2 + a3, a4);
        lemma_all_encodable_append(a0 + a1 + a2 + a3 + a4, a5);
        lemma_all_encodable_append(a0 + a1 + a2 + a3 + a4 + a5, a6);
        lemma_all_encodable_append(a0 + a1 + a2 + a3 + a4 + a5 + a6, a7);
    }
    lemma_records_roundtrip(rs, budget);
    if let Some(x) = m.response_meta {
        lemma_response_meta_roundtrip(x, (budget - 1) as nat);
    }
    lemma_i32_wire(m.event);
    assert(m.data.len() == 0 ==> m.data =~= d.data);
    lemma_str_field_roundtrip(4, m.text);
    assert(m.text.len() == 0 ==> m.text =~= d.text);
    lemma_i32_wire(m.start_time);
    lemma_i32_wire(m.end_time);
    lemma_i32_wire(m.muted_duration_ms);
    lemma_fold_append(d, a0 + a1 + a2 + a3 + a4 + a5 + a6, a7, step);
    lemma_fold_append(d, a0 + a1 + a2 + a3 + a4 + a5, a6, step);
    lemma_fold_append(d, a0 + a1 + a2 + a3 + a4, a5, step);
    lemma_fold_append(d, a0 + a1 + a2 + a3, a4, step);
    lemma_fold_append(d, a0 + a1 + a2, a3, step);
    lemma_fold_append(d, a0 + a1, a2, step);
    lemma_fold_append(d, a0, a1, step);
    let m0 = TranslateResponseModel { response_meta: m.response_meta, ..d };
    lemma_fold_one(d, a0, step);
    assert(fold_records(d, a0, step) == Some(m0));
    let m1 = TranslateResponseModel { event: m.event, ..m0 };
    lemma_fold_one(m0, a1, step);
    assert(fold_records(m0, a1, step) == Some(m1));
    let m2 = TranslateResponseModel { data: m.data, ..m1 };
    lemma_fold_one(m1, a2, step);
    assert(fold_records(m1, a2, step) == Some(m2));
    let m3 = TranslateResponseModel { text: m.text, ..m2 };
    lemma_fold_one(m2, a3, step);
    assert(fold_records(m2, a3, step) == Some(m3));
    let m4 = TranslateResponseModel { start_time: m.start_time, ..m3 };
    lemma_fold_one(m3, a4, step);
    assert(fold_records(m3, a4, step) == Some(m4));
    let m5 = TranslateResponseModel { end_time: m.end_time, ..m4 };
    lemma_fold_one(m4, a5, step);
    assert(fold_records(m4, a5, step) == Some(m5));
    let m6 = TranslateResponseModel { spk_chg: m.spk_chg, ..m5 };
    lemma_fold_one(m5, a6, step);
    assert(fold_records(m5, a6, step) == Some(m6));
    lemma_fold_one(m6, a7, step);
    assert(fold_records(m6, a7, step) == Some(m));
}

} // verus!
