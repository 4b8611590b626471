//! Protobuf wire-format layer: base-128 varints, field keys and records.
//!
//! Encoding of single fields is done by `prost`'s encoding primitives;
//! parsing a message into its sequence of field records is done here.

use vstd::prelude::*;
use vstd::utf8::{decode_utf8, encode_utf8, valid_utf8};

verus! {

/// The bytes of the base-128 (LEB128) encoding of `v`, least significant group first.
pub open spec fn varint_bytes(v: nat) -> Seq<u8>
    decreases v,
{
    if v < 128 {
        seq![v as u8]
    } else {
        seq![(v % 128 + 128) as u8] + varint_bytes(v / 128)
    }
}

/// Reads a varint whose first `k` groups were already consumed (at most ten groups
/// in all; the tenth may only hold the topmost bit of a 64-bit value).
/// Returns the value of the remaining groups and the number of bytes they take.
pub open spec fn varint_from(s: Seq<u8>, k: nat) -> Option<(nat, nat)>
    decreases 10 - k,
{
    if s.len() == 0 || k >= 10 {
        None
    } else if k == 9 {
        if s[0] < 2 {
            Some((s[0] as nat, 1nat))
        } else {
            None
        }
    } else if s[0] < 128 {
        Some((s[0] as nat, 1nat))
    } else {
        match varint_from(s.drop_first(), k + 1) {
            Some((v, n)) => Some((((s[0] - 128) + 128 * v) as nat, n + 1)),
            None => None,
        }
    }
}

/// The largest value (exclusive) that the groups from position `k` on can carry.
pub open spec fn varint_bound(k: nat) -> nat
    decreases 9 - k,
{
    if k >= 9 {
        2
    } else {
        128 * varint_bound(k + 1)
    }
}

pub proof fn lemma_varint_bound_min(k: nat)
    ensures
        varint_bound(k) >= 2,
        k < 9 ==> varint_bound(k) >= 256,
    decreases 9 - k,
{
    if k < 9 {
        lemma_varint_bound_min(k + 1);
    }
}

pub proof fn lemma_varint_from_bounds(s: Seq<u8>, k: nat)
    requires
        k < 10,
    ensures
        varint_from(s, k) matches Some((v, n)) ==> 1 <= n <= 10 - k && n <= s.len() && v < varint_bound(k),
    decreases 10 - k,
{
    lemma_varint_bound_min(k);
    if s.len() > 0 && k < 9 && s[0] >= 128 {
        lemma_varint_from_bounds(s.drop_first(), k + 1);
    }
}

/// `varint_bound(0)` is 2^64: ten groups carry exactly the 64-bit values.
pub proof fn lemma_varint_bound_zero()
    ensures
        varint_bound(0) == 0x1_0000_0000_0000_0000,
{
    reveal_with_fuel(varint_bound, 11);
}

/// Reading back the encoding of a value that fits the remaining groups gives the value.
pub proof fn lemma_varint_roundtrip(v: nat, rest: Seq<u8>, k: nat)
    requires
        k < 10,
        v < varint_bound(k),
    ensures
        varint_from(varint_bytes(v) + rest, k) == Some((v, varint_bytes(v).len())),
        1 <= varint_bytes(v).len() <= 10 - k,
    decreases v,
{
    lemma_varint_bound_min(k);
    let s = varint_bytes(v) + rest;
    if v < 128 {
        assert(s[0] == v as u8);
    } else {
        assert(k < 9);
        let tail = varint_bytes(v / 128);
        assert(varint_bound(k) == 128 * varint_bound(k + 1));
        lemma_varint_roundtrip(v / 128, rest, k + 1);
        assert(s[0] == (v % 128 + 128) as u8);
        assert(s.drop_first() =~= tail + rest);
    }
}

/// Parses one varint at the start of `s`: its value and the number of bytes it takes.
pub open spec fn parse_varint(s: Seq<u8>) -> Option<(u64, nat)> {
    match varint_from(s, 0) {
        Some((v, n)) => Some((v as u64, n)),
        None => None,
    }
}

pub proof fn lemma_parse_varint_facts(s: Seq<u8>)
    ensures
        parse_varint(s) matches Some((v, n)) ==> 1 <= n <= 10 && n <= s.len() && varint_from(s,
            0) == Some((v as nat, n)),
{
    lemma_varint_from_bounds(s, 0);
    lemma_varint_bound_zero();
}

pub proof fn lemma_parse_varint_roundtrip(v: u64, rest: Seq<u8>)
    ensures
        parse_varint(varint_bytes(v as nat) + rest) == Some((v, varint_bytes(v as nat).len())),
        1 <= varint_bytes(v as nat).len() <= 10,
{
    lemma_varint_bound_zero();
    lemma_varint_roundtrip(v as nat, rest, 0);
}

/// What one field of a message holds on the wire, as far as decoding needs it:
/// a varint, a length-delimited payload, or something that is skipped
/// (fixed-width values and groups).
pub enum WireValue {
    Varint(u64),
    Delimited(Seq<u8>),
    Skipped,
}

/// One field of an encoded message: its tag and what the wire holds for it.
pub struct WireRecord {
    pub tag: u32,
    pub value: WireValue,
}

/// Largest field tag the format allows.
pub const MAX_TAG: u32 = 0x1fff_ffff;

/// Parses a field key: the tag (at least 1), the wire type (0 to 5) and the key's length.
pub open spec fn parse_key(s: Seq<u8>) -> Option<(u32, u8, nat)> {
    match parse_varint(s) {
        Some((k, n)) => if k <= 0xffff_ffff && k % 8 <= 5 && k / 8 >= 1 {
            Some(((k / 8) as u32, (k % 8) as u8, n))
        } else {
            None
        },
        None => None,
    }
}

/// Bytes taken by the value of a field that is skipped, with `budget` levels of
/// nesting left; none is left for a field that arrives at budget zero.
pub open spec fn skip_field(s: Seq<u8>, tag: u32, wt: u8, budget: nat) -> Option<nat>
    decreases s.len(), 1int,
{
    if budget == 0 {
        None
    } else if wt == 0 {
        match parse_varint(s) {
            Some((_, n)) => Some(n),
            None => None,
        }
    } else if wt == 1 {
        if s.len() >= 8 {
            Some(8)
        } else {
            None
        }
    } else if wt == 2 {
        match parse_varint(s) {
            Some((len, n)) => if n + len <= s.len() {
                Some((n + len) as nat)
            } else {
                None
            },
            None => None,
        }
    } else if wt == 3 {
        skip_group(s, tag, budget)
    } else if wt == 5 {
        if s.len() >= 4 {
            Some(4)
        } else {
            None
        }
    } else {
        None
    }
}

/// Bytes taken by the body of a group opened with `tag`, up to and including the
/// key that closes it with the same tag.
pub open spec fn skip_group(s: Seq<u8>, tag: u32, budget: nat) -> Option<nat>
    decreases s.len(), 0int,
{
    match parse_key(s) {
        None => None,
        Some((t, w, n)) => if w == 4 {
            if t == tag {
                Some(n)
            } else {
                None
            }
        } else if 1 <= n <= s.len() && budget >= 1 {
            match skip_field(s.skip(n as int), t, w, (budget - 1) as nat) {
                None => None,
                Some(m) => if n + m <= s.len() {
                    match skip_group(s.skip((n + m) as int), tag, budget) {
                        Some(r) => Some(n + m + r),
                        None => None,
                    }
                } else {
                    None
                },
            }
        } else {
            None
        },
    }
}

/// The value of a field with tag `tag` and wire type `wt`, and the bytes it takes.
pub open spec fn parse_value(s: Seq<u8>, tag: u32, wt: u8, budget: nat) -> Option<(WireValue, nat)> {
    if wt == 0 {
        match parse_varint(s) {
            Some((v, n)) => Some((WireValue::Varint(v), n)),
            None => None,
        }
    } else if wt == 2 {
        match parse_varint(s) {
            Some((len, n)) => if n + len <= s.len() {
                Some((WireValue::Delimited(s.subrange(n as int, n + len)), (n + len) as nat))
            } else {
                None
            },
            None => None,
        }
    } else {
        match skip_field(s, tag, wt, budget) {
            Some(m) => Some((WireValue::Skipped, m)),
            None => None,
        }
    }
}

/// Splits an encoded message into its field records, in the order they appear.
pub open spec fn parse_records(s: Seq<u8>, budget: nat) -> Option<Seq<WireRecord>>
    decreases s.len(),
{
    if s.len() == 0 {
        Some(Seq::empty())
    } else {
        match parse_key(s) {
            None => None,
            Some((t, w, n)) => if 1 <= n <= s.len() {
                match parse_value(s.skip(n as int), t, w, budget) {
                    None => None,
                    Some((v, m)) => if 1 <= n + m <= s.len() {
                        match parse_records(s.skip((n + m) as int), budget) {
                            Some(rest) => Some(seq![WireRecord { tag: t, value: v }] + rest),
                            None => None,
                        }
                    } else {
                        None
                    },
                }
            } else {
                None
            },
        }
    }
}

pub proof fn lemma_parse_key_facts(s: Seq<u8>)
    ensures
        parse_key(s) matches Some((t, w, n)) ==> 1 <= n <= s.len() && 1 <= t <= MAX_TAG && w <= 5,
{
    lemma_parse_varint_facts(s);
}

pub proof fn lemma_skip_facts(s: Seq<u8>, tag: u32, wt: u8, budget: nat)
    ensures
        skip_field(s, tag, wt, budget) matches Some(m) ==> m <= s.len(),
        skip_group(s, tag, budget) matches Some(m) ==> 1 <= m <= s.len(),
    decreases s.len(),
{
    lemma_parse_varint_facts(s);
    lemma_parse_key_facts(s);
    if let Some((t, w, n)) = parse_key(s) {
        if w != 4 && 1 <= n <= s.len() && budget >= 1 {
            lemma_skip_facts(s.skip(n as int), t, w, (budget - 1) as nat);
            if let Some(m) = skip_field(s.skip(n as int), t, w, (budget - 1) as nat) {
                if n + m <= s.len() {
                    lemma_skip_facts(s.skip((n + m) as int), tag, wt, budget);
                }
            }
        }
    }
}

pub proof fn lemma_parse_value_facts(s: Seq<u8>, tag: u32, wt: u8, budget: nat)
    ensures
        parse_value(s, tag, wt, budget) matches Some((v, m)) ==> m <= s.len(),
{
    lemma_parse_varint_facts(s);
    lemma_skip_facts(s, tag, wt, budget);
}

/// The wire bytes of one record (skipped values have no encoding of their own).
pub open spec fn encode_record(r: WireRecord) -> Seq<u8> {
    match r.value {
        WireValue::Varint(x) => varint_bytes((r.tag * 8) as nat) + varint_bytes(x as nat),
        WireValue::Delimited(b) => varint_bytes((r.tag * 8 + 2) as nat) + varint_bytes(b.len())
            + b,
        WireValue::Skipped => Seq::empty(),
    }
}

pub open spec fn encode_records(rs: Seq<WireRecord>) -> Seq<u8>
    decreases rs.len(),
{
    if rs.len() == 0 {
        Seq::empty()
    } else {
        encode_record(rs[0]) + encode_records(rs.drop_first())
    }
}

/// A record that has an encoding: a valid tag, and a varint or a payload whose
/// length a 64-bit varint can carry.
pub open spec fn encodable(r: WireRecord) -> bool {
    &&& 1 <= r.tag <= MAX_TAG
    &&& match r.value {
        WireValue::Varint(_) => true,
        WireValue::Delimited(b) => b.len() < 0x1_0000_0000_0000_0000,
        WireValue::Skipped => false,
    }
}

pub open spec fn all_encodable(rs: Seq<WireRecord>) -> bool {
    forall|i: int| 0 <= i < rs.len() ==> #[trigger] encodable(rs[i])
}

pub proof fn lemma_encode_records_append(a: Seq<WireRecord>, b: Seq<WireRecord>)
    ensures
        encode_records(a + b) == encode_records(a) + encode_records(b),
    decreases a.len(),
{
    if a.len() == 0 {
        assert(a + b =~= b);
    } else {
        lemma_encode_records_append(a.drop_first(), b);
        assert((a + b).drop_first() =~= a.drop_first() + b);
    }
}

/// Parsing the encoding of one record followed by anything reads that record back.
pub proof fn lemma_record_roundtrip(r: WireRecord, rest: Seq<u8>, budget: nat)
    requires
        encodable(r),
    ensures
        ({
            let s = encode_record(r) + rest;
            let k = encode_record(r).len() - encode_record_payload_len(r);
            &&& 1 <= k
            &&& parse_key(s) == Some((r.tag, wire_type_of(r.value), k as nat))
            &&& parse_value(s.skip(k), r.tag, wire_type_of(r.value), budget) == Some(
                (r.value, encode_record_payload_len(r)),
            )
        }),
{
    let s = encode_record(r) + rest;
    match r.value {
        WireValue::Varint(x) => {
            let key = varint_bytes((r.tag * 8) as nat);
            let val = varint_bytes(x as nat);
            lemma_parse_varint_roundtrip((r.tag * 8) as u64, val + rest);
            assert(s =~= key + (val + rest));
            assert(s.skip(key.len() as int) =~= val + rest);
            lemma_parse_varint_roundtrip(x, rest);
        },
        WireValue::Delimited(b) => {
            let key = varint_bytes((r.tag * 8 + 2) as nat);
            let len = varint_bytes(b.len());
            lemma_parse_varint_roundtrip((r.tag * 8 + 2) as u64, len + b + rest);
            assert(s =~= key + (len + b + rest));
            assert(s.skip(key.len() as int) =~= len + (b + rest));
            lemma_parse_varint_roundtrip(b.len() as u64, b + rest);
            assert((len + (b + rest)).subrange(len.len() as int, (len.len() + b.len()) as int) =~= b);
        },
        WireValue::Skipped => {},
    }
}

pub open spec fn wire_type_of(v: WireValue) -> u8 {
    match v {
        WireValue::Varint(_) => 0,
        WireValue::Delimited(_) => 2,
        WireValue::Skipped => 1,
    }
}

/// Length of the part of a record's encoding that follows its key.
pub open spec fn encode_record_payload_len(r: WireRecord) -> nat {
    match r.value {
        WireValue::Varint(x) => varint_bytes(x as nat).len(),
        WireValue::Delimited(b) => varint_bytes(b.len()).len() + b.len(),
        WireValue::Skipped => 0,
    }
}

/// Splitting the encoding of a list of records gives back the list.
pub proof fn lemma_records_roundtrip(rs: Seq<WireRecord>, budget: nat)
    requires
        all_encodable(rs),
    ensures
        parse_records(encode_records(rs), budget) == Some(rs),
    decreases rs.len(),
{
    if rs.len() == 0 {
    } else {
        let r = rs[0];
        assert(encodable(r));
        let rest = encode_records(rs.drop_first());
        let s = encode_records(rs);
        assert(s == encode_record(r) + rest);
        lemma_record_roundtrip(r, rest, budget);
        let k = encode_record(r).len() - encode_record_payload_len(r);
        assert(s.skip(encode_record(r).len() as int) =~= rest);
        assert(all_encodable(rs.drop_first())) by {
            assert forall|i: int| 0 <= i < rs.drop_first().len() implies #[trigger] encodable(
                rs.drop_first()[i],
            ) by {
                assert(encodable(rs[i + 1]));
            }
        }
        lemma_records_roundtrip(rs.drop_first(), budget);
        assert(seq![r] + rs.drop_first() =~= rs);
    }
}

/// Decoding failure of `prost`'s primitives.
#[verifier::external_type_specification]
#[verifier::external_body]
pub struct ExDecodeError(prost::DecodeError);

/// Reads one varint from the front of `buf` with `prost::encoding::decode_varint`
/// and returns it with the rest of the slice. At most ten bytes are read, least
/// significant group first; it fails when no terminating byte comes within ten
/// bytes or when the tenth byte exceeds 1.
#[verifier::external_body]
fn take_varint<'a>(buf: &'a [u8]) -> (res: (Result<u64, prost::DecodeError>, &'a [u8]))
    ensures
        match parse_varint(buf@) {
            Some((v, n)) => res.0 matches Ok(x) && x == v && res.1@ == buf@.skip(n as int),
            None => res.0 is Err,
        },
{
    let mut rest = buf;
    let r = prost::encoding::decode_varint(&mut rest);
    (r, rest)
}

/// Calls `prost::encoding::string::encode`: appends the key of `tag` with the
/// length-delimited wire type, the byte length of `value` as a varint, and the
/// UTF-8 bytes of `value`.
#[verifier::external_body]
pub(crate) fn put_string_field(buf: &mut Vec<u8>, tag: u32, value: &String)
    requires
        1 <= tag <= MAX_TAG,
    ensures
        final(buf)@ == old(buf)@ + encode_record(
            WireRecord { tag, value: WireValue::Delimited(encode_utf8(value@)) },
        ),
{
    prost::encoding::string::encode(tag, value, buf)
}

/// Calls `prost::encoding::bytes::encode`: appends the key of `tag` with the
/// length-delimited wire type, the length of `value` as a varint, and `value`.
#[verifier::external_body]
pub(crate) fn put_bytes_field(buf: &mut Vec<u8>, tag: u32, value: &Vec<u8>)
    requires
        1 <= tag <= MAX_TAG,
    ensures
        final(buf)@ == old(buf)@ + encode_record(
            WireRecord { tag, value: WireValue::Delimited(value@) },
        ),
{
    prost::encoding::bytes::encode(tag, value, buf)
}

/// Calls `prost::encoding::int32::encode`: appends the key of `tag` with the
/// varint wire type and `value` sign-extended to 64 bits as a varint.
#[verifier::external_body]
pub(crate) fn put_int32_field(buf: &mut Vec<u8>, tag: u32, value: i32)
    requires
        1 <= tag <= MAX_TAG,
    ensures
        final(buf)@ == old(buf)@ + encode_record(
            WireRecord { tag, value: WireValue::Varint(value as u64) },
        ),
{
    prost::encoding::int32::encode(tag, &value, buf)
}

/// Calls `prost::encoding::bool::encode`: appends the key of `tag` with the
/// varint wire type and 1 or 0.
#[verifier::external_body]
pub(crate) fn put_bool_field(buf: &mut Vec<u8>, tag: u32, value: bool)
    requires
        1 <= tag <= MAX_TAG,
    ensures
        final(buf)@ == old(buf)@ + encode_record(
            WireRecord { tag, value: WireValue::Varint(if value { 1 } else { 0 }) },
        ),
{
    prost::encoding::bool::encode(tag, &value, buf)
}

/// Calls `String::from_utf8`: the bytes as a string when they are valid UTF-8,
/// nothing otherwise (the error, which hands the bytes back, is dropped).
#[verifier::external_body]
pub(crate) fn string_from_utf8(bytes: Vec<u8>) -> (res: Option<String>)
    ensures
        match res {
            Some(s) => valid_utf8(bytes@) && s@ == decode_utf8(bytes@),
            None => !valid_utf8(bytes@),
        },
{
    String::from_utf8(bytes).ok()
}

/// Executable counterpart of `WireValue`.
pub enum FieldValue {
    Varint(u64),
    Delimited(Vec<u8>),
    Skipped,
}

impl View for FieldValue {
    type V = WireValue;

    open spec fn view(&self) -> WireValue {
        match self {
            FieldValue::Varint(v) => WireValue::Varint(*v),
            FieldValue::Delimited(b) => WireValue::Delimited(b@),
            FieldValue::Skipped => WireValue::Skipped,
        }
    }
}

/// Executable counterpart of `WireRecord`.
pub struct Record {
    pub tag: u32,
    pub value: FieldValue,
}

impl View for Record {
    type V = WireRecord;

    open spec fn view(&self) -> WireRecord {
        WireRecord { tag: self.tag, value: self.value@ }
    }
}

pub open spec fn records_view(rs: Seq<Record>) -> Seq<WireRecord> {
    rs.map_values(|r: Record| r@)
}

fn read_varint(buf: &[u8], pos: usize) -> (res: Option<(u64, usize)>)
    requires
        pos <= buf@.len(),
    ensures
        match parse_varint(buf@.skip(pos as int)) {
            Some((v, n)) => res == Some((v, (pos + n) as usize)) && pos + n <= buf@.len(),
            None => res is None,
        },
{
    let tail = &buf[pos..buf.len()];
    assert(tail@ =~= buf@.skip(pos as int));
    proof {
        lemma_parse_varint_facts(tail@);
    }
    let (r, rest) = take_varint(tail);
    match r {
        Ok(v) => Some((v, buf.len() - rest.len())),
        Err(_) => None,
    }
}

/// Reads one field key from the front of `buf` with `prost::encoding::decode_key`
/// and returns its tag and wire type with the rest of the slice. The key is a
/// varint of at most 32 bits; its low three bits are the wire type, which must be
/// 0 to 5, and the bits above them the tag, which must be at least 1.
#[verifier::external_body]
fn take_key<'a>(buf: &'a [u8]) -> (res: (Result<(u32, u8), prost::DecodeError>, &'a [u8]))
    ensures
        match parse_key(buf@) {
            Some((t, w, n)) => res.0 matches Ok(k) && k == (t, w) && res.1@ == buf@.skip(n as int),
            None => res.0 is Err,
        },
{
    let mut rest = buf;
    let r = prost::encoding::decode_key(&mut rest).map(|(tag, wire_type)| (tag, wire_type as u8));
    (r, rest)
}

fn read_key(buf: &[u8], pos: usize) -> (res: Option<(u32, u8, usize)>)
    requires
        pos <= buf@.len(),
    ensures
        match parse_key(buf@.skip(pos as int)) {
            Some((t, w, n)) => res == Some((t, w, (pos + n) as usize)) && pos + n <= buf@.len(),
            None => res is None,
        },
{
    let tail = &buf[pos..buf.len()];
    assert(tail@ =~= buf@.skip(pos as int));
    proof {
        lemma_parse_key_facts(tail@);
    }
    let (r, rest) = take_key(tail);
    match r {
        Ok((t, w)) => Some((t, w, buf.len() - rest.len())),
        Err(_) => None,
    }
}

fn skip_field_at(buf: &[u8], pos: usize, tag: u32, wt: u8, budget: u32) -> (res: Option<usize>)
    requires
        pos <= buf@.len(),
    ensures
        match skip_field(buf@.skip(pos as int), tag, wt, budget as nat) {
            Some(m) => res == Some((pos + m) as usize) && pos + m <= buf@.len(),
            None => res is None,
        },
    decreases buf@.len() - pos, 1int,
{
    let _buf_len = buf.len();
    let ghost s = buf@.skip(pos as int);
    proof {
        lemma_skip_facts(s, tag, wt, budget as nat);
    }
    if budget == 0 {
        None
    } else if wt == 0 {
        match read_varint(buf, pos) {
            Some((_, next)) => Some(next),
            None => None,
        }
    } else if wt == 1 {
        if buf.len() - pos >= 8 {
            Some(pos + 8)
        } else {
            None
        }
    } else if wt == 2 {
        match read_varint(buf, pos) {
            Some((len, next)) => {
                if len <= (buf.len() - next) as u64 {
                    Some(next + len as usize)
                } else {
                    None
                }
            },
            None => None,
        }
    } else if wt == 3 {
        skip_group_at(buf, pos, tag, budget)
    } else if wt == 5 {
        if buf.len() - pos >= 4 {
            Some(pos + 4)
        } else {
            None
        }
    } else {
        None
    }
}

fn skip_group_at(buf: &[u8], pos: usize, tag: u32, budget: u32) -> (res: Option<usize>)
    requires
        pos <= buf@.len(),
    ensures
        match skip_group(buf@.skip(pos as int), tag, budget as nat) {
            Some(m) => res == Some((pos + m) as usize) && pos + m <= buf@.len(),
            None => res is None,
        },
    decreases buf@.len() - pos, 0int,
{
    let ghost s = buf@.skip(pos as int);
    let mut p = pos;
    assert(buf@.skip(p as int) =~= s);
    loop
        invariant
            pos <= p <= buf@.len(),
            s == buf@.skip(pos as int),
            skip_group(s, tag, budget as nat) == match skip_group(buf@.skip(p as int), tag, budget as nat) {
                Some(r) => Some((p - pos + r) as nat),
                None => None,
            },
        decreases buf@.len() - p,
    {
        let _buf_len = buf.len();
        let ghost cur = buf@.skip(p as int);
        proof {
            lemma_skip_facts(cur, tag, 3, budget as nat);
            lemma_parse_key_facts(cur);
        }
        match read_key(buf, p) {
            None => {
                return None;
            },
            Some((t, w, next)) => {
                if w == 4 {
                    if t == tag {
                        return Some(next);
                    } else {
                        return None;
                    }
                } else if budget >= 1 {
                    assert(cur.skip((next - p) as int) =~= buf@.skip(next as int));
                    proof {
                        lemma_skip_facts(buf@.skip(next as int), t, w, (budget - 1) as nat);
                    }
                    match skip_field_at(buf, next, t, w, budget - 1) {
                        None => {
                            return None;
                        },
                        Some(after) => {
                            assert(cur.skip((after - p) as int) =~= buf@.skip(after as int));
                            p = after;
                        },
                    }
                } else {
                    return None;
                }
            },
        }
    }
}

fn read_value(buf: &[u8], pos: usize, tag: u32, wt: u8, budget: u32) -> (res: Option<(FieldValue, usize)>)
    requires
        pos <= buf@.len(),
    ensures
        match parse_value(buf@.skip(pos as int), tag, wt, budget as nat) {
            Some((v, m)) => res matches Some((fv, next)) && fv@ == v && next == pos + m
                && pos + m <= buf@.len(),
            None => res is None,
        },
{
    let _buf_len = buf.len();
    let ghost s = buf@.skip(pos as int);
    if wt == 0 {
        match read_varint(buf, pos) {
            Some((v, next)) => Some((FieldValue::Varint(v), next)),
            None => None,
        }
    } else if wt == 2 {
        match read_varint(buf, pos) {
            Some((len, next)) => {
                if len <= (buf.len() - next) as u64 {
                    let end = next + len as usize;
                    let payload = vstd::slice::slice_to_vec(&buf[next..end]);
                    assert(payload@ =~= s.subrange((next - pos) as int, (end - pos) as int));
                    Some((FieldValue::Delimited(payload), end))
                } else {
                    None
                }
            },
            None => None,
        }
    } else {
        match skip_field_at(buf, pos, tag, wt, budget) {
            Some(next) => Some((FieldValue::Skipped, next)),
            None => None,
        }
    }
}

/// Splits `buf` into its field records, with `budget` levels of group nesting allowed.
pub fn read_records(buf: &[u8], budget: u32) -> (res: Option<Vec<Record>>)
    ensures
        match parse_records(buf@, budget as nat) {
            Some(rs) => res matches Some(v) && records_view(v@) == rs,
            None => res is None,
        },
{
    let mut out: Vec<Record> = Vec::new();
    let mut pos: usize = 0;
    assert(buf@.skip(0) =~= buf@);
    while pos < buf.len()
        invariant
            pos <= buf@.len(),
            parse_records(buf@, budget as nat) == match parse_records(
                buf@.skip(pos as int),
                budget as nat,
            ) {
                Some(rest) => Some(records_view(out@) + rest),
                None => None,
            },
        decreases buf@.len() - pos,
    {
        let ghost s = buf@.skip(pos as int);
        proof {
            lemma_parse_key_facts(s);
        }
        match read_key(buf, pos) {
            None => {
                return None;
            },
            Some((t, w, next)) => {
                assert(s.skip((next - pos) as int) =~= buf@.skip(next as int));
                proof {
                    lemma_parse_value_facts(buf@.skip(next as int), t, w, budget as nat);
                }
                match read_value(buf, next, t, w, budget) {
                    None => {
                        return None;
                    },
                    Some((v, after)) => {
                        assert(s.skip((after - pos) as int) =~= buf@.skip(after as int));
                        let ghost old_out = out@;
                        out.push(Record { tag: t, value: v });
                        assert(records_view(out@) =~= records_view(old_out) + seq![
                            WireRecord { tag: t, value: v@ },
                        ]);
                        proof {
                            let r = WireRecord { tag: t, value: v@ };
                            match parse_records(buf@.skip(after as int), budget as nat) {
                                Some(rest) => {
                                    assert(records_view(old_out) + (seq![r] + rest)
                                        =~= records_view(out@) + rest);
                                },
                                None => {},
                            }
                        }
                        pos = after;
                    },
                }
            },
        }
    }
    assert(buf@.skip(pos as int) =~= Seq::<u8>::empty());
    assert(records_view(out@) + Seq::<WireRecord>::empty() =~= records_view(out@));
    Some(out)
}

} // verus!
