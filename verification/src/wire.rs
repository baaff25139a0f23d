//! The wire schema of `BadRequest` and its verified codec.
//!
//! The schema is a standard field-numbered binary encoding: a `BadRequest`
//! message is a sequence of length-delimited records (field number 1), one
//! per violation; a violation record holds two string fields, `field` at
//! field number 1 and `description` at field number 2, each emitted only
//! when non-empty, as a tag byte, a varint byte length and the string's
//! UTF-8 bytes.
//!
//! The parse side accepts the usual flexibilities of such encodings: fields
//! may arrive in any order and may repeat (the last occurrence of a string
//! field wins), and unrecognized field numbers are skipped according to
//! their wire type. Bytes that are truncated, carry wire type 3, 4, 6 or 7,
//! use field number 0, mismatch the declared wire type of a known field, or
//! hold invalid UTF-8 in a string are rejected as a whole.

use vstd::prelude::*;
use vstd::utf8::decode_utf8;
use vstd::utf8::encode_utf8;
use vstd::utf8::valid_utf8;

use crate::any::DecodeError;
use crate::bad_request::BadRequest;
use crate::bad_request::FieldViolation;
use crate::bad_request::FieldViolationView;
use crate::varint::enc_varint;
use crate::varint::lemma_parse_enc_varint;
use crate::varint::lemma_parse_enc_varint_prefix_fails;
use crate::varint::lemma_parse_varint_bounds;
use crate::varint::parse_varint;
use crate::varint::read_varint;
use crate::varint::write_varint;

verus! {

/// The wire bytes of one string field: nothing when the string is empty,
/// otherwise the tag byte, the UTF-8 byte length as a varint and the UTF-8
/// bytes themselves.
pub open spec fn enc_str_field(tag: u8, s: Seq<char>) -> Seq<u8> {
    if s.len() == 0 {
        seq![]
    } else {
        seq![tag] + enc_varint(encode_utf8(s).len()) + encode_utf8(s)
    }
}

/// The payload bytes of one violation record: the `field` string at field
/// number 1 (tag byte 0x0a), then the `description` string at field number 2
/// (tag byte 0x12).
pub open spec fn enc_violation(v: FieldViolationView) -> Seq<u8> {
    enc_str_field(0x0au8, v.field) + enc_str_field(0x12u8, v.description)
}

/// The wire bytes of one violation as a member of the repeated field number
/// 1 of the message: tag byte 0x0a, payload length as a varint, payload.
pub open spec fn enc_record(v: FieldViolationView) -> Seq<u8> {
    seq![0x0au8] + enc_varint(enc_violation(v).len()) + enc_violation(v)
}

/// The wire bytes of a whole `BadRequest`: the records of its violations in
/// order. An empty message encodes to no bytes at all.
pub open spec fn enc_bad_request(vs: Seq<FieldViolationView>) -> Seq<u8>
    decreases vs.len(),
{
    if vs.len() == 0 {
        seq![]
    } else {
        enc_record(vs[0]) + enc_bad_request(vs.drop_first())
    }
}

/// Reads a varint byte length followed by that many bytes; yields the bytes
/// and the position just after them.
pub open spec fn parse_len_bytes(b: Seq<u8>, pos: int, end: int) -> Option<(Seq<u8>, int)> {
    match parse_varint(b, pos, end) {
        Some(t) => if t.1 + t.0 as int <= end {
            Some((b.subrange(t.1, t.1 + t.0 as int), t.1 + t.0 as int))
        } else {
            None
        },
        None => None,
    }
}

/// Skips the body of an unrecognized field of the given wire type; yields
/// the position after it. Wire types 3, 4, 6 and 7 are rejected.
pub open spec fn skip_field(b: Seq<u8>, pos: int, end: int, wire: u64) -> Option<int> {
    if wire == 0 {
        match parse_varint(b, pos, end) {
            Some(t) => Some(t.1),
            None => None,
        }
    } else if wire == 1 {
        if pos + 8 <= end {
            Some(pos + 8)
        } else {
            None
        }
    } else if wire == 5 {
        if pos + 4 <= end {
            Some(pos + 4)
        } else {
            None
        }
    } else if wire == 2 {
        match parse_len_bytes(b, pos, end) {
            Some(t) => Some(t.1),
            None => None,
        }
    } else {
        None
    }
}

/// A successful skip moved forward and stayed inside the window.
pub proof fn lemma_skip_field_bounds(b: Seq<u8>, pos: int, end: int, wire: u64)
    requires
        skip_field(b, pos, end, wire) is Some,
        pos <= end,
    ensures
        pos < skip_field(b, pos, end, wire).unwrap() <= end,
{
    if wire == 0 {
        lemma_parse_varint_bounds(b, pos, end);
    } else if wire == 2 {
        lemma_parse_varint_bounds(b, pos, end);
    }
}

/// Parses the payload of one violation record occupying exactly
/// `b[pos..end]`, with `field` and `description` holding the values decoded
/// so far (the empty defaults at entry).
pub open spec fn parse_violation_fields(
    b: Seq<u8>,
    pos: int,
    end: int,
    field: Seq<char>,
    description: Seq<char>,
) -> Option<FieldViolationView>
    decreases end - pos,
    via parse_violation_fields_dec
{
    if pos < 0 || end > b.len() || pos > end {
        None
    } else if pos == end {
        Some(FieldViolationView { field, description })
    } else {
        match parse_varint(b, pos, end) {
            None => None,
            Some((tag, p)) => {
                let fnum = tag / 8;
                let wire = tag % 8;
                if fnum == 0 {
                    None
                } else if fnum == 1 || fnum == 2 {
                    if wire != 2 {
                        None
                    } else {
                        match parse_len_bytes(b, p, end) {
                            None => None,
                            Some((bytes, p2)) => if !valid_utf8(bytes) {
                                None
                            } else if fnum == 1 {
                                parse_violation_fields(b, p2, end, decode_utf8(bytes), description)
                            } else {
                                parse_violation_fields(b, p2, end, field, decode_utf8(bytes))
                            },
                        }
                    }
                } else {
                    match skip_field(b, p, end, wire) {
                        None => None,
                        Some(p2) => parse_violation_fields(b, p2, end, field, description),
                    }
                }
            },
        }
    }
}

#[via_fn]
proof fn parse_violation_fields_dec(
    b: Seq<u8>,
    pos: int,
    end: int,
    field: Seq<char>,
    description: Seq<char>,
) {
    if 0 <= pos && end <= b.len() && pos < end {
        if parse_varint(b, pos, end) is Some {
            lemma_parse_varint_bounds(b, pos, end);
            let p = parse_varint(b, pos, end).unwrap().1;
            if parse_varint(b, p, end) is Some {
                lemma_parse_varint_bounds(b, p, end);
            }
            let wire = parse_varint(b, pos, end).unwrap().0 % 8;
            if skip_field(b, p, end, wire) is Some {
                lemma_skip_field_bounds(b, p, end, wire);
            }
        }
    }
}

/// Parses the records of a message occupying exactly `b[pos..end]`, with
/// `acc` holding the violations decoded so far (empty at entry).
pub open spec fn parse_records(
    b: Seq<u8>,
    pos: int,
    end: int,
    acc: Seq<FieldViolationView>,
) -> Option<Seq<FieldViolationView>>
    decreases end - pos,
    via parse_records_dec
{
    if pos < 0 || end > b.len() || pos > end {
        None
    } else if pos == end {
        Some(acc)
    } else {
        match parse_varint(b, pos, end) {
            None => None,
            Some((tag, p)) => {
                let fnum = tag / 8;
                let wire = tag % 8;
                if fnum == 0 {
                    None
                } else if fnum == 1 {
                    if wire != 2 {
                        None
                    } else {
                        match parse_len_bytes(b, p, end) {
                            None => None,
                            Some((bytes, p2)) => match parse_violation_fields(
                                b,
                                p2 - bytes.len(),
                                p2,
                                Seq::empty(),
                                Seq::empty(),
                            ) {
                                None => None,
                                Some(v) => parse_records(b, p2, end, acc.push(v)),
                            },
                        }
                    }
                } else {
                    match skip_field(b, p, end, wire) {
                        None => None,
                        Some(p2) => parse_records(b, p2, end, acc),
                    }
                }
            },
        }
    }
}

#[via_fn]
proof fn parse_records_dec(b: Seq<u8>, pos: int, end: int, acc: Seq<FieldViolationView>) {
    if 0 <= pos && end <= b.len() && pos < end {
        if parse_varint(b, pos, end) is Some {
            lemma_parse_varint_bounds(b, pos, end);
            let p = parse_varint(b, pos, end).unwrap().1;
            if parse_varint(b, p, end) is Some {
                lemma_parse_varint_bounds(b, p, end);
            }
            let wire = parse_varint(b, pos, end).unwrap().0 % 8;
            if skip_field(b, p, end, wire) is Some {
                lemma_skip_field_bounds(b, p, end, wire);
            }
        }
    }
}

/// What a well-formed `BadRequest` wire buffer decodes to: the violations of
/// its records in order, or nothing when the bytes are not a well-formed
/// encoding of the schema.
pub open spec fn parse_bad_request(bytes: Seq<u8>) -> Option<Seq<FieldViolationView>> {
    parse_records(bytes, 0, bytes.len() as int, Seq::empty())
}

/// A violation whose record can actually be framed: its payload length fits
/// the 64-bit length varint. Every violation held in memory satisfies this;
/// only a payload of 2^64 bytes or more would not.
pub open spec fn encodable_violation(v: FieldViolationView) -> bool {
    enc_violation(v).len() < 0x1_0000_0000_0000_0000
}

/// All violations of the sequence are encodable.
pub open spec fn encodable(vs: Seq<FieldViolationView>) -> bool {
    forall|i: int| 0 <= i < vs.len() ==> encodable_violation(#[trigger] vs[i])
}

/// A window that holds a concatenation holds each part in its own
/// sub-window.
proof fn lemma_subrange_split(b: Seq<u8>, pos: int, e1: Seq<u8>, e2: Seq<u8>)
    requires
        0 <= pos,
        pos + e1.len() + e2.len() <= b.len(),
        b.subrange(pos, pos + e1.len() + e2.len()) =~= e1 + e2,
    ensures
        b.subrange(pos, pos + e1.len()) =~= e1,
        b.subrange(pos + e1.len(), pos + e1.len() + e2.len()) =~= e2,
{
    let whole = b.subrange(pos, pos + e1.len() + e2.len());
    assert forall|i: int| 0 <= i < e1.len() implies b[pos + i] == e1[i] by {
        assert(whole[i] == b[pos + i]);
        assert((e1 + e2)[i] == e1[i]);
    }
    assert forall|i: int| 0 <= i < e2.len() implies b[pos + e1.len() + i] == e2[i] by {
        assert(whole[e1.len() + i] == b[pos + e1.len() + i]);
        assert((e1 + e2)[e1.len() + i] == e2[i]);
    }
}

/// A string's UTF-8 encoding is empty exactly when the string is.
proof fn lemma_encode_utf8_empty(s: Seq<char>)
    ensures
        encode_utf8(s).len() == 0 <==> s.len() == 0,
{
    if s.len() > 0 {
        assert(vstd::utf8::encode_scalar(s[0] as u32).len() >= 1);
    }
}

/// Appending one violation to a message appends exactly its record bytes.
proof fn lemma_enc_bad_request_push(vs: Seq<FieldViolationView>, v: FieldViolationView)
    ensures
        enc_bad_request(vs.push(v)) =~= enc_bad_request(vs) + enc_record(v),
    decreases vs.len(),
{
    if vs.len() == 0 {
        assert(vs.push(v)[0] == v);
        assert(vs.push(v).drop_first() =~= Seq::<FieldViolationView>::empty());
        assert(enc_bad_request(vs.push(v)) == enc_record(v) + enc_bad_request(Seq::empty()));
        assert(enc_record(v) + Seq::<u8>::empty() =~= enc_record(v));
        assert(enc_bad_request(vs) + enc_record(v) =~= enc_record(v));
    } else {
        assert(vs.push(v)[0] == vs[0]);
        assert(vs.push(v).drop_first() =~= vs.drop_first().push(v));
        lemma_enc_bad_request_push(vs.drop_first(), v);
        let a = enc_record(vs[0]);
        let b1 = enc_bad_request(vs.drop_first());
        let c = enc_record(v);
        assert(enc_bad_request(vs.push(v)) == a + enc_bad_request(vs.drop_first().push(v)));
        assert(enc_bad_request(vs.drop_first().push(v)) =~= b1 + c);
        assert(enc_bad_request(vs) == a + b1);
        assert(a + (b1 + c) =~= (a + b1) + c);
    }
}

/// Appends one string field to `buf`: nothing when the string is empty.
fn write_str_field(buf: &mut Vec<u8>, tag: u8, s: &str)
    ensures
        final(buf)@ =~= old(buf)@ + enc_str_field(tag, s@),
        encode_utf8(s@).len() < 0x1_0000_0000_0000_0000,
{
    let bytes: &[u8] = s.as_bytes();
    proof {
        lemma_encode_utf8_empty(s@);
    }
    if bytes.len() > 0 {
        buf.push(tag);
        write_varint(buf, bytes.len() as u64);
        let mut rest: Vec<u8> = vstd::slice::slice_to_vec(bytes);
        buf.append(&mut rest);
        assert(buf@ =~= old(buf)@ + enc_str_field(tag, s@));
    }
}

/// The payload bytes of one violation: its two string fields in order.
fn encode_violation_payload(v: &FieldViolation) -> (r: Vec<u8>)
    ensures
        r@ =~= enc_violation(v@),
        encodable_violation(v@),
{
    let mut buf: Vec<u8> = Vec::new();
    write_str_field(&mut buf, 0x0a, v.field.as_str());
    write_str_field(&mut buf, 0x12, v.description.as_str());
    proof {
        assert(buf.len() == buf@.len());
    }
    buf
}

/// Produces the wire bytes of `br`: one record per violation, in order.
pub fn encode_bad_request(br: &BadRequest) -> (r: Vec<u8>)
    ensures
        r@ =~= enc_bad_request(br@),
        encodable(br@),
{
    let mut buf: Vec<u8> = Vec::new();
    let n: usize = br.field_violations.len();
    let mut i: usize = 0;
    while i < n
        invariant
            i <= n,
            n == br@.len(),
            buf@ =~= enc_bad_request(br@.subrange(0, i as int)),
            encodable(br@.subrange(0, i as int)),
        decreases n - i,
    {
        let payload: Vec<u8> = encode_violation_payload(&br.field_violations[i]);
        buf.push(0x0a);
        write_varint(&mut buf, payload.len() as u64);
        let ghost payload_view: Seq<u8> = payload@;
        let mut rest: Vec<u8> = payload;
        buf.append(&mut rest);
        proof {
            assert(br.field_violations[i as int].deep_view() == br@[i as int]);
            assert(payload_view =~= enc_violation(br@[i as int]));
            lemma_enc_bad_request_push(br@.subrange(0, i as int), br@[i as int]);
            assert(encodable_violation(br@[i as int]));
            assert(br@.subrange(0, i as int).push(br@[i as int]) =~= br@.subrange(
                0,
                i as int + 1,
            ));
            assert(buf@ =~= enc_bad_request(br@.subrange(0, i as int + 1)));
        }
        i += 1;
    }
    proof {
        assert(br@.subrange(0, br@.len() as int) =~= br@);
        assert(encodable(br@));
    }
    buf
}

/// Relies on `String::from_utf8`: it succeeds exactly on valid UTF-8 input,
/// and the returned string is the one whose UTF-8 byte representation is
/// exactly the input (stated as vstd states `str::from_utf8_unchecked`).
#[verifier::external_body]
fn string_from_utf8(bytes: Vec<u8>) -> (r: Option<String>)
    ensures
        r is Some <==> valid_utf8(bytes@),
        r matches Some(s) ==> encode_utf8(s@) =~= bytes@,
{
    match String::from_utf8(bytes) {
        Ok(s) => Some(s),
        Err(_) => None,
    }
}

/// Skips the body of an unrecognized field of the given wire type.
fn skip_field_exec(b: &Vec<u8>, pos: usize, end: usize, wire: u64) -> (r: Option<usize>)
    requires
        pos <= end,
        end <= b@.len(),
    ensures
        match skip_field(b@, pos as int, end as int, wire) {
            Some(p) => r == Some(p as usize) && pos < p <= end,
            None => r is None,
        },
        r matches Some(p) ==> pos < p <= end,
{
    if wire == 0 {
        match read_varint(b, pos, end) {
            Some((_v, p)) => Some(p),
            None => None,
        }
    } else if wire == 1 {
        if end - pos >= 8 {
            Some(pos + 8)
        } else {
            None
        }
    } else if wire == 5 {
        if end - pos >= 4 {
            Some(pos + 4)
        } else {
            None
        }
    } else if wire == 2 {
        match read_varint(b, pos, end) {
            None => None,
            Some((len, p)) => {
                if len <= (end - p) as u64 {
                    Some(p + len as usize)
                } else {
                    None
                }
            },
        }
    } else {
        None
    }
}

/// Decodes the payload of one violation record occupying exactly
/// `b[start..end]`.
#[verifier::rlimit(60)]
fn decode_violation(b: &Vec<u8>, start: usize, end: usize) -> (r: Option<FieldViolation>)
    requires
        start <= end,
        end <= b@.len(),
    ensures
        match parse_violation_fields(
            b@,
            start as int,
            end as int,
            Seq::empty(),
            Seq::empty(),
        ) {
            Some(v) => r matches Some(fv) && fv@ == v,
            None => r is None,
        },
{
    let mut field: String = String::new();
    let mut description: String = String::new();
    let mut pos: usize = start;
    let ghost target = parse_violation_fields(
        b@,
        start as int,
        end as int,
        Seq::empty(),
        Seq::empty(),
    );
    while pos < end
        invariant
            start <= pos <= end <= b@.len(),
            parse_violation_fields(b@, pos as int, end as int, field@, description@) == target,
            target == parse_violation_fields(
                b@,
                start as int,
                end as int,
                Seq::empty(),
                Seq::empty(),
            ),
        decreases end - pos,
    {
        let ghost cur = parse_violation_fields(b@, pos as int, end as int, field@, description@);
        match read_varint(b, pos, end) {
            None => {
                assert(cur is None);
                return None;
            },
            Some((tag, p)) => {
                let fnum: u64 = tag / 8;
                let wire: u64 = tag % 8;
                if fnum == 0 {
                    assert(cur is None);
                    return None;
                } else if fnum == 1 || fnum == 2 {
                    if wire != 2 {
                        assert(cur is None);
                        return None;
                    }
                    match read_varint(b, p, end) {
                        None => {
                            assert(cur is None);
                            return None;
                        },
                        Some((len, q)) => {
                            if len > (end - q) as u64 {
                                assert(cur is None);
                                return None;
                            }
                            let len_us: usize = len as usize;
                            let ghost sbytes = b@.subrange(q as int, q as int + len as int);
                            let bytes_vec: Vec<u8> = vstd::slice::slice_to_vec(
                                vstd::slice::slice_subrange(b.as_slice(), q, q + len_us),
                            );
                            proof {
                                assert(bytes_vec@ =~= sbytes);
                            }
                            match string_from_utf8(bytes_vec) {
                                None => {
                                    assert(cur is None);
                                    return None;
                                },
                                Some(s) => {
                                    proof {
                                        vstd::utf8::encode_utf8_decode_utf8(s@);
                                        assert(decode_utf8(sbytes) == s@);
                                        if fnum == 1 {
                                            assert(cur == parse_violation_fields(
                                                b@,
                                                q + len as int,
                                                end as int,
                                                s@,
                                                description@,
                                            ));
                                        } else {
                                            assert(cur == parse_violation_fields(
                                                b@,
                                                q + len as int,
                                                end as int,
                                                field@,
                                                s@,
                                            ));
                                        }
                                    }
                                    if fnum == 1 {
                                        field = s;
                                    } else {
                                        description = s;
                                    }
                                    pos = q + len_us;
                                },
                            }
                        },
                    }
                } else {
                    match skip_field_exec(b, p, end, wire) {
                        None => {
                            assert(cur is None);
                            return None;
                        },
                        Some(p2) => {
                            assert(cur == parse_violation_fields(
                                b@,
                                p2 as int,
                                end as int,
                                field@,
                                description@,
                            ));
                            pos = p2;
                        },
                    }
                }
            },
        }
    }
    Some(FieldViolation { field, description })
}

/// Decodes a whole `BadRequest` wire buffer. Fails exactly when the bytes
/// are not a well-formed encoding of the schema, and yields no partial
/// value when it does.
#[verifier::rlimit(60)]
pub fn decode_bad_request(bytes: &Vec<u8>) -> (r: Result<BadRequest, DecodeError>)
    ensures
        match parse_bad_request(bytes@) {
            Some(vs) => r matches Ok(br) && br@ == vs,
            None => r matches Err(e) && e == DecodeError,
        },
{
    let end: usize = bytes.len();
    let mut violations: Vec<FieldViolation> = Vec::new();
    let mut pos: usize = 0;
    let ghost target = parse_bad_request(bytes@);
    proof {
        assert(violations.deep_view() =~= Seq::<FieldViolationView>::empty());
    }
    while pos < end
        invariant
            pos <= end == bytes@.len(),
            parse_records(bytes@, pos as int, end as int, violations.deep_view()) == target,
            target == parse_bad_request(bytes@),
        decreases end - pos,
    {
        let ghost cur = parse_records(bytes@, pos as int, end as int, violations.deep_view());
        match read_varint(bytes, pos, end) {
            None => {
                assert(cur is None);
                return Err(DecodeError);
            },
            Some((tag, p)) => {
                let fnum: u64 = tag / 8;
                let wire: u64 = tag % 8;
                if fnum == 0 {
                    assert(cur is None);
                    return Err(DecodeError);
                } else if fnum == 1 {
                    if wire != 2 {
                        assert(cur is None);
                        return Err(DecodeError);
                    }
                    match read_varint(bytes, p, end) {
                        None => {
                            assert(cur is None);
                            return Err(DecodeError);
                        },
                        Some((len, q)) => {
                            if len > (end - q) as u64 {
                                assert(cur is None);
                                return Err(DecodeError);
                            }
                            let len_us: usize = len as usize;
                            proof {
                                assert(len_us <= end - q);
                                assert(bytes@.subrange(q as int, q as int + len_us as int).len()
                                    == len_us as int);
                            }
                            match decode_violation(bytes, q, q + len_us) {
                                None => {
                                    assert(cur is None);
                                    return Err(DecodeError);
                                },
                                Some(fv) => {
                                    let ghost old_dv = violations.deep_view();
                                    violations.push(fv);
                                    proof {
                                        assert(violations.deep_view() =~= old_dv.push(fv@));
                                        assert(cur == parse_records(
                                            bytes@,
                                            q + len as int,
                                            end as int,
                                            old_dv.push(fv@),
                                        ));
                                    }
                                    pos = q + len_us;
                                },
                            }
                        },
                    }
                } else {
                    match skip_field_exec(bytes, p, end, wire) {
                        None => {
                            assert(cur is None);
                            return Err(DecodeError);
                        },
                        Some(p2) => {
                            assert(cur == parse_records(
                                bytes@,
                                p2 as int,
                                end as int,
                                violations.deep_view(),
                            ));
                            pos = p2;
                        },
                    }
                }
            },
        }
    }
    Ok(BadRequest { field_violations: violations })
}


/// Parsing one non-empty string field advances past it and replaces the
/// matching accumulator value.
proof fn lemma_parse_str_field_step(
    b: Seq<u8>,
    pos: int,
    end: int,
    tag: u8,
    s: Seq<char>,
    field: Seq<char>,
    description: Seq<char>,
)
    requires
        tag == 0x0au8 || tag == 0x12u8,
        s.len() > 0,
        encode_utf8(s).len() < 0x1_0000_0000_0000_0000,
        0 <= pos,
        pos + enc_str_field(tag, s).len() <= end,
        end <= b.len(),
        b.subrange(pos, pos + enc_str_field(tag, s).len()) =~= enc_str_field(tag, s),
    ensures
        tag == 0x0au8 ==> parse_violation_fields(b, pos, end, field, description)
            == parse_violation_fields(
            b,
            pos + enc_str_field(tag, s).len(),
            end,
            s,
            description,
        ),
        tag == 0x12u8 ==> parse_violation_fields(b, pos, end, field, description)
            == parse_violation_fields(b, pos + enc_str_field(tag, s).len(), end, field, s),
{
    let ebytes = encode_utf8(s);
    let evl = enc_varint(ebytes.len());
    let e = enc_str_field(tag, s);
    assert(e == seq![tag] + evl + ebytes);
    assert(e =~= seq![tag] + (evl + ebytes));
    lemma_subrange_split(b, pos, seq![tag], evl + ebytes);
    lemma_subrange_split(b, pos + 1, evl, ebytes);
    assert(b[pos] == b.subrange(pos, pos + 1)[0]);
    assert(b[pos] == tag);
    assert(parse_varint(b, pos, end) == Some((tag as u64, pos + 1)));
    let q = pos + 1 + evl.len();
    lemma_parse_enc_varint(b, pos + 1, end, ebytes.len());
    assert(parse_varint(b, pos + 1, end) == Some((ebytes.len() as u64, q)));
    assert(q + ebytes.len() == pos + e.len());
    assert(b.subrange(q, q + ebytes.len()) =~= ebytes);
    assert(parse_len_bytes(b, pos + 1, end) == Some((ebytes, q + ebytes.len())));
    vstd::utf8::encode_utf8_valid_utf8(s);
    vstd::utf8::encode_utf8_decode_utf8(s);
    assert(valid_utf8(ebytes));
    assert(decode_utf8(ebytes) == s);
}

/// Parsing a window that holds exactly the payload of one violation record
/// recovers that violation.
pub proof fn lemma_parse_enc_violation(b: Seq<u8>, pos: int, v: FieldViolationView)
    requires
        0 <= pos,
        encodable_violation(v),
        pos + enc_violation(v).len() <= b.len(),
        b.subrange(pos, pos + enc_violation(v).len()) =~= enc_violation(v),
    ensures
        parse_violation_fields(
            b,
            pos,
            pos + enc_violation(v).len(),
            Seq::empty(),
            Seq::empty(),
        ) == Some(v),
{
    let e1 = enc_str_field(0x0au8, v.field);
    let e2 = enc_str_field(0x12u8, v.description);
    let end = pos + enc_violation(v).len();
    assert(enc_violation(v) == e1 + e2);
    lemma_subrange_split(b, pos, e1, e2);
    let mid = pos + e1.len();
    lemma_encode_utf8_empty(v.field);
    lemma_encode_utf8_empty(v.description);
    if v.field.len() == 0 {
        assert(e1 =~= Seq::<u8>::empty());
        assert(mid == pos);
        assert(v.field =~= Seq::<char>::empty());
    } else {
        assert(encode_utf8(v.field).len() < 0x1_0000_0000_0000_0000);
        lemma_parse_str_field_step(b, pos, end, 0x0au8, v.field, Seq::empty(), Seq::empty());
    }
    // In both cases the parse state at `mid` carries `v.field` (the empty
    // default when no field record was emitted).
    assert(parse_violation_fields(b, pos, end, Seq::empty(), Seq::empty())
        == parse_violation_fields(b, mid, end, v.field, Seq::empty()));
    if v.description.len() == 0 {
        assert(e2 =~= Seq::<u8>::empty());
        assert(mid == end);
        assert(v.description =~= Seq::<char>::empty());
        assert(parse_violation_fields(b, mid, end, v.field, Seq::empty())
            == Some(FieldViolationView { field: v.field, description: Seq::empty() }));
    } else {
        assert(encode_utf8(v.description).len() < 0x1_0000_0000_0000_0000);
        lemma_parse_str_field_step(b, mid, end, 0x12u8, v.description, v.field, Seq::empty());
        assert(parse_violation_fields(b, mid, end, v.field, Seq::empty())
            == parse_violation_fields(b, end, end, v.field, v.description));
    }
    assert(parse_violation_fields(b, pos, end, Seq::empty(), Seq::empty())
        == Some(FieldViolationView { field: v.field, description: v.description }));
    assert(FieldViolationView { field: v.field, description: v.description } == v);
}


/// One intact record at the head of the window advances the parse past it
/// and appends its violation to the accumulator, whatever follows.
proof fn lemma_parse_record_step(
    b: Seq<u8>,
    pos: int,
    end: int,
    v: FieldViolationView,
    acc: Seq<FieldViolationView>,
)
    requires
        0 <= pos,
        encodable_violation(v),
        pos + enc_record(v).len() <= end,
        end <= b.len(),
        b.subrange(pos, pos + enc_record(v).len()) =~= enc_record(v),
    ensures
        parse_records(b, pos, end, acc) == parse_records(b, pos + enc_record(v).len(), end, acc.push(v)),
{
    let payload = enc_violation(v);
    let lenb = enc_varint(payload.len());
    let rec = enc_record(v);
    assert(rec == seq![0x0au8] + lenb + payload);
    assert(rec =~= seq![0x0au8] + (lenb + payload));
    lemma_subrange_split(b, pos, seq![0x0au8], lenb + payload);
    lemma_subrange_split(b, pos + 1, lenb, payload);
    assert(b[pos] == b.subrange(pos, pos + 1)[0]);
    assert(b[pos] == 0x0au8);
    assert(parse_varint(b, pos, end) == Some((0x0au64, pos + 1)));
    lemma_parse_enc_varint(b, pos + 1, end, payload.len());
    let q = pos + 1 + lenb.len();
    assert(parse_varint(b, pos + 1, end) == Some((payload.len() as u64, q)));
    assert(q + payload.len() <= end);
    assert(b.subrange(q, q + payload.len()) =~= payload);
    assert(parse_len_bytes(b, pos + 1, end) == Some((b.subrange(q, q + payload.len()), q
        + payload.len())));
    lemma_parse_enc_violation(b, q, v);
    assert(parse_violation_fields(b, q, q + payload.len(), Seq::empty(), Seq::empty())
        == Some(v));
    assert(q + payload.len() == pos + rec.len());
}

/// Parsing a window that holds exactly the encoding of `vs` appends `vs` to
/// the accumulator.
proof fn lemma_parse_enc_records(
    b: Seq<u8>,
    pos: int,
    vs: Seq<FieldViolationView>,
    acc: Seq<FieldViolationView>,
)
    requires
        0 <= pos,
        encodable(vs),
        pos + enc_bad_request(vs).len() <= b.len(),
        b.subrange(pos, pos + enc_bad_request(vs).len()) =~= enc_bad_request(vs),
    ensures
        parse_records(b, pos, pos + enc_bad_request(vs).len(), acc) == Some(acc + vs),
    decreases vs.len(),
{
    let end = pos + enc_bad_request(vs).len();
    if vs.len() == 0 {
        assert(acc + vs =~= acc);
    } else {
        let v = vs[0];
        assert(encodable_violation(v));
        let rec = enc_record(v);
        let rest = enc_bad_request(vs.drop_first());
        assert(enc_bad_request(vs) == rec + rest);
        lemma_subrange_split(b, pos, rec, rest);
        lemma_parse_record_step(b, pos, end, v, acc);
        let after = pos + rec.len();
        assert(encodable(vs.drop_first())) by {
            assert(forall|i: int|
                0 <= i < vs.drop_first().len() ==> #[trigger] vs.drop_first()[i] == vs[i + 1]);
        }
        assert(b.subrange(after, after + rest.len()) =~= rest);
        lemma_parse_enc_records(b, after, vs.drop_first(), acc.push(v));
        assert(parse_records(b, after, end, acc.push(v)) == Some(acc.push(v) + vs.drop_first()));
        assert(acc.push(v) + vs.drop_first() =~= acc + vs);
    }
}

/// Round-trip law: decoding the wire encoding of any sequence of field
/// violations yields exactly that sequence. (`encodable` only rules out
/// violations too large to frame at all; every violation held in memory is
/// encodable.)
pub proof fn lemma_decode_encode_roundtrip(vs: Seq<FieldViolationView>)
    requires
        encodable(vs),
    ensures
        parse_bad_request(enc_bad_request(vs)) == Some(vs),
{
    let b = enc_bad_request(vs);
    assert(b.subrange(0, b.len() as int) =~= b);
    lemma_parse_enc_records(b, 0, vs, Seq::empty());
    assert(Seq::empty() + vs =~= vs);
}


/// An empty message encodes to an empty byte buffer, and that buffer
/// decodes back to the empty message.
pub proof fn lemma_empty_round_trip()
    ensures
        enc_bad_request(Seq::empty()) =~= Seq::empty(),
        parse_bad_request(enc_bad_request(Seq::empty())) == Some(Seq::<FieldViolationView>::empty()),
{
    assert(encodable(Seq::empty()));
    lemma_decode_encode_roundtrip(Seq::empty());
}

/// A window that holds a strict, non-empty prefix of one record and
/// nothing after it fails to parse: either the length varint ran out of
/// bytes, or the payload it promises overruns the window.
proof fn lemma_parse_cut_record(
    b: Seq<u8>,
    pos: int,
    v: FieldViolationView,
    m: int,
    acc: Seq<FieldViolationView>,
)
    requires
        0 <= pos,
        encodable_violation(v),
        0 < m < enc_record(v).len(),
        b.len() == pos + m,
        b.subrange(pos, b.len() as int) =~= enc_record(v).take(m),
    ensures
        parse_records(b, pos, b.len() as int, acc) is None,
{
    let end = b.len() as int;
    let payload = enc_violation(v);
    let lenb = enc_varint(payload.len());
    let rec = enc_record(v);
    assert(rec == seq![0x0au8] + lenb + payload);
    assert(b[pos] == b.subrange(pos, end)[0]);
    assert(rec.take(m)[0] == rec[0]);
    assert(rec[0] == 0x0au8);
    assert(parse_varint(b, pos, end) == Some((0x0au64, pos + 1)));
    if m < 1 + lenb.len() {
        // The cut falls inside the length varint.
        assert(b.subrange(pos + 1, end) =~= lenb.take(m - 1)) by {
            assert forall|i: int| 0 <= i < m - 1 implies b[pos + 1 + i] == lenb[i] by {
                assert(b.subrange(pos, end)[1 + i] == b[pos + 1 + i]);
                assert(rec.take(m)[1 + i] == rec[1 + i]);
                assert(rec[1 + i] == lenb[i]);
            }
        }
        lemma_parse_enc_varint_prefix_fails(b, pos + 1, payload.len(), m - 1);
        assert(parse_varint(b, pos + 1, end) is None);
    } else {
        // The length varint is intact but now promises more payload bytes
        // than the window holds.
        assert(b.subrange(pos + 1, pos + 1 + lenb.len()) =~= lenb) by {
            assert forall|i: int| 0 <= i < lenb.len() implies b[pos + 1 + i] == lenb[i] by {
                assert(b.subrange(pos, end)[1 + i] == b[pos + 1 + i]);
                assert(rec.take(m)[1 + i] == rec[1 + i]);
                assert(rec[1 + i] == lenb[i]);
            }
        }
        lemma_parse_enc_varint(b, pos + 1, end, payload.len());
        let q = pos + 1 + lenb.len();
        assert(parse_varint(b, pos + 1, end) == Some((payload.len() as u64, q)));
        assert(q + payload.len() > end);
        assert(parse_len_bytes(b, pos + 1, end) is None);
    }
}

/// The window holds the encoding of `vs` cut inside its final record, and
/// runs to the very end of the buffer: the parse fails.
proof fn lemma_parse_truncated_records(
    b: Seq<u8>,
    pos: int,
    vs: Seq<FieldViolationView>,
    acc: Seq<FieldViolationView>,
    j: int,
)
    requires
        0 <= pos,
        encodable(vs),
        vs.len() > 0,
        enc_bad_request(vs.drop_last()).len() < j < enc_bad_request(vs).len(),
        b.len() == pos + j,
        b.subrange(pos, b.len() as int) =~= enc_bad_request(vs).take(j),
    ensures
        parse_records(b, pos, b.len() as int, acc) is None,
    decreases vs.len(),
{
    let end = b.len() as int;
    let e = enc_bad_request(vs);
    let v = vs[0];
    assert(encodable_violation(v));
    let rec = enc_record(v);
    let rest = enc_bad_request(vs.drop_first());
    assert(e == rec + rest);
    if vs.len() == 1 {
        assert(vs.drop_last() =~= Seq::<FieldViolationView>::empty());
        assert(enc_bad_request(vs.drop_last()).len() == 0);
        assert(rest =~= Seq::<u8>::empty());
        assert(e =~= rec);
        assert(b.subrange(pos, end) =~= rec.take(j));
        lemma_parse_cut_record(b, pos, v, j, acc);
    } else {
        // The boundary before the last record lies beyond the first
        // record, so the first record is intact: parse past it and
        // recurse on the rest of the stream.
        assert(vs.drop_last()[0] == v);
        assert(vs.drop_last().drop_first() =~= vs.drop_first().drop_last());
        assert(enc_bad_request(vs.drop_last()) == rec + enc_bad_request(
            vs.drop_first().drop_last(),
        ));
        assert(j > rec.len());
        assert(b.subrange(pos, pos + rec.len()) =~= rec) by {
            assert forall|i: int| 0 <= i < rec.len() implies b[pos + i] == rec[i] by {
                assert(b.subrange(pos, end)[i] == b[pos + i]);
                assert(e.take(j)[i] == e[i]);
                assert(e[i] == rec[i]);
            }
        }
        lemma_parse_record_step(b, pos, end, v, acc);
        let after = pos + rec.len();
        assert(b.subrange(after, end) =~= rest.take(j - rec.len())) by {
            assert forall|i: int| 0 <= i < j - rec.len() implies b[after + i] == rest[i] by {
                assert(b.subrange(pos, end)[rec.len() + i] == b[after + i]);
                assert(e.take(j)[rec.len() + i] == e[rec.len() + i]);
                assert(e[rec.len() + i] == rest[i]);
            }
        }
        assert(encodable(vs.drop_first())) by {
            assert(forall|i: int|
                0 <= i < vs.drop_first().len() ==> #[trigger] vs.drop_first()[i] == vs[i + 1]);
        }
        lemma_parse_truncated_records(b, after, vs.drop_first(), acc.push(v), j - rec.len());
    }
}

/// Truncation is detected: cutting the byte stream anywhere strictly
/// inside its final record leaves bytes that are no longer a well-formed
/// encoding, so decoding them fails. (A cut exactly at a record boundary
/// instead leaves the well-formed encoding of the earlier violations,
/// which decodes to those.)
pub proof fn lemma_decode_truncated_fails(vs: Seq<FieldViolationView>, j: int)
    requires
        encodable(vs),
        vs.len() > 0,
        enc_bad_request(vs.drop_last()).len() < j < enc_bad_request(vs).len(),
    ensures
        parse_bad_request(enc_bad_request(vs).take(j)) is None,
{
    let b = enc_bad_request(vs).take(j);
    assert(b.subrange(0, b.len() as int) =~= b);
    lemma_parse_truncated_records(b, 0, vs, Seq::empty(), j);
}

} // verus!
