//! The fixed binary wire format: a length-delimited username field
//! (tag 0x0a) and message field (tag 0x12), then base-128 offset fields
//! `replaces_offset` (tag 0x18) and `delete_offset` (tag 0x20).  A field
//! holding its default value (empty string, zero offset) is omitted, so
//! zero is not a representable mutation target; the parser accepts
//! exactly the canonical encodings.

use vstd::prelude::*;
use vstd::slice::{slice_subrange, slice_to_vec};

use crate::varint::{parse_varint, parse_varint_exec, push_varint, varint};

verus! {

/// A length-delimited field: tag, content length, content; omitted when
/// the content is empty.
pub open spec fn len_field(tag: u8, content: Seq<u8>) -> Seq<u8> {
    if content.len() == 0 {
        Seq::empty()
    } else {
        seq![tag] + (varint(content.len() as nat) + content)
    }
}

/// A base-128 integer field: tag and value; omitted when the value is
/// zero.
pub open spec fn int_field(tag: u8, v: u64) -> Seq<u8> {
    if v == 0 {
        Seq::empty()
    } else {
        seq![tag] + varint(v as nat)
    }
}

/// The whole binary encoding of an envelope.
pub open spec fn proto_encoding(u: Seq<u8>, m: Seq<u8>, r: u64, d: u64) -> Seq<u8> {
    len_field(0x0a, u) + (len_field(0x12, m) + (int_field(0x18, r) + int_field(0x20, d)))
}

/// Consumes a length-delimited field with the given tag, yielding empty
/// content when the tag is absent.
pub open spec fn parse_len_field(s: Seq<u8>, tag: u8) -> Option<(Seq<u8>, Seq<u8>)> {
    if s.len() == 0 || s[0] != tag {
        Some((Seq::empty(), s))
    } else {
        match parse_varint(s.skip(1)) {
            None => None,
            Some((l, r)) => if 1 <= l <= r.len() {
                Some((r.take(l), r.skip(l)))
            } else {
                None
            },
        }
    }
}

/// Consumes a base-128 integer field with the given tag, yielding zero
/// when the tag is absent.
pub open spec fn parse_int_field(s: Seq<u8>, tag: u8) -> Option<(int, Seq<u8>)> {
    if s.len() == 0 || s[0] != tag {
        Some((0int, s))
    } else {
        match parse_varint(s.skip(1)) {
            None => None,
            Some((v, r)) => if v >= 1 {
                Some((v, r))
            } else {
                None
            },
        }
    }
}

/// Parses a whole payload of the fixed binary shape.
pub open spec fn parse_proto(s: Seq<u8>) -> Option<(Seq<u8>, Seq<u8>, int, int)> {
    match parse_len_field(s, 0x0a) {
        None => None,
        Some((u, s1)) => match parse_len_field(s1, 0x12) {
            None => None,
            Some((m, s2)) => match parse_int_field(s2, 0x18) {
                None => None,
                Some((r, s3)) => match parse_int_field(s3, 0x20) {
                    None => None,
                    Some((d, s4)) => if s4.len() == 0 {
                        Some((u, m, r, d))
                    } else {
                        None
                    },
                },
            },
        },
    }
}

/// Parsing a rendered length-delimited field recovers the content,
/// provided the suffix does not begin with the same tag.
pub proof fn lemma_parse_len_field(tag: u8, content: Seq<u8>, rest: Seq<u8>)
    requires
        content.len() <= u64::MAX,
        rest.len() == 0 || rest[0] != tag,
    ensures
        parse_len_field(len_field(tag, content) + rest, tag) == Some((content, rest)),
{
    let s = len_field(tag, content) + rest;
    if content.len() == 0 {
        assert(s =~= rest);
    } else {
        assert(s[0] == tag);
        assert(s.skip(1) =~= varint(content.len() as nat) + (content + rest));
        crate::varint::lemma_parse_varint(content.len() as nat, content + rest);
        let l = content.len() as int;
        assert((content + rest).take(l) =~= content);
        assert((content + rest).skip(l) =~= rest);
    }
}

/// Parsing a rendered integer field recovers the value, provided the
/// suffix does not begin with the same tag.
pub proof fn lemma_parse_int_field(tag: u8, v: u64, rest: Seq<u8>)
    requires
        rest.len() == 0 || rest[0] != tag,
    ensures
        parse_int_field(int_field(tag, v) + rest, tag) == Some((v as int, rest)),
{
    let s = int_field(tag, v) + rest;
    if v == 0 {
        assert(s =~= rest);
    } else {
        assert(s[0] == tag);
        assert(s.skip(1) =~= varint(v as nat) + rest);
        crate::varint::lemma_parse_varint(v as nat, rest);
    }
}

/// Round trip: parsing the binary encoding of any envelope recovers
/// every field exactly.
pub proof fn lemma_proto_round_trip(u: Seq<u8>, m: Seq<u8>, r: u64, d: u64)
    requires
        u.len() <= u64::MAX,
        m.len() <= u64::MAX,
    ensures
        parse_proto(proto_encoding(u, m, r, d)) == Some((u, m, r as int, d as int)),
{
    let f2 = len_field(0x12, m);
    let f3 = int_field(0x18, r);
    let f4 = int_field(0x20, d);
    let r2 = f3 + f4;
    let r1 = f2 + r2;
    assert(f4.len() == 0 || f4[0] == 0x20);
    assert(r2.len() == 0 || r2[0] == 0x18 || r2[0] == 0x20);
    assert(r1.len() == 0 || r1[0] == 0x12 || r1[0] == 0x18 || r1[0] == 0x20);
    lemma_parse_len_field(0x0a, u, r1);
    lemma_parse_len_field(0x12, m, r2);
    lemma_parse_int_field(0x18, r, f4);
    assert(f4 =~= f4 + Seq::<u8>::empty());
    lemma_parse_int_field(0x20, d, Seq::<u8>::empty());
}

/// Encodes an envelope in the binary format.
#[verifier::rlimit(60)]
pub fn encode_proto(u: &[u8], m: &[u8], r: u64, d: u64) -> (out: Vec<u8>)
    ensures
        out@ == proto_encoding(u@, m@, r, d),
{
    let mut out: Vec<u8> = Vec::new();
    if u.len() > 0 {
        out.push(0x0a);
        push_varint(&mut out, u.len() as u64);
        let mut uv = slice_to_vec(u);
        out.append(&mut uv);
    }
    assert(out@ =~= len_field(0x0a, u@));
    if m.len() > 0 {
        out.push(0x12);
        push_varint(&mut out, m.len() as u64);
        let mut mv = slice_to_vec(m);
        out.append(&mut mv);
    }
    assert(out@ =~= len_field(0x0a, u@) + len_field(0x12, m@));
    if r != 0 {
        out.push(0x18);
        push_varint(&mut out, r);
    }
    if d != 0 {
        out.push(0x20);
        push_varint(&mut out, d);
    }
    assert(out@ =~= proto_encoding(u@, m@, r, d));
    out
}

/// Parses a length-delimited field at position `i`.
fn parse_len_field_exec(data: &[u8], i: usize, tag: u8) -> (res: Option<(Vec<u8>, usize)>)
    requires
        i <= data@.len(),
    ensures
        match parse_len_field(data@.skip(i as int), tag) {
            Some(p) => {
                &&& res matches Some(q)
                &&& q.0@ == p.0
                &&& i <= q.1 <= data@.len()
                &&& data@.skip(q.1 as int) == p.1
            },
            None => res is None,
        },
{
    if i >= data.len() || data[i] != tag {
        assert(data@.skip(i as int).len() == 0 || data@.skip(i as int)[0] != tag);
        return Some((Vec::new(), i));
    }
    assert(data@.skip(i as int)[0] == tag);
    let tail = slice_subrange(data, i + 1, data.len());
    assert(tail@ =~= data@.skip(i as int).skip(1));
    match parse_varint_exec(tail) {
        None => None,
        Some((l, used)) => {
            let start = i + 1 + used;
            let rem = data.len() - start;
            assert(data@.skip(start as int) =~= tail@.skip(used as int));
            if l == 0 {
                return None;
            }
            if l > rem as u64 {
                return None;
            }
            let lsz = l as usize;
            let content = slice_to_vec(slice_subrange(data, start, start + lsz));
            proof {
                let rest = data@.skip(start as int);
                assert(content@ =~= rest.take(l as int));
                assert(data@.skip(start + lsz) =~= rest.skip(l as int));
            }
            Some((content, start + lsz))
        },
    }
}

/// Parses a base-128 integer field at position `i`.
fn parse_int_field_exec(data: &[u8], i: usize, tag: u8) -> (res: Option<(u64, usize)>)
    requires
        i <= data@.len(),
    ensures
        match parse_int_field(data@.skip(i as int), tag) {
            Some(p) => {
                &&& res matches Some(q)
                &&& q.0 as int == p.0
                &&& i <= q.1 <= data@.len()
                &&& data@.skip(q.1 as int) == p.1
            },
            None => res is None,
        },
{
    if i >= data.len() || data[i] != tag {
        assert(data@.skip(i as int).len() == 0 || data@.skip(i as int)[0] != tag);
        return Some((0, i));
    }
    assert(data@.skip(i as int)[0] == tag);
    let tail = slice_subrange(data, i + 1, data.len());
    assert(tail@ =~= data@.skip(i as int).skip(1));
    match parse_varint_exec(tail) {
        None => None,
        Some((v, used)) => {
            if v == 0 {
                return None;
            }
            assert(data@.skip(i + 1 + used as int) =~= tail@.skip(used as int));
            Some((v, i + 1 + used))
        },
    }
}

/// Parses a whole binary payload; `None` exactly where the
/// specification-level parser rejects.
pub fn parse_proto_exec(data: &[u8]) -> (res: Option<(Vec<u8>, Vec<u8>, u64, u64)>)
    ensures
        match parse_proto(data@) {
            Some(p) => {
                &&& res matches Some(q)
                &&& q.0@ == p.0
                &&& q.1@ == p.1
                &&& q.2 as int == p.2
                &&& q.3 as int == p.3
            },
            None => res is None,
        },
{
    assert(data@.skip(0) =~= data@);
    let (u, i1) = match parse_len_field_exec(data, 0, 0x0a) {
        Some(p) => p,
        None => {
            return None;
        },
    };
    let (m, i2) = match parse_len_field_exec(data, i1, 0x12) {
        Some(p) => p,
        None => {
            return None;
        },
    };
    let (rv, i3) = match parse_int_field_exec(data, i2, 0x18) {
        Some(p) => p,
        None => {
            return None;
        },
    };
    let (dv, i4) = match parse_int_field_exec(data, i3, 0x20) {
        Some(p) => p,
        None => {
            return None;
        },
    };
    if i4 != data.len() {
        assert(data@.skip(i4 as int).len() != 0);
        return None;
    }
    assert(data@.skip(i4 as int).len() == 0);
    Some((u, m, rv, dv))
}

} // verus!
