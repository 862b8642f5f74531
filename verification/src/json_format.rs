//! The JSON wire format: a fixed-shape object
//! `{"username":…,"message":…,"replaces_offset":…,"delete_offset":…}`
//! with the two offsets nullable.  String content escapes the quote,
//! backslash, newline, carriage-return and tab bytes; the parser accepts
//! exactly the canonical encodings, so that every payload this module
//! produces decodes back to the same envelope.

use vstd::prelude::*;
use vstd::slice::slice_subrange;

use crate::numfmt::{dec_int, is_digit, parse_int, parse_int_exec, push_dec_i64};

verus! {

/// Escape of one string byte: two-byte escapes for the five special
/// bytes, the byte itself otherwise.
pub open spec fn esc_byte(b: u8) -> Seq<u8> {
    if b == 0x22 {
        seq![0x5cu8, 0x22u8]
    } else if b == 0x5c {
        seq![0x5cu8, 0x5cu8]
    } else if b == 0x0a {
        seq![0x5cu8, 0x6eu8]
    } else if b == 0x0d {
        seq![0x5cu8, 0x72u8]
    } else if b == 0x09 {
        seq![0x5cu8, 0x74u8]
    } else {
        seq![b]
    }
}

/// Escape of a whole string body.
pub open spec fn esc(s: Seq<u8>) -> Seq<u8>
    decreases s.len(),
{
    if s.len() == 0 {
        Seq::empty()
    } else {
        esc_byte(s[0]) + esc(s.skip(1))
    }
}

/// The byte an escape pair `\x` stands for, if `x` is a known escape.
pub open spec fn unesc(b: u8) -> Option<u8> {
    if b == 0x22 {
        Some(0x22u8)
    } else if b == 0x5c {
        Some(0x5cu8)
    } else if b == 0x6e {
        Some(0x0au8)
    } else if b == 0x72 {
        Some(0x0du8)
    } else if b == 0x74 {
        Some(0x09u8)
    } else {
        None
    }
}

/// A byte that may stand for itself inside a string body.
pub open spec fn is_plain(b: u8) -> bool {
    b != 0x22 && b != 0x5c && b != 0x0a && b != 0x0d && b != 0x09
}

/// Scans a string body up to and including its closing quote, yielding
/// the unescaped content and the suffix after the quote.
pub open spec fn scan_str(s: Seq<u8>) -> Option<(Seq<u8>, Seq<u8>)>
    decreases s.len(),
{
    if s.len() == 0 {
        None
    } else if s[0] == 0x22 {
        Some((Seq::empty(), s.skip(1)))
    } else if s[0] == 0x5c {
        if s.len() < 2 {
            None
        } else {
            match unesc(s[1]) {
                None => None,
                Some(c) => match scan_str(s.skip(2)) {
                    None => None,
                    Some(p) => Some((seq![c] + p.0, p.1)),
                },
            }
        }
    } else if !is_plain(s[0]) {
        None
    } else {
        match scan_str(s.skip(1)) {
            None => None,
            Some(p) => Some((seq![s[0]] + p.0, p.1)),
        }
    }
}

/// `{"username":"`
pub open spec fn lit_open() -> Seq<u8> {
    seq![
        0x7bu8, 0x22u8, 0x75u8, 0x73u8, 0x65u8, 0x72u8, 0x6eu8, 0x61u8, 0x6du8, 0x65u8, 0x22u8,
        0x3au8, 0x22u8,
    ]
}

/// `","message":"` without the closing quote of the previous field.
pub open spec fn lit_message() -> Seq<u8> {
    seq![
        0x2cu8, 0x22u8, 0x6du8, 0x65u8, 0x73u8, 0x73u8, 0x61u8, 0x67u8, 0x65u8, 0x22u8, 0x3au8,
        0x22u8,
    ]
}

/// `,"replaces_offset":`
pub open spec fn lit_replaces() -> Seq<u8> {
    seq![
        0x2cu8, 0x22u8, 0x72u8, 0x65u8, 0x70u8, 0x6cu8, 0x61u8, 0x63u8, 0x65u8, 0x73u8, 0x5fu8,
        0x6fu8, 0x66u8, 0x66u8, 0x73u8, 0x65u8, 0x74u8, 0x22u8, 0x3au8,
    ]
}

/// `,"delete_offset":`
pub open spec fn lit_delete() -> Seq<u8> {
    seq![
        0x2cu8, 0x22u8, 0x64u8, 0x65u8, 0x6cu8, 0x65u8, 0x74u8, 0x65u8, 0x5fu8, 0x6fu8, 0x66u8,
        0x66u8, 0x73u8, 0x65u8, 0x74u8, 0x22u8, 0x3au8,
    ]
}

/// `null`
pub open spec fn lit_null() -> Seq<u8> {
    seq![0x6eu8, 0x75u8, 0x6cu8, 0x6cu8]
}

/// `}`
pub open spec fn lit_close() -> Seq<u8> {
    seq![0x7du8]
}

/// A nullable offset field: `null` or canonical decimal digits.
pub open spec fn num_opt(v: Option<int>) -> Seq<u8> {
    match v {
        None => lit_null(),
        Some(n) => dec_int(n),
    }
}

/// The whole JSON encoding of an envelope.
pub open spec fn json_encoding(u: Seq<u8>, m: Seq<u8>, r: Option<int>, d: Option<int>) -> Seq<
    u8,
> {
    lit_open() + (esc(u) + (seq![0x22u8] + (lit_message() + (esc(m) + (seq![0x22u8] + (
    lit_replaces() + (num_opt(r) + (lit_delete() + (num_opt(d) + lit_close())))))))))
}

/// Consumes an exact literal prefix.
pub open spec fn parse_lit(s: Seq<u8>, lit: Seq<u8>) -> Option<Seq<u8>> {
    if s.len() >= lit.len() && s.take(lit.len() as int) == lit {
        Some(s.skip(lit.len() as int))
    } else {
        None
    }
}

/// Consumes a nullable offset field.
pub open spec fn parse_opt_int(s: Seq<u8>) -> Option<(Option<int>, Seq<u8>)> {
    match parse_lit(s, lit_null()) {
        Some(r) => Some((Option::<int>::None, r)),
        None => match parse_int(s) {
            Some(p) => Some((Some(p.0), p.1)),
            None => None,
        },
    }
}

/// Parses a whole payload of the fixed JSON shape, yielding the raw
/// username and message bodies and the two offsets.
pub open spec fn parse_json(s: Seq<u8>) -> Option<(Seq<u8>, Seq<u8>, Option<int>, Option<int>)> {
    match parse_lit(s, lit_open()) {
        None => None,
        Some(s1) => match scan_str(s1) {
            None => None,
            Some((u, s2)) => match parse_lit(s2, lit_message()) {
                None => None,
                Some(s3) => match scan_str(s3) {
                    None => None,
                    Some((m, s4)) => match parse_lit(s4, lit_replaces()) {
                        None => None,
                        Some(s5) => match parse_opt_int(s5) {
                            None => None,
                            Some((r, s6)) => match parse_lit(s6, lit_delete()) {
                                None => None,
                                Some(s7) => match parse_opt_int(s7) {
                                    None => None,
                                    Some((d, s8)) => match parse_lit(s8, lit_close()) {
                                        None => None,
                                        Some(s9) => if s9.len() == 0 {
                                            Some((u, m, r, d))
                                        } else {
                                            None
                                        },
                                    },
                                },
                            },
                        },
                    },
                },
            },
        },
    }
}

/// A literal prefix always parses off, leaving the suffix.
pub proof fn lemma_parse_lit(lit: Seq<u8>, rest: Seq<u8>)
    ensures
        parse_lit(lit + rest, lit) == Some(rest),
{
    let s = lit + rest;
    assert(s.take(lit.len() as int) =~= lit);
    assert(s.skip(lit.len() as int) =~= rest);
}

/// Scanning an escaped body followed by a quote recovers the body.
pub proof fn lemma_esc_scan(content: Seq<u8>, rest: Seq<u8>)
    ensures
        scan_str(esc(content) + (seq![0x22u8] + rest)) == Some((content, rest)),
    decreases content.len(),
{
    let s = esc(content) + (seq![0x22u8] + rest);
    if content.len() == 0 {
        assert(esc(content) =~= Seq::<u8>::empty());
        assert(s =~= seq![0x22u8] + rest);
        assert(s[0] == 0x22);
        assert(s.skip(1) =~= rest);
    } else {
        let b = content[0];
        let tail = content.skip(1);
        lemma_esc_scan(tail, rest);
        assert(esc(content) == esc_byte(b) + esc(tail));
        if b == 0x22 || b == 0x5c || b == 0x0a || b == 0x0d || b == 0x09 {
            assert(esc_byte(b).len() == 2);
            assert(s[0] == esc_byte(b)[0]);
            assert(s[1] == esc_byte(b)[1]);
            assert(s[0] == 0x5c);
            assert(unesc(s[1]) == Some(b));
            assert(s.len() >= 2);
            assert(s.skip(2) =~= esc(tail) + (seq![0x22u8] + rest));
            assert(seq![b] + tail =~= content);
        } else {
            assert(esc_byte(b) =~= seq![b]);
            assert(s[0] == b);
            assert(is_plain(b));
            assert(s.skip(1) =~= esc(tail) + (seq![0x22u8] + rest));
            assert(seq![b] + tail =~= content);
        }
    }
}

/// Parsing the rendering of a nullable offset recovers it, provided the
/// suffix does not begin with a digit.
pub proof fn lemma_parse_num_opt(v: Option<int>, rest: Seq<u8>)
    requires
        v matches Some(n) ==> i64::MIN <= n <= i64::MAX,
        rest.len() > 0,
        !is_digit(rest[0]),
    ensures
        parse_opt_int(num_opt(v) + rest) == Some((v, rest)),
{
    let s = num_opt(v) + rest;
    match v {
        None => {
            lemma_parse_lit(lit_null(), rest);
        },
        Some(n) => {
            crate::numfmt::lemma_parse_dec_int(n, rest);
            if n >= 0 {
                crate::numfmt::lemma_dec_nat_props(n as nat);
                assert(s[0] == dec_int(n)[0]);
                assert(is_digit(s[0]));
            } else {
                assert(s[0] == 0x2d);
            }
            assert(s[0] != 0x6e);
            if s.len() >= lit_null().len() {
                assert(s.take(4)[0] == s[0]);
                assert(lit_null()[0] == 0x6e);
                assert(s.take(4) != lit_null());
            }
            assert(parse_lit(s, lit_null()) is None);
        },
    }
}

/// Round trip: parsing the JSON encoding of any envelope recovers every
/// field exactly.
#[verifier::rlimit(60)]
pub proof fn lemma_json_round_trip(u: Seq<u8>, m: Seq<u8>, r: Option<int>, d: Option<int>)
    requires
        r matches Some(n) ==> i64::MIN <= n <= i64::MAX,
        d matches Some(n) ==> i64::MIN <= n <= i64::MAX,
    ensures
        parse_json(json_encoding(u, m, r, d)) == Some((u, m, r, d)),
{
    let s = json_encoding(u, m, r, d);
    let t7 = num_opt(d) + lit_close();
    let t6 = lit_delete() + t7;
    let t5 = num_opt(r) + t6;
    let t4 = lit_replaces() + t5;
    let t3 = esc(m) + (seq![0x22u8] + t4);
    let t2 = lit_message() + t3;
    let t1 = esc(u) + (seq![0x22u8] + t2);
    assert(s == lit_open() + t1);
    lemma_parse_lit(lit_open(), t1);
    lemma_esc_scan(u, t2);
    lemma_parse_lit(lit_message(), t3);
    lemma_esc_scan(m, t4);
    lemma_parse_lit(lit_replaces(), t5);
    assert(t6[0] == lit_delete()[0]);
    lemma_parse_num_opt(r, t6);
    lemma_parse_lit(lit_delete(), t7);
    assert(lit_close()[0] == 0x7d);
    lemma_parse_num_opt(d, lit_close());
    lemma_parse_lit(lit_close(), Seq::<u8>::empty());
    assert(lit_close() =~= lit_close() + Seq::<u8>::empty());
}

/// Builds `{"username":"` as bytes.
fn lit_open_vec() -> (r: Vec<u8>)
    ensures
        r@ == lit_open(),
{
    let mut v: Vec<u8> = Vec::new();
    v.push(0x7b);
    v.push(0x22);
    v.push(0x75);
    v.push(0x73);
    v.push(0x65);
    v.push(0x72);
    v.push(0x6e);
    v.push(0x61);
    v.push(0x6d);
    v.push(0x65);
    v.push(0x22);
    v.push(0x3a);
    v.push(0x22);
    assert(v@ =~= lit_open());
    v
}

/// Builds `","message":"` as bytes.
fn lit_message_vec() -> (r: Vec<u8>)
    ensures
        r@ == lit_message(),
{
    let mut v: Vec<u8> = Vec::new();
    v.push(0x2c);
    v.push(0x22);
    v.push(0x6d);
    v.push(0x65);
    v.push(0x73);
    v.push(0x73);
    v.push(0x61);
    v.push(0x67);
    v.push(0x65);
    v.push(0x22);
    v.push(0x3a);
    v.push(0x22);
    assert(v@ =~= lit_message());
    v
}

/// Builds `,"replaces_offset":` as bytes.
fn lit_replaces_vec() -> (r: Vec<u8>)
    ensures
        r@ == lit_replaces(),
{
    let mut v: Vec<u8> = Vec::new();
    v.push(0x2c);
    v.push(0x22);
    v.push(0x72);
    v.push(0x65);
    v.push(0x70);
    v.push(0x6c);
    v.push(0x61);
    v.push(0x63);
    v.push(0x65);
    v.push(0x73);
    v.push(0x5f);
    v.push(0x6f);
    v.push(0x66);
    v.push(0x66);
    v.push(0x73);
    v.push(0x65);
    v.push(0x74);
    v.push(0x22);
    v.push(0x3a);
    assert(v@ =~= lit_replaces());
    v
}

/// Builds `,"delete_offset":` as bytes.
fn lit_delete_vec() -> (r: Vec<u8>)
    ensures
        r@ == lit_delete(),
{
    let mut v: Vec<u8> = Vec::new();
    v.push(0x2c);
    v.push(0x22);
    v.push(0x64);
    v.push(0x65);
    v.push(0x6c);
    v.push(0x65);
    v.push(0x74);
    v.push(0x65);
    v.push(0x5f);
    v.push(0x6f);
    v.push(0x66);
    v.push(0x66);
    v.push(0x73);
    v.push(0x65);
    v.push(0x74);
    v.push(0x22);
    v.push(0x3a);
    assert(v@ =~= lit_delete());
    v
}

/// Builds `null` as bytes.
fn lit_null_vec() -> (r: Vec<u8>)
    ensures
        r@ == lit_null(),
{
    let mut v: Vec<u8> = Vec::new();
    v.push(0x6e);
    v.push(0x75);
    v.push(0x6c);
    v.push(0x6c);
    assert(v@ =~= lit_null());
    v
}

/// Escaping a body byte by byte appends one escape at a time.
proof fn lemma_esc_snoc(s: Seq<u8>, b: u8)
    ensures
        esc(s + seq![b]) == esc(s) + esc_byte(b),
    decreases s.len(),
{
    if s.len() == 0 {
        assert(s + seq![b] =~= seq![b]);
        assert((seq![b])[0] == b);
        assert((seq![b]).skip(1) =~= Seq::<u8>::empty());
        assert(esc(seq![b]) == esc_byte(b) + esc(Seq::<u8>::empty()));
        assert(esc(Seq::<u8>::empty()) == Seq::<u8>::empty());
        assert(esc_byte(b) + Seq::<u8>::empty() =~= esc_byte(b));
        assert(esc(s) == Seq::<u8>::empty());
        assert(esc(s) + esc_byte(b) =~= esc_byte(b));
    } else {
        lemma_esc_snoc(s.skip(1), b);
        assert((s + seq![b]).skip(1) =~= s.skip(1) + seq![b]);
        assert((s + seq![b])[0] == s[0]);
        assert(esc(s + seq![b]) == esc_byte(s[0]) + (esc(s.skip(1)) + esc_byte(b)));
        assert(esc_byte(s[0]) + (esc(s.skip(1)) + esc_byte(b)) =~= (esc_byte(s[0]) + esc(
            s.skip(1),
        )) + esc_byte(b));
    }
}

/// Appends the escaped form of `s`.
fn push_escaped(out: &mut Vec<u8>, s: &[u8])
    ensures
        final(out)@ == old(out)@ + esc(s@),
{
    let mut i: usize = 0;
    while i < s.len()
        invariant
            0 <= i <= s@.len(),
            out@ == old(out)@ + esc(s@.take(i as int)),
        decreases s@.len() - i,
    {
        let b = s[i];
        proof {
            lemma_esc_snoc(s@.take(i as int), b);
            assert(s@.take(i + 1) =~= s@.take(i as int) + seq![b]);
        }
        if b == 0x22 {
            out.push(0x5c);
            out.push(0x22);
        } else if b == 0x5c {
            out.push(0x5c);
            out.push(0x5c);
        } else if b == 0x0a {
            out.push(0x5c);
            out.push(0x6e);
        } else if b == 0x0d {
            out.push(0x5c);
            out.push(0x72);
        } else if b == 0x09 {
            out.push(0x5c);
            out.push(0x74);
        } else {
            out.push(b);
        }
        assert(out@ =~= old(out)@ + esc(s@.take(i + 1)));
        i = i + 1;
    }
    assert(s@.take(s@.len() as int) =~= s@);
}

/// A nullable `i64`, widened to the spec-level form the encodings use.
pub open spec fn opt_int(v: Option<i64>) -> Option<int> {
    match v {
        None => None,
        Some(n) => Some(n as int),
    }
}

/// Appends `null` or the canonical decimal rendering of the offset.
fn push_num_opt(out: &mut Vec<u8>, v: Option<i64>)
    ensures
        final(out)@ == old(out)@ + num_opt(opt_int(v)),
{
    match v {
        None => {
            let mut nv = lit_null_vec();
            out.append(&mut nv);
        },
        Some(n) => {
            push_dec_i64(out, n);
        },
    }
}

/// Encodes an envelope in the JSON format.
pub fn encode_json(u: &[u8], m: &[u8], replaces: Option<i64>, delete: Option<i64>) -> (r: Vec<
    u8,
>)
    ensures
        r@ == json_encoding(u@, m@, opt_int(replaces), opt_int(delete)),
{
    let mut out = lit_open_vec();
    push_escaped(&mut out, u);
    out.push(0x22);
    let mut l1 = lit_message_vec();
    out.append(&mut l1);
    push_escaped(&mut out, m);
    out.push(0x22);
    let mut l2 = lit_replaces_vec();
    out.append(&mut l2);
    push_num_opt(&mut out, replaces);
    let mut l3 = lit_delete_vec();
    out.append(&mut l3);
    push_num_opt(&mut out, delete);
    out.push(0x7d);
    assert(out@ =~= json_encoding(u@, m@, opt_int(replaces), opt_int(delete)));
    out
}

/// Consumes an exact literal at position `i`, returning the position
/// after it; `None` exactly where the specification-level parser rejects.
fn eat_lit(data: &[u8], i: usize, lit: &Vec<u8>) -> (r: Option<usize>)
    requires
        i <= data@.len(),
    ensures
        match parse_lit(data@.skip(i as int), lit@) {
            Some(rest) => {
                &&& r matches Some(j)
                &&& i <= j <= data@.len()
                &&& data@.skip(j as int) == rest
            },
            None => r is None,
        },
{
    let ghost s = data@.skip(i as int);
    if data.len() - i < lit.len() {
        assert(s.len() < lit@.len());
        return None;
    }
    let mut k: usize = 0;
    while k < lit.len()
        invariant
            i <= data@.len() <= usize::MAX,
            s == data@.skip(i as int),
            k <= lit@.len() <= data@.len() - i,
            forall|t: int| 0 <= t < k ==> s[t] == lit@[t],
        decreases lit@.len() - k,
    {
        assert(s[k as int] == data@[i + k]);
        if data[i + k] != lit[k] {
            proof {
                assert(s.take(lit@.len() as int)[k as int] == s[k as int]);
                assert(s.take(lit@.len() as int) != lit@);
            }
            return None;
        }
        k = k + 1;
    }
    proof {
        assert(s.take(lit@.len() as int) =~= lit@);
        assert(s.skip(lit@.len() as int) =~= data@.skip(i + lit@.len()));
    }
    Some(i + lit.len())
}

/// Scans a string body at position `i`, returning the unescaped content
/// and the position after the closing quote.
fn scan_str_exec(data: &[u8], i: usize) -> (r: Option<(Vec<u8>, usize)>)
    requires
        i <= data@.len(),
    ensures
        match scan_str(data@.skip(i as int)) {
            Some(p) => {
                &&& r matches Some(q)
                &&& q.0@ == p.0
                &&& i < q.1 <= data@.len()
                &&& data@.skip(q.1 as int) == p.1
            },
            None => r is None,
        },
    decreases data@.len() - i,
{
    let ghost s = data@.skip(i as int);
    if i >= data.len() {
        return None;
    }
    let b = data[i];
    assert(s[0] == b);
    if b == 0x22 {
        assert(s.skip(1) =~= data@.skip(i + 1));
        return Some((Vec::new(), i + 1));
    }
    if b == 0x5c {
        if i + 1 >= data.len() {
            assert(s.len() < 2);
            return None;
        }
        let e = data[i + 1];
        assert(s[1] == e);
        let c: u8 = if e == 0x22 {
            0x22
        } else if e == 0x5c {
            0x5c
        } else if e == 0x6e {
            0x0a
        } else if e == 0x72 {
            0x0d
        } else if e == 0x74 {
            0x09
        } else {
            return None;
        };
        assert(unesc(e) == Some(c));
        assert(s.skip(2) =~= data@.skip(i + 2));
        match scan_str_exec(data, i + 2) {
            None => None,
            Some((t, j)) => {
                let mut v: Vec<u8> = Vec::new();
                v.push(c);
                let mut t2 = t;
                v.append(&mut t2);
                assert(v@ =~= seq![c] + scan_str(data@.skip(i + 2))->Some_0.0);
                Some((v, j))
            },
        }
    } else if b == 0x0a || b == 0x0d || b == 0x09 {
        assert(!is_plain(b));
        None
    } else {
        assert(is_plain(b));
        assert(s.skip(1) =~= data@.skip(i + 1));
        match scan_str_exec(data, i + 1) {
            None => None,
            Some((t, j)) => {
                let mut v: Vec<u8> = Vec::new();
                v.push(b);
                let mut t2 = t;
                v.append(&mut t2);
                assert(v@ =~= seq![b] + scan_str(data@.skip(i + 1))->Some_0.0);
                Some((v, j))
            },
        }
    }
}

/// Parses a nullable offset field at position `i`.
fn parse_opt_i64_exec(data: &[u8], i: usize) -> (r: Option<(Option<i64>, usize)>)
    requires
        i <= data@.len(),
    ensures
        match parse_opt_int(data@.skip(i as int)) {
            Some(p) => {
                &&& r matches Some(q)
                &&& opt_int(q.0) == p.0
                &&& i <= q.1 <= data@.len()
                &&& data@.skip(q.1 as int) == p.1
            },
            None => r is None,
        },
{
    let nv = lit_null_vec();
    match eat_lit(data, i, &nv) {
        Some(j) => Some((None, j)),
        None => {
            let tail = slice_subrange(data, i, data.len());
            assert(tail@ == data@.skip(i as int));
            match parse_int_exec(tail) {
                None => None,
                Some((v, used)) => {
                    assert(data@.skip(i + used as int) =~= tail@.skip(used as int));
                    Some((Some(v), i + used))
                },
            }
        },
    }
}

/// Parses a whole JSON payload; `None` exactly where the
/// specification-level parser rejects.
pub fn parse_json_exec(data: &[u8]) -> (r: Option<(Vec<u8>, Vec<u8>, Option<i64>, Option<i64>)>)
    ensures
        match parse_json(data@) {
            Some(p) => {
                &&& r matches Some(q)
                &&& q.0@ == p.0
                &&& q.1@ == p.1
                &&& opt_int(q.2) == p.2
                &&& opt_int(q.3) == p.3
            },
            None => r is None,
        },
{
    assert(data@.skip(0) =~= data@);
    let l0 = lit_open_vec();
    let i1 = match eat_lit(data, 0, &l0) {
        Some(j) => j,
        None => {
            return None;
        },
    };
    let (u, i2) = match scan_str_exec(data, i1) {
        Some(p) => p,
        None => {
            return None;
        },
    };
    let l1 = lit_message_vec();
    let i3 = match eat_lit(data, i2, &l1) {
        Some(j) => j,
        None => {
            return None;
        },
    };
    let (m, i4) = match scan_str_exec(data, i3) {
        Some(p) => p,
        None => {
            return None;
        },
    };
    let l2 = lit_replaces_vec();
    let i5 = match eat_lit(data, i4, &l2) {
        Some(j) => j,
        None => {
            return None;
        },
    };
    let (rv, i6) = match parse_opt_i64_exec(data, i5) {
        Some(p) => p,
        None => {
            return None;
        },
    };
    let l3 = lit_delete_vec();
    let i7 = match eat_lit(data, i6, &l3) {
        Some(j) => j,
        None => {
            return None;
        },
    };
    let (dv, i8) = match parse_opt_i64_exec(data, i7) {
        Some(p) => p,
        None => {
            return None;
        },
    };
    let mut cl: Vec<u8> = Vec::new();
    cl.push(0x7d);
    assert(cl@ =~= lit_close());
    let i9 = match eat_lit(data, i8, &cl) {
        Some(j) => j,
        None => {
            return None;
        },
    };
    if i9 != data.len() {
        assert(data@.skip(i9 as int).len() != 0);
        return None;
    }
    assert(data@.skip(i9 as int).len() == 0);
    Some((u, m, rv, dv))
}

} // verus!
