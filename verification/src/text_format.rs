//! The plain-text wire format: `"{username}: {text}"` as UTF-8 bytes.
//! Decoding splits on the first colon and trims ASCII whitespace from
//! both pieces; there is no room for mutation metadata in this format.

use vstd::prelude::*;
use vstd::slice::{slice_subrange, slice_to_vec};
use vstd::utf8::valid_utf8;

use crate::strbytes::{bytes_to_string, str_bytes, str_to_bytes, string_bytes};
use crate::ChatError;

verus! {

/// ASCII whitespace, the characters trimmed from decoded pieces.
pub open spec fn is_space(b: u8) -> bool {
    b == 0x20 || (0x09 <= b <= 0x0d)
}

/// `s` without its leading ASCII whitespace.
pub open spec fn trim_start(s: Seq<u8>) -> Seq<u8>
    decreases s.len(),
{
    if s.len() > 0 && is_space(s[0]) {
        trim_start(s.skip(1))
    } else {
        s
    }
}

/// `s` without its trailing ASCII whitespace.
pub open spec fn trim_end(s: Seq<u8>) -> Seq<u8>
    decreases s.len(),
{
    if s.len() > 0 && is_space(s.last()) {
        trim_end(s.drop_last())
    } else {
        s
    }
}

/// `s` without leading and trailing ASCII whitespace.
pub open spec fn trim(s: Seq<u8>) -> Seq<u8> {
    trim_end(trim_start(s))
}

/// Index of the first colon byte in `s`, if any.
pub open spec fn colon_pos(s: Seq<u8>) -> Option<int>
    decreases s.len(),
{
    if s.len() == 0 {
        None
    } else if s[0] == 0x3a {
        Some(0int)
    } else {
        match colon_pos(s.skip(1)) {
            Some(i) => Some(i + 1),
            None => None,
        }
    }
}

/// The text encoding of a message: username, colon, space, text.
pub open spec fn text_encoding(u: Seq<u8>, m: Seq<u8>) -> Seq<u8> {
    u + seq![0x3au8, 0x20u8] + m
}

/// The decoded form of a text payload: the trimmed pieces on either side
/// of the first colon, or nothing when no colon is present.
pub open spec fn text_decoded(s: Seq<u8>) -> Option<(Seq<u8>, Seq<u8>)> {
    match colon_pos(s) {
        None => None,
        Some(i) => Some((trim(s.take(i)), trim(s.skip(i + 1)))),
    }
}

/// If nothing before index `i` is a colon and `s[i]` is one, then `i` is
/// the first colon.
pub proof fn lemma_colon_first(s: Seq<u8>, i: int)
    requires
        0 <= i < s.len(),
        forall|j: int| 0 <= j < i ==> s[j] != 0x3a,
        s[i] == 0x3a,
    ensures
        colon_pos(s) == Some(i),
    decreases i,
{
    if i == 0 {
    } else {
        lemma_colon_first(s.skip(1), i - 1);
    }
}

/// A payload without any colon byte has no split point.
pub proof fn lemma_colon_none(s: Seq<u8>)
    requires
        forall|j: int| 0 <= j < s.len() ==> s[j] != 0x3a,
    ensures
        colon_pos(s) is None,
    decreases s.len(),
{
    if s.len() > 0 {
        lemma_colon_none(s.skip(1));
    }
}

/// Decoding the text encoding of a colon-free, already-trimmed username
/// and an already-trimmed text recovers both exactly.
pub proof fn lemma_text_round_trip(u: Seq<u8>, m: Seq<u8>)
    requires
        forall|j: int| 0 <= j < u.len() ==> u[j] != 0x3a,
        trim(u) == u,
        trim(m) == m,
    ensures
        text_decoded(text_encoding(u, m)) == Some((u, m)),
{
    let s = text_encoding(u, m);
    assert(s[u.len() as int] == 0x3a);
    assert(forall|j: int| 0 <= j < u.len() ==> s[j] == u[j]);
    lemma_colon_first(s, u.len() as int);
    assert(s.take(u.len() as int) =~= u);
    assert(s.skip(u.len() as int + 1) =~= seq![0x20u8] + m);
    let sm = seq![0x20u8] + m;
    assert(is_space(sm[0]));
    assert(sm.skip(1) =~= m);
    assert(trim_start(sm) == trim_start(m));
    assert(trim(sm) == trim(m));
}

/// Encodes a message in the text format.
pub fn encode_text(username: &str, message: &str) -> (r: Vec<u8>)
    ensures
        r@ == text_encoding(str_bytes(username), str_bytes(message)),
{
    let mut out = str_to_bytes(username);
    out.push(0x3a);
    out.push(0x20);
    let mut mb = str_to_bytes(message);
    out.append(&mut mb);
    assert(out@ =~= text_encoding(str_bytes(username), str_bytes(message)));
    out
}

/// Narrows `[lo, hi)` to the indices of its ASCII-trimmed core.
fn trim_range(data: &[u8], lo: usize, hi: usize) -> (r: (usize, usize))
    requires
        lo <= hi <= data@.len(),
    ensures
        lo <= r.0 <= r.1 <= hi,
        data@.subrange(r.0 as int, r.1 as int) == trim(
            data@.subrange(lo as int, hi as int),
        ),
{
    let ghost whole = data@.subrange(lo as int, hi as int);
    let mut a: usize = lo;
    while a < hi && (data[a] == 0x20 || (0x09 <= data[a] && data[a] <= 0x0d))
        invariant
            lo <= a <= hi <= data@.len(),
            trim_start(data@.subrange(lo as int, hi as int)) == trim_start(
                data@.subrange(a as int, hi as int),
            ),
        decreases hi - a,
    {
        assert(data@.subrange(a as int, hi as int)[0] == data@[a as int]);
        assert(data@.subrange(a as int, hi as int).skip(1) =~= data@.subrange(
            a + 1,
            hi as int,
        ));
        a = a + 1;
    }
    proof {
        let cur = data@.subrange(a as int, hi as int);
        if a < hi {
            assert(cur[0] == data@[a as int]);
            assert(!is_space(cur[0]));
        }
        assert(trim_start(cur) == cur);
        assert(trim(data@.subrange(lo as int, hi as int)) == trim_end(cur));
    }
    let mut b: usize = hi;
    while b > a && (data[b - 1] == 0x20 || (0x09 <= data[b - 1] && data[b - 1] <= 0x0d))
        invariant
            lo <= a <= b <= hi <= data@.len(),
            trim_end(data@.subrange(a as int, hi as int)) == trim_end(
                data@.subrange(a as int, b as int),
            ),
        decreases b,
    {
        assert(data@.subrange(a as int, b as int).last() == data@[b - 1]);
        assert(data@.subrange(a as int, b as int).drop_last() =~= data@.subrange(
            a as int,
            b - 1,
        ));
        b = b - 1;
    }
    proof {
        let cur = data@.subrange(a as int, b as int);
        if b > a {
            assert(cur.last() == data@[b - 1]);
            assert(!is_space(cur.last()));
        }
        assert(trim_end(cur) == cur);
    }
    (a, b)
}

/// Decodes a text payload: splits on the first colon, trims both pieces,
/// and converts them to strings.  Fails exactly when no colon is present
/// or a trimmed piece is not valid UTF-8.
pub fn decode_text(data: &[u8]) -> (r: Result<(String, String), ChatError>)
    ensures
        match text_decoded(data@) {
            None => r matches Err(e) && e == ChatError::FormatError,
            Some(p) => {
                if valid_utf8(p.0) && valid_utf8(p.1) {
                    r matches Ok(q) && string_bytes(&q.0) == p.0 && string_bytes(&q.1) == p.1
                } else {
                    r matches Err(e) && e == ChatError::FormatError
                }
            },
        },
{
    let n = data.len();
    let mut pos: usize = 0;
    while pos < n && data[pos] != 0x3a
        invariant
            0 <= pos <= n == data@.len(),
            forall|j: int| 0 <= j < pos ==> data@[j] != 0x3a,
        decreases n - pos,
    {
        pos = pos + 1;
    }
    if pos == n {
        proof {
            lemma_colon_none(data@);
        }
        return Err(ChatError::FormatError);
    }
    proof {
        lemma_colon_first(data@, pos as int);
        assert(data@.take(pos as int) =~= data@.subrange(0, pos as int));
        assert(data@.skip(pos + 1) =~= data@.subrange(pos + 1, n as int));
    }
    let (a1, b1) = trim_range(data, 0, pos);
    let (a2, b2) = trim_range(data, pos + 1, n);
    let ub = slice_to_vec(slice_subrange(data, a1, b1));
    let mb = slice_to_vec(slice_subrange(data, a2, b2));
    let us = match bytes_to_string(ub) {
        Ok(s) => s,
        Err(_) => {
            return Err(ChatError::FormatError);
        },
    };
    let ms = match bytes_to_string(mb) {
        Ok(s) => s,
        Err(_) => {
            return Err(ChatError::FormatError);
        },
    };
    Ok((us, ms))
}

} // verus!
