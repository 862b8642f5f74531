//! Base-128 variable-length integers, least significant group first, as
//! used by the fixed binary wire format.  Encoding is canonical (no
//! trailing zero group); the parser accepts exactly the canonical
//! encodings of values that fit in `u64`.

use vstd::prelude::*;
use vstd::slice::slice_subrange;

verus! {

/// The canonical base-128 encoding of `n`: each byte carries seven bits,
/// the high bit marks a continuation.
pub open spec fn varint(n: nat) -> Seq<u8>
    decreases n,
{
    if n < 128 {
        seq![n as u8]
    } else {
        seq![(128 + n % 128) as u8] + varint(n / 128)
    }
}

/// Parses a canonical base-128 prefix that fits in `u64`, yielding the
/// value and the remaining suffix.
pub open spec fn parse_varint(s: Seq<u8>) -> Option<(int, Seq<u8>)>
    decreases s.len(),
{
    if s.len() == 0 {
        None
    } else if s[0] < 128 {
        Some((s[0] as int, s.skip(1)))
    } else {
        match parse_varint(s.skip(1)) {
            Some((v, r)) => if 1 <= v && (s[0] - 128) + v * 128 <= u64::MAX {
                Some(((s[0] - 128) + v * 128, r))
            } else {
                None
            },
            None => None,
        }
    }
}

/// Parsing the canonical encoding of `n` yields `n` and the suffix.
pub proof fn lemma_parse_varint(n: nat, rest: Seq<u8>)
    requires
        n <= u64::MAX,
    ensures
        parse_varint(varint(n) + rest) == Some((n as int, rest)),
    decreases n,
{
    let s = varint(n) + rest;
    if n < 128 {
        assert(s[0] == n as u8);
        assert(s.skip(1) =~= rest);
    } else {
        assert(s[0] == (128 + n % 128) as u8);
        assert(s.skip(1) =~= varint(n / 128) + rest);
        lemma_parse_varint(n / 128, rest);
        assert(n / 128 >= 1);
        assert((s[0] - 128) + (n / 128) * 128 == n) by (nonlinear_arith)
            requires
                s[0] == (128 + n % 128) as u8,
                n >= 128,
        ;
    }
}

/// Appends the canonical base-128 encoding of `n`.
pub fn push_varint(out: &mut Vec<u8>, n: u64)
    ensures
        final(out)@ == old(out)@ + varint(n as nat),
    decreases n,
{
    if n < 128 {
        out.push(n as u8);
        assert(final(out)@ =~= old(out)@ + varint(n as nat));
    } else {
        out.push((128 + n % 128) as u8);
        push_varint(out, n / 128);
        assert(final(out)@ =~= old(out)@ + varint(n as nat));
    }
}

/// Parses a canonical base-128 prefix of `s`, returning the value and the
/// number of bytes consumed; `None` exactly where the
/// specification-level parser rejects.
pub fn parse_varint_exec(s: &[u8]) -> (r: Option<(u64, usize)>)
    ensures
        match parse_varint(s@) {
            Some((v, rest)) => {
                &&& r matches Some(p)
                &&& p.0 == v
                &&& 1 <= p.1 <= s@.len()
                &&& s@.skip(p.1 as int) == rest
            },
            None => r is None,
        },
    decreases s.len(),
{
    if s.len() == 0 {
        return None;
    }
    let b = s[0];
    if b < 128 {
        return Some((b as u64, 1));
    }
    let tail = slice_subrange(s, 1, s.len());
    assert(tail@ == s@.skip(1));
    match parse_varint_exec(tail) {
        None => None,
        Some((v, used)) => {
            if v == 0 {
                return None;
            }
            let low: u64 = (b - 128) as u64;
            if v > (u64::MAX - low) / 128 {
                proof {
                    assert(low + v * 128 > u64::MAX) by (nonlinear_arith)
                        requires
                            v > (u64::MAX - low) / 128,
                            low <= 127,
                            v >= 0,
                    ;
                }
                return None;
            }
            let val: u64 = low + v * 128;
            assert(s@.skip(1 + used as int) == tail@.skip(used as int));
            Some((val, 1 + used))
        },
    }
}

} // verus!
