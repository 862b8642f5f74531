//! Decimal rendering and parsing of integers, used by the JSON wire
//! format.  Rendering is canonical (no leading zeros, no `-0`); the
//! parser accepts exactly the canonical renderings that fit in `i64`.

use vstd::prelude::*;

verus! {

/// An ASCII decimal digit.
pub open spec fn is_digit(b: u8) -> bool {
    0x30 <= b <= 0x39
}

/// The canonical decimal digits of a natural number, most significant first.
pub open spec fn dec_nat(n: nat) -> Seq<u8>
    decreases n,
{
    if n < 10 {
        seq![(0x30 + n) as u8]
    } else {
        dec_nat(n / 10) + seq![(0x30 + n % 10) as u8]
    }
}

/// The canonical decimal rendering of an integer: a minus sign for
/// negative values, then the digits of the magnitude.
pub open spec fn dec_int(n: int) -> Seq<u8> {
    if n < 0 {
        seq![0x2du8] + dec_nat((-n) as nat)
    } else {
        dec_nat(n as nat)
    }
}

/// The value of a digit string, folded most significant first.
pub open spec fn digits_value(s: Seq<u8>) -> int
    decreases s.len(),
{
    if s.len() == 0 {
        0
    } else {
        digits_value(s.drop_last()) * 10 + (s.last() - 0x30)
    }
}

/// Length of the longest prefix of `s` made of decimal digits.
pub open spec fn digit_run_len(s: Seq<u8>) -> int
    decreases s.len(),
{
    if s.len() == 0 || !is_digit(s[0]) {
        0
    } else {
        1 + digit_run_len(s.skip(1))
    }
}

/// Parses a canonical unsigned decimal prefix: at least one digit, no
/// leading zero.  Yields the value and the remaining suffix.
pub open spec fn parse_nat(s: Seq<u8>) -> Option<(int, Seq<u8>)> {
    let l = digit_run_len(s);
    if l == 0 {
        None
    } else if s[0] == 0x30 && l > 1 {
        None
    } else {
        Some((digits_value(s.take(l)), s.skip(l)))
    }
}

/// Parses a canonical signed decimal prefix that fits in `i64`.
pub open spec fn parse_int(s: Seq<u8>) -> Option<(int, Seq<u8>)> {
    if s.len() > 0 && s[0] == 0x2d {
        match parse_nat(s.skip(1)) {
            Some((v, r)) => if 1 <= v && -v >= i64::MIN { Some((-v, r)) } else { None },
            None => None,
        }
    } else {
        match parse_nat(s) {
            Some((v, r)) => if v <= i64::MAX { Some((v, r)) } else { None },
            None => None,
        }
    }
}

/// The canonical digits of `n` are nonempty decimal digits without a
/// leading zero, and fold back to `n`.
pub proof fn lemma_dec_nat_props(n: nat)
    ensures
        dec_nat(n).len() >= 1,
        forall|i: int| 0 <= i < dec_nat(n).len() ==> is_digit(#[trigger] dec_nat(n)[i]),
        digits_value(dec_nat(n)) == n,
        n >= 1 ==> dec_nat(n)[0] != 0x30,
        n >= 10 ==> dec_nat(n).len() >= 2,
    decreases n,
{
    if n < 10 {
        let s0 = seq![(0x30 + n) as u8];
        assert(dec_nat(n) =~= s0);
        assert(s0.drop_last() =~= Seq::<u8>::empty());
        assert(digits_value(s0.drop_last()) == 0);
        assert(s0.last() == (0x30 + n) as u8);
        assert(digits_value(dec_nat(n)) == n);
    } else {
        lemma_dec_nat_props(n / 10);
        let pre = dec_nat(n / 10);
        let d = (0x30 + n % 10) as u8;
        assert(dec_nat(n) == pre + seq![d]);
        assert((pre + seq![d]).drop_last() =~= pre);
        assert((pre + seq![d]).last() == d);
        assert(digits_value(dec_nat(n)) == digits_value(pre) * 10 + (d - 0x30));
        assert(n / 10 * 10 + n % 10 == n) by (nonlinear_arith);
        assert(dec_nat(n)[0] == pre[0]);
    }
}

/// `digit_run_len` is the unique split point: everything before it is a
/// digit and the byte at it (if any) is not.
pub proof fn lemma_digit_run(s: Seq<u8>, l: int)
    requires
        0 <= l <= s.len(),
        forall|j: int| 0 <= j < l ==> is_digit(#[trigger] s[j]),
        l == s.len() || !is_digit(s[l]),
    ensures
        digit_run_len(s) == l,
    decreases l,
{
    if l == 0 {
    } else {
        assert(is_digit(s[0]));
        lemma_digit_run(s.skip(1), l - 1);
    }
}

/// A digit string has a non-negative value.
pub proof fn lemma_digits_value_nonneg(s: Seq<u8>)
    requires
        forall|j: int| 0 <= j < s.len() ==> is_digit(#[trigger] s[j]),
    ensures
        digits_value(s) >= 0,
    decreases s.len(),
{
    if s.len() > 0 {
        lemma_digits_value_nonneg(s.drop_last());
    }
}

/// Extending a digit string to the right cannot shrink its value.
pub proof fn lemma_digits_value_prefix(s: Seq<u8>, k: int)
    requires
        forall|j: int| 0 <= j < s.len() ==> is_digit(#[trigger] s[j]),
        0 <= k <= s.len(),
    ensures
        digits_value(s) >= digits_value(s.take(k)),
    decreases s.len() - k,
{
    if k == s.len() {
        assert(s.take(k) =~= s);
    } else {
        lemma_digits_value_prefix(s, k + 1);
        let t = s.take(k + 1);
        assert(t.drop_last() =~= s.take(k));
        assert(t.last() == s[k]);
        lemma_digits_value_nonneg(s.take(k));
        assert(digits_value(t) == digits_value(s.take(k)) * 10 + (s[k] - 0x30));
    }
}

/// Parsing the canonical rendering of an `i64`, followed by anything that
/// does not begin with a digit, yields the value and that suffix.
pub proof fn lemma_parse_dec_int(n: int, rest: Seq<u8>)
    requires
        i64::MIN <= n <= i64::MAX,
        rest.len() == 0 || !is_digit(rest[0]),
    ensures
        parse_int(dec_int(n) + rest) == Some((n, rest)),
{
    if n >= 0 {
        let digits = dec_nat(n as nat);
        lemma_dec_nat_props(n as nat);
        let s = dec_int(n) + rest;
        assert(s =~= digits + rest);
        assert(forall|j: int| 0 <= j < digits.len() ==> s[j] == digits[j]);
        lemma_digit_run(s, digits.len() as int);
        assert(s.take(digits.len() as int) =~= digits);
        assert(s.skip(digits.len() as int) =~= rest);
        assert(s[0] == digits[0]);
        if n == 0 {
            assert(digits.len() == 1);
        } else {
            assert(s[0] != 0x30);
        }
        assert(parse_nat(s) == Some((n, rest)));
        assert(!(s[0] == 0x2d));
    } else {
        let m = (-n) as nat;
        let digits = dec_nat(m);
        lemma_dec_nat_props(m);
        let s = dec_int(n) + rest;
        assert(s =~= seq![0x2du8] + digits + rest);
        assert(s[0] == 0x2d);
        let t = s.skip(1);
        assert(t =~= digits + rest);
        assert(forall|j: int| 0 <= j < digits.len() ==> t[j] == digits[j]);
        lemma_digit_run(t, digits.len() as int);
        assert(t.take(digits.len() as int) =~= digits);
        assert(t.skip(digits.len() as int) =~= rest);
        assert(t[0] == digits[0]);
        assert(t[0] != 0x30);
        assert(parse_nat(t) == Some((m as int, rest)));
    }
}

/// Appends the canonical decimal digits of `n`.
pub fn push_dec_u64(out: &mut Vec<u8>, n: u64)
    ensures
        final(out)@ == old(out)@ + dec_nat(n as nat),
    decreases n,
{
    if n < 10 {
        out.push((0x30 + n) as u8);
        assert(final(out)@ =~= old(out)@ + dec_nat(n as nat));
    } else {
        let ghost mid = old(out)@ + dec_nat((n / 10) as nat);
        push_dec_u64(out, n / 10);
        out.push((0x30 + n % 10) as u8);
        assert(final(out)@ =~= old(out)@ + dec_nat(n as nat));
    }
}

/// Appends the canonical decimal rendering of `n`, sign included.
pub fn push_dec_i64(out: &mut Vec<u8>, n: i64)
    ensures
        final(out)@ == old(out)@ + dec_int(n as int),
{
    if n < 0 {
        out.push(0x2d);
        let m: u64 = if n == i64::MIN {
            9223372036854775808u64
        } else {
            (-n) as u64
        };
        assert(m == -(n as int));
        push_dec_u64(out, m);
        assert(final(out)@ =~= old(out)@ + dec_int(n as int));
    } else {
        push_dec_u64(out, n as u64);
    }
}

/// Parses a canonical signed decimal prefix of `s`, returning the value
/// and the number of bytes consumed; `None` exactly where the
/// specification-level parser rejects.
pub fn parse_int_exec(s: &[u8]) -> (r: Option<(i64, usize)>)
    ensures
        match parse_int(s@) {
            Some((v, rest)) => {
                &&& r matches Some(p)
                &&& p.0 == v
                &&& p.1 <= s@.len()
                &&& s@.skip(p.1 as int) == rest
            },
            None => r is None,
        },
{
    let neg: bool = s.len() > 0 && s[0] == 0x2d;
    let start: usize = if neg { 1 } else { 0 };
    let ghost body = if neg { s@.skip(1) } else { s@ };
    assert(!neg ==> body == s@);
    let mut l: usize = 0;
    while start + l < s.len() && 0x30 <= s[start + l] && s[start + l] <= 0x39
        invariant
            start == if neg { 1int } else { 0int },
            neg ==> body == s@.skip(1),
            !neg ==> body == s@,
            start + l <= s.len(),
            forall|j: int| 0 <= j < l ==> is_digit(#[trigger] body[j]),
        decreases s.len() - start - l,
    {
        assert(body[l as int] == s@[start + l]);
        l = l + 1;
    }
    proof {
        assert(l == body.len() || !is_digit(body[l as int]));
        lemma_digit_run(body, l as int);
    }
    if l == 0 {
        return None;
    }
    if l > 1 && s[start] == 0x30 {
        assert(body[0] == 0x30);
        return None;
    }
    let limit: u64 = if neg { 9223372036854775808u64 } else { 9223372036854775807u64 };
    let mut acc: u64 = 0;
    let mut i: usize = 0;
    while i < l
        invariant
            start == if neg { 1int } else { 0int },
            neg ==> body == s@.skip(1),
            !neg ==> body == s@,
            start + l <= s.len(),
            0 <= i <= l,
            digit_run_len(body) == l,
            forall|j: int| 0 <= j < l ==> is_digit(#[trigger] body[j]),
            acc == digits_value(body.take(i as int)),
            acc <= limit,
            limit == if neg { 9223372036854775808u64 } else { 9223372036854775807u64 },
            1 <= l,
            l > 1 ==> body[0] != 0x30,
            neg ==> s@.len() > 0 && s@[0] == 0x2d,
            !neg ==> s@.len() == 0 || s@[0] != 0x2d,
        decreases l - i,
    {
        assert(body[i as int] == s@[start + i]);
        assert(is_digit(s@[start + i as int]));
        let d: u64 = (s[start + i] - 0x30) as u64;
        assert(d <= 9);
        proof {
            assert(body.take(i + 1).drop_last() =~= body.take(i as int));
            assert(body.take(i + 1).last() == body[i as int]);
            assert(digits_value(body.take(i + 1)) == digits_value(body.take(i as int)) * 10 + d);
        }
        if acc > (limit - d) / 10 {
            proof {
                assert(acc * 10 + d > limit) by (nonlinear_arith)
                    requires
                        acc > (limit - d) / 10,
                        d <= 9,
                        d <= limit,
                        acc >= 0,
                ;
                lemma_digits_value_prefix(body.take(l as int), i + 1);
                assert(body.take(l as int).take(i + 1) =~= body.take(i + 1));
                assert(digits_value(body.take(l as int)) > limit);
                let v = digits_value(body.take(l as int));
                assert(parse_nat(body) == Some((v, body.skip(l as int))));
                if neg {
                    assert(s@[0] == 0x2d);
                    assert(!(-v >= i64::MIN));
                } else {
                    assert(!(v <= i64::MAX));
                }
            }
            return None;
        }
        acc = acc * 10 + d;
        i = i + 1;
    }
    assert(body.take(l as int).take(l as int) =~= body.take(l as int));
    proof {
        let v = digits_value(body.take(l as int));
        assert(parse_nat(body) == Some((v, body.skip(l as int))));
        assert(v == acc);
    }
    if neg {
        if acc == 0 {
            assert(s@[0] == 0x2d);
            return None;
        }
        let v: i64 = if acc == 9223372036854775808u64 {
            i64::MIN
        } else {
            -(acc as i64)
        };
        assert(v == -digits_value(body.take(l as int)));
        assert(s@[0] == 0x2d);
        assert(s@.skip(1 + l as int) =~= body.skip(l as int));
        Some((v, 1 + l))
    } else {
        assert(s@.skip(l as int) == body.skip(l as int));
        Some((acc as i64, l))
    }
}

} // verus!
