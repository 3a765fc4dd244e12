//! Decimal numbers written as text, read the way `u64::from_str` reads them.
use vstd::prelude::*;

verus! {

/// `c` is one of the ASCII digits.
pub open spec fn is_digit(c: char) -> bool {
    '0' <= c && c <= '9'
}

/// The value of an ASCII digit.
pub open spec fn digit_value(c: char) -> nat {
    (c as int - '0' as int) as nat
}

/// The value of a run of digits, most significant first.
pub open spec fn digits_value(s: Seq<char>) -> nat
    decreases s.len(),
{
    if s.len() == 0 {
        0
    } else {
        digits_value(s.drop_last()) * 10 + digit_value(s.last())
    }
}

/// The digits of `s` once one leading `+` is set aside.
pub open spec fn unsigned_part(s: Seq<char>) -> Seq<char> {
    if s.len() > 0 && s[0] == '+' {
        s.drop_first()
    } else {
        s
    }
}

/// `s` read as an unsigned 64-bit number: an optional `+` and at least one
/// digit, with nothing else, and a value that fits.
pub open spec fn parse_u64(s: Seq<char>) -> Option<u64> {
    let d = unsigned_part(s);
    if d.len() > 0 && (forall|i: int| 0 <= i < d.len() ==> is_digit(#[trigger] d[i])) && digits_value(d)
        <= u64::MAX {
        Some(digits_value(d) as u64)
    } else {
        None
    }
}

proof fn lemma_digits_grow(s: Seq<char>, c: char)
    requires
        is_digit(c),
    ensures
        digits_value(s.push(c)) == digits_value(s) * 10 + digit_value(c),
        digits_value(s.push(c)) >= digits_value(s),
{
    assert(s.push(c).drop_last() =~= s);
}

/// Reads `s` as `u64::from_str` does: `None` where it is not a decimal
/// number or does not fit in 64 bits.
pub fn parse_decimal_u64(s: &str) -> (r: Option<u64>)
    ensures
        r == parse_u64(s@),
{
    let ghost d = unsigned_part(s@);
    let mut value: u64 = 0;
    let ghost mut n_digits: int = 0;
    let mut any_digit = false;
    let mut ok = true;
    let mut first = true;
    let mut signed = false;
    for c in iter: s.chars()
        invariant
            iter.seq() == s@,
            d == unsigned_part(s@),
            first <==> iter.index() == 0,
            signed <==> (s@.len() > 0 && s@[0] == '+' && iter.index() > 0),
            ok ==> n_digits == iter.index() - (if signed { 1int } else { 0int }),
            ok ==> forall|i: int| 0 <= i < n_digits ==> is_digit(#[trigger] d[i]),
            ok ==> value == digits_value(d.take(n_digits)),
            !ok ==> parse_u64(s@) is None,
            0 <= n_digits <= iter.index(),
            any_digit <==> n_digits > 0,
    {
        if first && c == '+' {
            signed = true;
        } else if ok {
            if '0' <= c && c <= '9' {
                let v: u64 = (c as u32 - '0' as u32) as u64;
                proof {
                    assert(d.take(n_digits + 1) =~= d.take(n_digits).push(c));
                    lemma_digits_grow(d.take(n_digits), c);
                }
                if value > (u64::MAX - v) / 10 {
                    proof {
                        assert(value * 10 + v > u64::MAX) by (nonlinear_arith)
                            requires
                                value > (u64::MAX - v) / 10,
                                v <= 9,
                        ;
                        assert(digits_value(d.take(n_digits + 1)) > u64::MAX);
                        lemma_digits_prefix_bound(d, n_digits + 1);
                    }
                    ok = false;
                } else {
                    assert(value * 10 + v <= u64::MAX) by (nonlinear_arith)
                        requires
                            value <= (u64::MAX - v) / 10,
                            v <= 9,
                    ;
                    value = value * 10 + v;
                    any_digit = true;
                    proof {
                        n_digits = n_digits + 1;
                    }
                }
            } else {
                proof {
                    assert(!is_digit(d[n_digits]));
                }
                ok = false;
            }
        }
        first = false;
    }
    if !ok {
        return None;
    }
    if !any_digit {
        return None;
    }
    assert(d.take(n_digits) =~= d);
    Some(value)
}

proof fn lemma_digits_prefix_bound(d: Seq<char>, k: int)
    requires
        0 <= k <= d.len(),
        forall|i: int| 0 <= i < k ==> is_digit(#[trigger] d[i]),
    ensures
        (forall|i: int| 0 <= i < d.len() ==> is_digit(#[trigger] d[i])) ==> digits_value(d.take(k))
            <= digits_value(d),
    decreases d.len() - k,
{
    if k < d.len() && (forall|i: int| 0 <= i < d.len() ==> is_digit(#[trigger] d[i])) {
        lemma_digits_prefix_bound(d, k + 1);
        assert(d.take(k + 1) =~= d.take(k).push(d[k]));
        lemma_digits_grow(d.take(k), d[k]);
    } else if k == d.len() {
        assert(d.take(k) =~= d);
    }
}

} // verus!
