//! Decimal numbers read from a token, with the syntax of std's integer
//! `from_str`: an optional sign, then one or more ASCII digits.

use vstd::prelude::*;

verus! {

/// `b` is an ASCII digit.
pub open spec fn is_digit(b: u8) -> bool {
    48 <= b <= 57
}

/// Every byte of `s` is an ASCII digit.
pub open spec fn all_digits(s: Seq<u8>) -> bool {
    forall|i: int| 0 <= i < s.len() ==> is_digit(#[trigger] s[i])
}

/// The number that the decimal digits `s` denote.
pub open spec fn digits_value(s: Seq<u8>) -> nat
    decreases s.len(),
{
    if s.len() == 0 {
        0
    } else {
        digits_value(s.drop_last()) * 10 + (s.last() - 48) as nat
    }
}

/// The value of the digits `d`, where there is at least one, all are digits,
/// and the value is at most `max`.
pub open spec fn bounded_digits(d: Seq<u8>, max: nat) -> Option<nat> {
    if d.len() > 0 && all_digits(d) && digits_value(d) <= max {
        Some(digits_value(d))
    } else {
        None
    }
}

/// An unsigned number of at most `max`: an optional `+`, then digits.
pub open spec fn unsigned_value(tok: Seq<u8>, max: nat) -> Option<nat> {
    if tok.len() > 0 && tok[0] == 43 {
        bounded_digits(tok.drop_first(), max)
    } else {
        bounded_digits(tok, max)
    }
}

/// A number in `i32`: an optional `+` or `-`, then digits.
pub open spec fn i32_value(tok: Seq<u8>) -> Option<int> {
    if tok.len() > 0 && tok[0] == 45 {
        match bounded_digits(tok.drop_first(), 0x8000_0000) {
            Some(v) => Some(-v),
            None => None,
        }
    } else {
        match unsigned_value(tok, 0x7fff_ffff) {
            Some(v) => Some(v as int),
            None => None,
        }
    }
}

/// Digits that follow more digits never denote a smaller number.
proof fn lemma_value_grows(s: Seq<u8>, i: int)
    requires
        0 <= i <= s.len(),
    ensures
        digits_value(s.subrange(0, i)) <= digits_value(s),
    decreases s.len() - i,
{
    if i < s.len() {
        lemma_value_grows(s, i + 1);
        assert(s.subrange(0, i + 1).drop_last() =~= s.subrange(0, i));
    } else {
        assert(s.subrange(0, i) =~= s);
    }
}

/// Reads `tok[from..]` as digits whose value is at most `max`.
fn parse_digits(tok: &[u8], from: usize, max: u64) -> (r: Option<u64>)
    requires
        from <= tok@.len(),
    ensures
        bounded_digits(tok@.subrange(from as int, tok@.len() as int), max as nat) == match r {
            Some(v) => Some(v as nat),
            None => None::<nat>,
        },
{
    let ghost d = tok@.subrange(from as int, tok@.len() as int);
    if from == tok.len() {
        return None;
    }
    let mut acc: u64 = 0;
    let mut i: usize = from;
    while i < tok.len()
        invariant
            from <= i <= tok@.len(),
            d == tok@.subrange(from as int, tok@.len() as int),
            all_digits(d.subrange(0, i - from)),
            acc as nat == digits_value(d.subrange(0, i - from)),
            acc <= max,
        decreases tok@.len() - i,
    {
        let b = tok[i];
        let ghost pre = d.subrange(0, i - from);
        let ghost next = d.subrange(0, i + 1 - from);
        assert(next.drop_last() =~= pre);
        assert(next.last() == b);
        if b < 48 || b > 57 {
            assert(!is_digit(d[i - from]));
            return None;
        }
        let digit: u64 = (b - 48) as u64;
        if digit > max || acc > (max - digit) / 10 {
            assert(digits_value(next) > max) by (nonlinear_arith)
                requires
                    digits_value(next) == acc * 10 + digit,
                    digit > max || acc > (max - digit) / 10,
                    acc >= 0,
            {
            }
            proof {
                lemma_value_grows(d, i + 1 - from);
            }
            return None;
        }
        assert(acc * 10 + digit <= max) by (nonlinear_arith)
            requires
                acc <= (max - digit) / 10,
                digit <= max,
        {
        }
        acc = acc * 10 + digit;
        i += 1;
        assert(all_digits(next)) by {
            assert forall|j: int| 0 <= j < next.len() implies is_digit(#[trigger] next[j]) by {
                if j < pre.len() {
                    assert(next[j] == pre[j]);
                }
            }
        }
    }
    assert(d.subrange(0, i - from) =~= d);
    Some(acc)
}

/// Reads `tok` as an unsigned number of at most `max`.
pub fn parse_unsigned(tok: &[u8], max: u64) -> (r: Option<u64>)
    ensures
        unsigned_value(tok@, max as nat) == match r {
            Some(v) => Some(v as nat),
            None => None::<nat>,
        },
{
    if tok.len() > 0 && tok[0] == 43 {
        assert(tok@.drop_first() =~= tok@.subrange(1, tok@.len() as int));
        parse_digits(tok, 1, max)
    } else {
        assert(tok@ =~= tok@.subrange(0, tok@.len() as int));
        parse_digits(tok, 0, max)
    }
}

/// Reads `tok` as a number in `i32`.
pub fn parse_i32(tok: &[u8]) -> (r: Option<i32>)
    ensures
        i32_value(tok@) == match r {
            Some(v) => Some(v as int),
            None => None::<int>,
        },
{
    if tok.len() > 0 && tok[0] == 45 {
        assert(tok@.drop_first() =~= tok@.subrange(1, tok@.len() as int));
        match parse_digits(tok, 1, 0x8000_0000) {
            Some(v) => Some((-(v as i64)) as i32),
            None => None,
        }
    } else {
        match parse_unsigned(tok, 0x7fff_ffff) {
            Some(v) => Some(v as i32),
            None => None,
        }
    }
}

} // verus!
