//! Decimal text of integers: the literals of `push_const`, `halt` and
//! `input`, and what `print` writes.
use vstd::prelude::*;

verus! {

pub const DIGIT_ZERO: u8 = 48;

pub const PLUS: u8 = 43;

pub const MINUS: u8 = 45;

pub open spec fn is_digit(b: u8) -> bool {
    48 <= b && b <= 57
}

/// The decimal digits of `n`, most significant first, without leading zeros.
pub open spec fn decimal(n: nat) -> Seq<u8>
    decreases n,
{
    if n < 10 {
        seq![(48 + n) as u8]
    } else {
        decimal(n / 10).push((48 + n % 10) as u8)
    }
}

/// The decimal text of a signed value: a minus sign before negative ones.
pub open spec fn signed_decimal(v: int) -> Seq<u8> {
    if v < 0 {
        seq![MINUS] + decimal((-v) as nat)
    } else {
        decimal(v as nat)
    }
}

/// Whether `s` is one or more ASCII digits.
pub open spec fn all_digits(s: Seq<u8>) -> bool {
    s.len() > 0 && forall|i: int| 0 <= i < s.len() ==> is_digit(s[i])
}

/// The value of a string of digits.
pub open spec fn digits_value(s: Seq<u8>) -> nat
    decreases s.len(),
{
    if s.len() == 0 {
        0
    } else {
        digits_value(s.drop_last()) * 10 + (s.last() - 48) as nat
    }
}

/// `s` without one leading `+`.
pub open spec fn drop_plus(s: Seq<u8>) -> Seq<u8> {
    if s.len() > 0 && s[0] == PLUS {
        s.drop_first()
    } else {
        s
    }
}

/// An unsigned literal: an optional `+`, then digits, of a value that fits
/// in 64 bits.
pub open spec fn parse_unsigned(s: Seq<u8>) -> Option<u64> {
    let d = drop_plus(s);
    if all_digits(d) && digits_value(d) <= u64::MAX {
        Some(digits_value(d) as u64)
    } else {
        None
    }
}

/// A signed literal: an optional `+` or `-`, then digits, of a value in the
/// range of `i64`.
pub open spec fn parse_signed(s: Seq<u8>) -> Option<i64> {
    if s.len() > 0 && s[0] == MINUS {
        let d = s.drop_first();
        if all_digits(d) && digits_value(d) <= 0x8000_0000_0000_0000 {
            Some((-digits_value(d)) as i64)
        } else {
            None
        }
    } else {
        let d = drop_plus(s);
        if all_digits(d) && digits_value(d) <= i64::MAX {
            Some(digits_value(d) as i64)
        } else {
            None
        }
    }
}

/// A signed literal in the range of `i32`.
pub open spec fn parse_i32(s: Seq<u8>) -> Option<i32> {
    match parse_signed(s) {
        Some(v) => if i32::MIN <= v <= i32::MAX {
            Some(v as i32)
        } else {
            None
        },
        None => None,
    }
}

/// The decimal digits of `n`.
pub fn format_unsigned(n: u64) -> (r: Vec<u8>)
    ensures
        r@ == decimal(n as nat),
    decreases n,
{
    if n < 10 {
        let mut r: Vec<u8> = Vec::new();
        r.push(48 + n as u8);
        assert(r@ =~= decimal(n as nat));
        r
    } else {
        let mut r = format_unsigned(n / 10);
        r.push(48 + (n % 10) as u8);
        r
    }
}

/// The decimal text of `v`, with a minus sign when it is negative.
pub fn format_signed(v: i64) -> (r: Vec<u8>)
    ensures
        r@ == signed_decimal(v as int),
{
    if v < 0 {
        let m: u64 = if v == i64::MIN {
            0x8000_0000_0000_0000
        } else {
            (-v) as u64
        };
        let digits = format_unsigned(m);
        let mut r: Vec<u8> = Vec::new();
        r.push(MINUS);
        let mut i: usize = 0;
        while i < digits.len()
            invariant
                i <= digits@.len(),
                r@ == seq![MINUS] + digits@.subrange(0, i as int),
            decreases digits@.len() - i,
        {
            r.push(digits[i]);
            i = i + 1;
            assert(r@ =~= seq![MINUS] + digits@.subrange(0, i as int));
        }
        assert(digits@.subrange(0, i as int) =~= digits@);
        r
    } else {
        format_unsigned(v as u64)
    }
}

proof fn lemma_digits_value_grows(s: Seq<u8>, i: int, j: int)
    requires
        0 <= i <= j <= s.len(),
    ensures
        digits_value(s.subrange(0, i)) <= digits_value(s.subrange(0, j)),
    decreases j - i,
{
    if i < j {
        lemma_digits_value_grows(s, i, j - 1);
        assert(s.subrange(0, j).drop_last() =~= s.subrange(0, j - 1));
    }
}

/// The value of the digits `s[from..]`, or `None` when one is not a digit,
/// there are none, or the value exceeds `limit`.
fn digits_up_to(s: &[u8], from: usize, limit: u64) -> (r: Option<u64>)
    requires
        from <= s@.len(),
    ensures
        match r {
            Some(v) => all_digits(s@.subrange(from as int, s@.len() as int)) && v == digits_value(
                s@.subrange(from as int, s@.len() as int),
            ) && v <= limit,
            None => !(all_digits(s@.subrange(from as int, s@.len() as int)) && digits_value(
                s@.subrange(from as int, s@.len() as int),
            ) <= limit),
        },
{
    let ghost d = s@.subrange(from as int, s@.len() as int);
    if from == s.len() {
        return None;
    }
    let mut acc: u64 = 0;
    let mut i: usize = from;
    while i < s.len()
        invariant
            from <= i <= s@.len(),
            d == s@.subrange(from as int, s@.len() as int),
            forall|k: int| 0 <= k < i - from ==> is_digit(d[k]),
            acc == digits_value(d.subrange(0, i - from)),
            acc <= limit,
        decreases s@.len() - i,
    {
        let b = s[i];
        assert(d[i - from] == b);
        if !(48 <= b && b <= 57) {
            return None;
        }
        let digit = (b - 48) as u64;
        assert(d.subrange(0, i - from + 1).drop_last() =~= d.subrange(0, i - from));
        if digit > limit {
            proof {
                lemma_digits_value_grows(d, i - from + 1, d.len() as int);
                assert(d.subrange(0, d.len() as int) =~= d);
            }
            return None;
        }
        if acc > (limit - digit) / 10 {
            proof {
                assert(acc * 10 + digit > limit) by (nonlinear_arith)
                    requires
                        acc > (limit - digit) / 10,
                        digit <= limit,
                ;
                lemma_digits_value_grows(d, i - from + 1, d.len() as int);
                assert(d.subrange(0, d.len() as int) =~= d);
            }
            return None;
        }
        proof {
            assert(acc * 10 + digit <= limit) by (nonlinear_arith)
                requires
                    acc <= (limit - digit) / 10,
                    digit <= limit,
            ;
        }
        acc = acc * 10 + digit;
        i = i + 1;
    }
    assert(d.subrange(0, d.len() as int) =~= d);
    Some(acc)
}

/// Reads an unsigned literal.
pub fn parse_u64_bytes(s: &[u8]) -> (r: Option<u64>)
    ensures
        r == parse_unsigned(s@),
{
    let from: usize = if s.len() > 0 && s[0] == PLUS {
        1
    } else {
        0
    };
    assert(s@.subrange(from as int, s@.len() as int) =~= drop_plus(s@));
    digits_up_to(s, from, u64::MAX)
}

/// Reads a signed literal.
pub fn parse_i64_bytes(s: &[u8]) -> (r: Option<i64>)
    ensures
        r == parse_signed(s@),
{
    if s.len() > 0 && s[0] == MINUS {
        assert(s@.subrange(1, s@.len() as int) =~= s@.drop_first());
        match digits_up_to(s, 1, 0x8000_0000_0000_0000) {
            Some(v) => {
                if v == 0x8000_0000_0000_0000 {
                    Some(i64::MIN)
                } else {
                    Some(-(v as i64))
                }
            },
            None => None,
        }
    } else {
        let from: usize = if s.len() > 0 && s[0] == PLUS {
            1
        } else {
            0
        };
        assert(s@.subrange(from as int, s@.len() as int) =~= drop_plus(s@));
        match digits_up_to(s, from, 0x7fff_ffff_ffff_ffff) {
            Some(v) => Some(v as i64),
            None => None,
        }
    }
}

/// Reads a signed literal that fits in `i32`.
pub fn parse_i32_bytes(s: &[u8]) -> (r: Option<i32>)
    ensures
        r == parse_i32(s@),
{
    match parse_i64_bytes(s) {
        Some(v) => if -2147483648 <= v && v <= 2147483647 {
            Some(v as i32)
        } else {
            None
        },
        None => None,
    }
}

} // verus!
