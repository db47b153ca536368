//! Decimal text of integers: rendering and `i64::from_str` parsing.
use crate::text::{chars_of, is_ascii_digit, string_of};
use vstd::prelude::*;

verus! {

pub open spec fn digit_char(d: int) -> char {
    (d + 48) as char
}

/// Decimal digits of a natural number, without leading zeros.
pub open spec fn nat_digits(n: nat) -> Seq<char>
    decreases n,
{
    if n < 10 {
        seq![digit_char(n as int)]
    } else {
        nat_digits(n / 10).push(digit_char((n % 10) as int))
    }
}

/// `i64`'s `Display`: optional minus sign, then the digits of the magnitude.
pub open spec fn int_text(i: int) -> Seq<char> {
    if i < 0 {
        seq!['-'] + nat_digits((-i) as nat)
    } else {
        nat_digits(i as nat)
    }
}

fn push_digits(n: u64, out: &mut Vec<char>)
    ensures
        final(out)@ == old(out)@ + nat_digits(n as nat),
    decreases n,
{
    if n >= 10 {
        push_digits(n / 10, out);
    }
    let d: u8 = (n % 10) as u8;
    let c: char = (d + 48u8) as char;
    proof {
        assert(c == digit_char((n % 10) as int));
    }
    out.push(c);
    proof {
        if n >= 10 {
            assert(nat_digits(n as nat) == nat_digits((n / 10) as nat).push(digit_char((n % 10) as int)));
        }
    }
}

/// Decimal text of an integer.
pub fn int_to_text(i: i64) -> (r: String)
    ensures
        r@ == int_text(i as int),
{
    let mut out: Vec<char> = Vec::new();
    let magnitude: u64 = if i < 0 {
        out.push('-');
        let m: i64 = -(i + 1);
        (m as u64) + 1
    } else {
        i as u64
    };
    push_digits(magnitude, &mut out);
    proof {
        if i < 0 {
            assert(out@ =~= seq!['-'] + nat_digits((-i) as nat));
        } else {
            assert(out@ =~= nat_digits(i as nat));
        }
    }
    string_of(out.as_slice())
}

pub open spec fn all_digits(s: Seq<char>) -> bool {
    forall|k: int| 0 <= k < s.len() ==> is_ascii_digit(#[trigger] s[k])
}

/// The value of a string of decimal digits.
pub open spec fn digits_value(s: Seq<char>) -> nat
    decreases s.len(),
{
    if s.len() == 0 {
        0
    } else {
        (digits_value(s.drop_last()) * 10 + (s.last() as int - 48)) as nat
    }
}

/// `i64::from_str`: an optional `+` or `-`, then one or more ASCII digits,
/// with the value in range.
pub open spec fn parse_i64_spec(s: Seq<char>) -> Option<i64> {
    let neg = s.len() > 0 && s[0] == '-';
    let body = if s.len() > 0 && (s[0] == '-' || s[0] == '+') {
        s.drop_first()
    } else {
        s
    };
    let v: int = if neg {
        -(digits_value(body) as int)
    } else {
        digits_value(body) as int
    };
    if body.len() == 0 || !all_digits(body) || v < i64::MIN || v > i64::MAX {
        None
    } else {
        Some(v as i64)
    }
}

proof fn lemma_digits_value_grows(s: Seq<char>, c: char)
    requires
        is_ascii_digit(c),
    ensures
        digits_value(s.push(c)) >= digits_value(s),
{
    assert(s.push(c).drop_last() =~= s);
}

/// Parses decimal integer text as `i64::from_str` does.
pub fn parse_i64(text: &str) -> (r: Option<i64>)
    ensures
        r == parse_i64_spec(text@),
{
    let s = chars_of(text);
    let n = s.len();
    let neg = n > 0 && s[0] == '-';
    let start: usize = if n > 0 && (s[0] == '-' || s[0] == '+') { 1 } else { 0 };
    let ghost body = if n > 0 && (s@[0] == '-' || s@[0] == '+') { s@.drop_first() } else { s@ };
    proof {
        assert(body =~= s@.subrange(start as int, n as int));
    }
    if start == n {
        return None;
    }
    // Track the magnitude until it exceeds every i64 magnitude.
    let limit: u128 = 9223372036854775808u128;
    let mut acc: u128 = 0;
    let mut big = false;
    let mut k: usize = start;
    while k < n
        invariant
            start <= k <= n == s@.len(),
            s@ == text@,
            body == (if n > 0 && (s@[0] == '-' || s@[0] == '+') { s@.drop_first() } else { s@ }),
            body == s@.subrange(start as int, n as int),
            all_digits(s@.subrange(start as int, k as int)),
            !big ==> acc == digits_value(s@.subrange(start as int, k as int)) && acc <= limit,
            big ==> digits_value(s@.subrange(start as int, k as int)) > limit,
            limit == 9223372036854775808u128,
        decreases n - k,
    {
        let c = s[k];
        if !('0' <= c && c <= '9') {
            proof {
                assert(body[k - start] == c);
            }
            return None;
        }
        proof {
            let pre = s@.subrange(start as int, k as int);
            assert(s@.subrange(start as int, k + 1) =~= pre.push(c));
            assert(pre.push(c).drop_last() =~= pre);
            lemma_digits_value_grows(pre, c);
        }
        if !big {
            let d: u8 = c as u8;
            let next: u128 = acc * 10 + ((d - 48u8) as u128);
            if next > limit {
                big = true;
            } else {
                acc = next;
            }
        }
        k = k + 1;
    }
    if big {
        return None;
    }
    if neg {
        let m: i128 = acc as i128;
        Some((-m) as i64)
    } else if acc <= 9223372036854775807u128 {
        Some(acc as i64)
    } else {
        None
    }
}

/// A positive identifier given as path text (`"12"`); anything else is rejected.
pub fn parse_positive_id(text: &str) -> (r: Option<i64>)
    ensures
        r == (match parse_i64_spec(text@) {
            Some(v) => if v > 0 { Some(v) } else { None },
            None => None,
        }),
{
    match parse_i64(text) {
        Some(v) => if v > 0 { Some(v) } else { None },
        None => None,
    }
}

} // verus!

verus! {

/// Decimal text of an unsigned integer.
pub fn nat_to_text(n: u64) -> (r: String)
    ensures
        r@ == nat_digits(n as nat),
{
    let mut out: Vec<char> = Vec::new();
    push_digits(n, &mut out);
    proof {
        assert(out@ =~= nat_digits(n as nat));
    }
    string_of(out.as_slice())
}

} // verus!
