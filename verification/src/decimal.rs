//! Exact decimal numbers as plain values, computed by `rust_decimal`.
//!
//! A `Dec` holds the mantissa, scale and sign flag of a `rust_decimal::Decimal`
//! (value = mantissa / 10^scale; the flag also tells a negative zero from a
//! positive one). Arithmetic and parsing are performed by
//! `rust_decimal`; their results are named below and carried through the
//! library's contracts.
use rust_decimal::Decimal;
use vstd::arithmetic::power::pow;
use vstd::prelude::*;

verus! {

/// The largest mantissa magnitude of a `Decimal` (2^96 - 1).
pub const MAX_MANTISSA: i128 = 79228162514264337593543950335i128;

#[derive(Debug, Clone, Copy)]
pub struct Dec {
    pub mantissa: i128,
    pub scale: u32,
    /// `Decimal::is_sign_negative`: set for a negative mantissa, clear for a
    /// positive one, either way for zero.
    pub negative: bool,
}

pub open spec fn pow10(n: nat) -> int {
    pow(10, n)
}

impl Dec {
    /// Within `Decimal`'s range: at most 96 bits of mantissa, scale at most
    /// 28, and a sign flag that agrees with a non-zero mantissa.
    pub open spec fn wf(self) -> bool {
        &&& -MAX_MANTISSA <= self.mantissa <= MAX_MANTISSA
        &&& self.scale <= 28
        &&& self.mantissa > 0 ==> !self.negative
        &&& self.mantissa < 0 ==> self.negative
    }

    /// `self` is numerically less than `other`.
    pub open spec fn lt(self, other: Dec) -> bool {
        self.mantissa * pow10(other.scale as nat) < other.mantissa * pow10(self.scale as nat)
    }

    /// `self` and `other` denote the same number (scales may differ).
    pub open spec fn same_value(self, other: Dec) -> bool {
        self.mantissa * pow10(other.scale as nat) == other.mantissa * pow10(self.scale as nat)
    }

    pub open spec fn is_positive(self) -> bool {
        self.mantissa > 0
    }

    /// `Decimal::abs`: the magnitude, with the sign flag cleared.
    pub open spec fn spec_abs(self) -> Dec {
        Dec {
            mantissa: (if self.mantissa < 0 { -self.mantissa } else { self.mantissa as int }) as i128,
            scale: self.scale,
            negative: false,
        }
    }

    /// `Decimal`'s negation: the mantissa negated and the sign flag flipped,
    /// so that zero becomes a negative zero and back.
    pub open spec fn spec_neg(self) -> Dec {
        Dec { mantissa: (-self.mantissa) as i128, scale: self.scale, negative: !self.negative }
    }

    /// `Decimal::new`: `mantissa / 10^scale`.
    pub fn new(mantissa: i64, scale: u32) -> (r: Dec)
        requires
            scale <= 28,
        ensures
            r.wf(),
            r.mantissa == mantissa,
            r.scale == scale,
            r.negative == (mantissa < 0),
    {
        Dec { mantissa: mantissa as i128, scale, negative: mantissa < 0 }
    }

    /// `Decimal::from` an unsigned count.
    pub fn from_u64(n: u64) -> (r: Dec)
        ensures
            r.wf(),
            r.mantissa == n,
            r.scale == 0,
            !r.negative,
    {
        Dec { mantissa: n as i128, scale: 0, negative: false }
    }

    /// `Decimal::ZERO`.
    pub fn zero() -> (r: Dec)
        ensures
            r.wf(),
            r.mantissa == 0,
            r.scale == 0,
            !r.negative,
    {
        Dec { mantissa: 0, scale: 0, negative: false }
    }

    /// `Decimal::ONE_HUNDRED`.
    pub fn one_hundred() -> (r: Dec)
        ensures
            r.wf(),
            r.mantissa == 100,
            r.scale == 0,
            !r.negative,
    {
        Dec { mantissa: 100, scale: 0, negative: false }
    }

    /// `Decimal::abs`: the same scale with a non-negative mantissa.
    pub fn abs(&self) -> (r: Dec)
        requires
            self.wf(),
        ensures
            r == self.spec_abs(),
            r.wf(),
    {
        if self.mantissa < 0 {
            Dec { mantissa: -self.mantissa, scale: self.scale, negative: false }
        } else {
            Dec { mantissa: self.mantissa, scale: self.scale, negative: false }
        }
    }

    /// `Decimal`'s negation.
    pub fn neg(&self) -> (r: Dec)
        requires
            self.wf(),
        ensures
            r == self.spec_neg(),
            r.wf(),
    {
        Dec { mantissa: -self.mantissa, scale: self.scale, negative: !self.negative }
    }

    pub fn copy(&self) -> (r: Dec)
        ensures
            r == *self,
    {
        Dec { mantissa: self.mantissa, scale: self.scale, negative: self.negative }
    }

    /// Tests `wf`.
    pub fn valid(&self) -> (r: bool)
        ensures
            r == self.wf(),
    {
        -MAX_MANTISSA <= self.mantissa && self.mantissa <= MAX_MANTISSA && self.scale <= 28
            && (self.mantissa <= 0 || !self.negative) && (self.mantissa >= 0 || self.negative)
    }

    /// `Decimal::is_sign_negative`: the sign flag, set for a negative zero too.
    pub fn sign_negative(&self) -> (r: bool)
        ensures
            r == self.negative,
    {
        self.negative
    }

    /// `self > 0`.
    pub fn positive(&self) -> (r: bool)
        ensures
            r == self.is_positive(),
    {
        self.mantissa > 0
    }
}

impl PartialEq for Dec {
    fn eq(&self, other: &Dec) -> (r: bool) {
        if self.valid() && other.valid() {
            same_value(self, other)
        } else {
            self.mantissa == other.mantissa && self.scale == other.scale
        }
    }
}

impl vstd::std_specs::cmp::PartialEqSpecImpl for Dec {
    open spec fn obeys_eq_spec() -> bool {
        true
    }

    open spec fn eq_spec(&self, other: &Dec) -> bool {
        if self.wf() && other.wf() {
            self.same_value(*other)
        } else {
            self.mantissa == other.mantissa && self.scale == other.scale
        }
    }
}

/// The larger of two scales, at which an addition aligns its operands.
pub open spec fn common_scale(a: Dec, b: Dec) -> u32 {
    if a.scale < b.scale { b.scale } else { a.scale }
}

/// The mantissa of `a` written at scale `s` (not below its own scale).
pub open spec fn aligned(a: Dec, s: u32) -> int {
    a.mantissa * pow10((s - a.scale) as nat)
}

pub open spec fn within_96_bits(m: int) -> bool {
    -MAX_MANTISSA <= m <= MAX_MANTISSA
}

/// Both operands are non-zero, and both they and `a + sign * b`, written at
/// their common scale, fit in 96 bits.
pub open spec fn exact_fits(a: Dec, b: Dec, sign: int) -> bool {
    let s = common_scale(a, b);
    &&& a.mantissa != 0
    &&& b.mantissa != 0
    &&& within_96_bits(aligned(a, s))
    &&& within_96_bits(aligned(b, s))
    &&& within_96_bits(aligned(a, s) + sign * aligned(b, s))
}

/// Both operands are non-zero integers (scale 0) and `a + sign * b` leaves 96 bits.
pub open spec fn integer_overflow(a: Dec, b: Dec, sign: int) -> bool {
    &&& a.mantissa != 0
    &&& b.mantissa != 0
    &&& a.scale == 0
    &&& b.scale == 0
    &&& !within_96_bits(a.mantissa + sign * b.mantissa)
}

/// `a + sign * b`, exactly, at the operands' common scale.
pub open spec fn exact_result(a: Dec, b: Dec, sign: int) -> Dec {
    let s = common_scale(a, b);
    let m = aligned(a, s) + sign * aligned(b, s);
    Dec { mantissa: m as i128, scale: s, negative: m < 0 }
}

/// Result of `Decimal::checked_add` in the cases `decimal_add` leaves open:
/// the exact sum does not fit, at a scale above 0.
pub uninterp spec fn decimal_add_other(a: Dec, b: Dec) -> Option<Dec>;

/// Result of `Decimal::checked_add`: a zero operand gives back the other one
/// as it is (sign flag included); an exact sum (a zero one with its sign flag
/// clear) that fits at the common scale is that sum; two
/// integers whose sum leaves 96 bits give `None`; other cases are named.
#[verifier::opaque]
pub open spec fn decimal_add(a: Dec, b: Dec) -> Option<Dec> {
    if a.mantissa == 0 {
        Some(b)
    } else if b.mantissa == 0 {
        Some(a)
    } else if exact_fits(a, b, 1) {
        Some(exact_result(a, b, 1))
    } else if integer_overflow(a, b, 1) {
        None
    } else {
        decimal_add_other(a, b)
    }
}

/// Result of `Decimal::checked_sub` in the cases `decimal_sub` leaves open:
/// the exact difference does not fit, at a scale above 0.
pub uninterp spec fn decimal_sub_other(a: Dec, b: Dec) -> Option<Dec>;

/// Result of `Decimal::checked_sub`: `0 - b` is `b` negated (at its scale)
/// when `b` is not zero and `b` itself when it is, `a - 0` is `a`; an exact
/// difference (a zero one with its sign flag clear) that fits at the common scale is that
/// difference; two integers whose difference leaves 96 bits give `None`;
/// other cases are named.
#[verifier::opaque]
pub open spec fn decimal_sub(a: Dec, b: Dec) -> Option<Dec> {
    if a.mantissa == 0 {
        if b.mantissa == 0 {
            Some(b)
        } else {
            Some(b.spec_neg())
        }
    } else if b.mantissa == 0 {
        Some(a)
    } else if exact_fits(a, b, -1) {
        Some(exact_result(a, b, -1))
    } else if integer_overflow(a, b, -1) {
        None
    } else {
        decimal_sub_other(a, b)
    }
}

/// The magnitude of a mantissa.
pub open spec fn mantissa_size(m: int) -> int {
    if m < 0 { -m } else { m }
}

/// Result of `Decimal::checked_mul` in the cases `decimal_mul` leaves open:
/// the product leaves 96 bits or scale 28.
pub uninterp spec fn decimal_mul_other(a: Dec, b: Dec) -> Option<Dec>;

/// Result of `Decimal::checked_mul`: a zero operand gives zero (scale 0,
/// sign flag clear); a product that fits in 96 bits at the sum of the scales
/// is that product; other cases are named.
#[verifier::opaque]
pub open spec fn decimal_mul(a: Dec, b: Dec) -> Option<Dec> {
    if a.mantissa == 0 || b.mantissa == 0 {
        Some(Dec { mantissa: 0, scale: 0, negative: false })
    } else if within_96_bits(a.mantissa * b.mantissa) && a.scale + b.scale <= 28 {
        Some(Dec { mantissa: (a.mantissa * b.mantissa) as i128, scale: (a.scale + b.scale) as u32, negative: a.mantissa * b.mantissa < 0 })
    } else {
        decimal_mul_other(a, b)
    }
}

/// Result of `Decimal::checked_div` in the cases `decimal_div` leaves open.
pub uninterp spec fn decimal_div_other(a: Dec, b: Dec) -> Option<Dec>;

/// Result of `Decimal::checked_div`: `None` for a zero divisor; zero (scale
/// 0, sign flag clear) for a zero dividend; when the divisor's magnitude fits
/// in 32 bits and divides the dividend's, and the dividend's scale is not
/// below the divisor's, the exact quotient at the difference of the scales;
/// other cases are named.
#[verifier::opaque]
pub open spec fn decimal_div(a: Dec, b: Dec) -> Option<Dec> {
    let p = mantissa_size(a.mantissa as int);
    let q = mantissa_size(b.mantissa as int);
    if b.mantissa == 0 {
        None
    } else if a.mantissa == 0 {
        Some(Dec { mantissa: 0, scale: 0, negative: false })
    } else if q <= 4294967295 && p % q == 0 && a.scale >= b.scale {
        let n = (a.mantissa < 0) != (b.mantissa < 0);
        Some(Dec { mantissa: (if n { -(p / q) } else { p / q }) as i128, scale: (a.scale - b.scale) as u32, negative: n })
    } else {
        decimal_div_other(a, b)
    }
}

/// The magnitude `n` divided by `p`, rounded half to even.
pub open spec fn divide_half_even(n: int, p: int) -> int {
    let q = n / p;
    let r = n % p;
    if 2 * r > p || (2 * r == p && q % 2 == 1) { q + 1 } else { q }
}

/// Result of `Decimal::round_dp`: a value with at most `dp` fraction digits
/// as it is; a zero rewritten at scale `dp` (sign flag kept); otherwise the
/// magnitude divided by `10^(scale - dp)`, rounded half to even, at scale
/// `dp` with the value's sign (a zero result with its flag clear).
#[verifier::opaque]
pub open spec fn decimal_round_dp(a: Dec, dp: u32) -> Dec {
    if a.scale <= dp {
        a
    } else if a.mantissa == 0 {
        Dec { mantissa: 0, scale: dp, negative: a.negative }
    } else {
        let v = divide_half_even(mantissa_size(a.mantissa as int), pow10((a.scale - dp) as nat));
        Dec { mantissa: (if a.mantissa < 0 { -v } else { v }) as i128, scale: dp, negative: a.mantissa < 0 && v != 0 }
    }
}

/// Result of `Decimal::from_str_exact` (`None` for an error).
pub uninterp spec fn decimal_parse_exact(text: Seq<char>) -> Option<Dec>;

/// Result of `Decimal::from_str` (`None` for an error).
pub uninterp spec fn decimal_parse(text: Seq<char>) -> Option<Dec>;

/// Result of `Decimal::from_scientific` (`None` for an error).
pub uninterp spec fn decimal_parse_scientific(text: Seq<char>) -> Option<Dec>;

/// `Decimal::checked_add`. Its source adds operands of one scale directly and
/// aligns others to the larger scale, committing a result only below 2^96
/// (a zero result with its sign flag clear); a zero operand returns the other
/// unchanged, sign flag included; at scale 0 a carry past 96 bits is an
/// overflow. Sums that do not fit at a scale above 0 are rounded by a
/// path whose result is left to `decimal_add_other`.
#[verifier::external_body]
pub(crate) fn checked_add(a: &Dec, b: &Dec) -> (r: Option<Dec>)
    requires
        a.wf(),
        b.wf(),
    ensures
        r == decimal_add(*a, *b),
        a.mantissa != 0 && b.mantissa != 0 && !exact_fits(*a, *b, 1) && !integer_overflow(*a, *b, 1)
            ==> r == decimal_add_other(*a, *b),
        r matches Some(v) ==> v.wf(),
{
    let mut x = Decimal::from_i128_with_scale(a.mantissa, a.scale);
    x.set_sign_negative(a.negative);
    let mut y = Decimal::from_i128_with_scale(b.mantissa, b.scale);
    y.set_sign_negative(b.negative);
    x.checked_add(y).map(|v| Dec { mantissa: v.mantissa(), scale: v.scale(), negative: v.is_sign_negative() })
}

/// `Decimal::checked_sub`: the same source path as `checked_add` with the
/// second operand's sign flipped, except that `0 - b` returns `b` with its
/// sign flag flipped when `b` is not zero, and `b` as it is when it is. Differences that do not fit at a scale above 0 are left to
/// `decimal_sub_other`.
#[verifier::external_body]
pub(crate) fn checked_sub(a: &Dec, b: &Dec) -> (r: Option<Dec>)
    requires
        a.wf(),
        b.wf(),
    ensures
        r == decimal_sub(*a, *b),
        a.mantissa != 0 && b.mantissa != 0 && !exact_fits(*a, *b, -1) && !integer_overflow(*a, *b, -1)
            ==> r == decimal_sub_other(*a, *b),
        r matches Some(v) ==> v.wf(),
{
    let mut x = Decimal::from_i128_with_scale(a.mantissa, a.scale);
    x.set_sign_negative(a.negative);
    let mut y = Decimal::from_i128_with_scale(b.mantissa, b.scale);
    y.set_sign_negative(b.negative);
    x.checked_sub(y).map(|v| Dec { mantissa: v.mantissa(), scale: v.scale(), negative: v.is_sign_negative() })
}

/// `Decimal::checked_mul`. Its source returns `Decimal::ZERO` for a zero
/// operand, and otherwise multiplies the mantissas and adds the scales,
/// keeping the product as it is when it fits in 96 bits at a scale of at most
/// 28; larger products are rescaled with rounding, or refused, by a path
/// whose result is left to `decimal_mul_other`.
#[verifier::external_body]
pub(crate) fn checked_mul(a: &Dec, b: &Dec) -> (r: Option<Dec>)
    requires
        a.wf(),
        b.wf(),
    ensures
        r == decimal_mul(*a, *b),
        a.mantissa != 0 && b.mantissa != 0
            && !(within_96_bits(a.mantissa * b.mantissa) && a.scale + b.scale <= 28) ==> r == decimal_mul_other(*a, *b),
        r matches Some(v) ==> v.wf(),
{
    let mut x = Decimal::from_i128_with_scale(a.mantissa, a.scale);
    x.set_sign_negative(a.negative);
    let mut y = Decimal::from_i128_with_scale(b.mantissa, b.scale);
    y.set_sign_negative(b.negative);
    x.checked_mul(y).map(|v| Dec { mantissa: v.mantissa(), scale: v.scale(), negative: v.is_sign_negative() })
}

/// `Decimal::checked_div`. Its source refuses a zero divisor, returns
/// `Decimal::ZERO` for a zero dividend, and for a divisor of at most 32 bits
/// that leaves no remainder at a scale difference of at least 0 returns the
/// quotient at that scale. Other quotients go through a remainder loop whose
/// result is left to `decimal_div_other`.
#[verifier::external_body]
pub(crate) fn checked_div(a: &Dec, b: &Dec) -> (r: Option<Dec>)
    requires
        a.wf(),
        b.wf(),
    ensures
        r == decimal_div(*a, *b),
        a.mantissa != 0 && b.mantissa != 0
            && !(mantissa_size(b.mantissa as int) <= 4294967295
                && mantissa_size(a.mantissa as int) % mantissa_size(b.mantissa as int) == 0
                && a.scale >= b.scale) ==> r == decimal_div_other(*a, *b),
        r matches Some(v) ==> v.wf(),
        b.mantissa == 0 ==> r is None,
{
    let mut x = Decimal::from_i128_with_scale(a.mantissa, a.scale);
    x.set_sign_negative(a.negative);
    let mut y = Decimal::from_i128_with_scale(b.mantissa, b.scale);
    y.set_sign_negative(b.negative);
    x.checked_div(y).map(|v| Dec { mantissa: v.mantissa(), scale: v.scale(), negative: v.is_sign_negative() })
}

/// `Decimal::round_dp`: its source returns a value with at most `dp`
/// fraction digits unchanged, rewrites a zero at scale `dp`, and otherwise
/// divides the magnitude by `10^(scale - dp)` and adds one when the remainder
/// is above half, or exactly half with an odd quotient (midpoint to even).
#[verifier::external_body]
pub(crate) fn round_dp(a: &Dec, dp: u32) -> (r: Dec)
    requires
        a.wf(),
    ensures
        r == decimal_round_dp(*a, dp),
        r.wf(),
        a.scale <= dp ==> r == *a,
{
    let mut x = Decimal::from_i128_with_scale(a.mantissa, a.scale);
    x.set_sign_negative(a.negative);
    let v = x.round_dp(dp);
    Dec { mantissa: v.mantissa(), scale: v.scale(), negative: v.is_sign_negative() }
}

/// `Decimal::from_str_exact`: parses decimal text without rounding.
#[verifier::external_body]
pub(crate) fn parse_exact(text: &str) -> (r: Option<Dec>)
    ensures
        r == decimal_parse_exact(text@),
        r matches Some(v) ==> v.wf(),
{
    Decimal::from_str_exact(text).ok().map(|v| Dec { mantissa: v.mantissa(), scale: v.scale(), negative: v.is_sign_negative() })
}

/// `Decimal::from_str`: parses decimal text.
#[verifier::external_body]
pub(crate) fn parse(text: &str) -> (r: Option<Dec>)
    ensures
        r == decimal_parse(text@),
        r matches Some(v) ==> v.wf(),
{
    <Decimal as core::str::FromStr>::from_str(text).ok().map(|v| Dec { mantissa: v.mantissa(), scale: v.scale(), negative: v.is_sign_negative() })
}

/// `Decimal::from_scientific`: parses text in scientific notation.
#[verifier::external_body]
pub(crate) fn parse_scientific(text: &str) -> (r: Option<Dec>)
    ensures
        r == decimal_parse_scientific(text@),
        r matches Some(v) ==> v.wf(),
{
    Decimal::from_scientific(text).ok().map(|v| Dec { mantissa: v.mantissa(), scale: v.scale(), negative: v.is_sign_negative() })
}

/// Result of formatting a `Decimal` with `{:.N}` (`N` fraction digits).
pub uninterp spec fn decimal_fixed_text(a: Dec, places: u32) -> Seq<char>;

/// Result of formatting a `Decimal` with `{:+.N}` (sign always shown).
pub uninterp spec fn decimal_signed_text(a: Dec, places: u32) -> Seq<char>;

/// `Decimal`'s `Display` with a precision: the text is named, not described.
#[verifier::external_body]
pub(crate) fn fixed_text(a: &Dec, places: u32) -> (r: String)
    requires
        a.wf(),
    ensures
        r@ == decimal_fixed_text(*a, places),
{
    let mut d = Decimal::from_i128_with_scale(a.mantissa, a.scale);
    d.set_sign_negative(a.negative);
    format!("{:.*}", places as usize, d)
}

/// `Decimal`'s `Display` with a precision and the `+` flag: the text is
/// named, not described.
#[verifier::external_body]
pub(crate) fn signed_text(a: &Dec, places: u32) -> (r: String)
    requires
        a.wf(),
    ensures
        r@ == decimal_signed_text(*a, places),
{
    let mut d = Decimal::from_i128_with_scale(a.mantissa, a.scale);
    d.set_sign_negative(a.negative);
    format!("{:+.*}", places as usize, d)
}

/// `Decimal`'s `<`: numeric order.
#[verifier::external_body]
pub(crate) fn less(a: &Dec, b: &Dec) -> (r: bool)
    requires
        a.wf(),
        b.wf(),
    ensures
        r == a.lt(*b),
{
    let mut x = Decimal::from_i128_with_scale(a.mantissa, a.scale);
    x.set_sign_negative(a.negative);
    let mut y = Decimal::from_i128_with_scale(b.mantissa, b.scale);
    y.set_sign_negative(b.negative);
    x < y
}

/// `Decimal`'s `==`: numeric equality (`1.0 == 1.00`).
#[verifier::external_body]
pub(crate) fn same_value(a: &Dec, b: &Dec) -> (r: bool)
    requires
        a.wf(),
        b.wf(),
    ensures
        r == a.same_value(*b),
{
    let mut x = Decimal::from_i128_with_scale(a.mantissa, a.scale);
    x.set_sign_negative(a.negative);
    let mut y = Decimal::from_i128_with_scale(b.mantissa, b.scale);
    y.set_sign_negative(b.negative);
    x == y
}


pub proof fn lemma_pow10_positive(n: nat)
    ensures
        pow10(n) > 0,
{
    vstd::arithmetic::power::lemma_pow_positive(10, n);
}

proof fn lemma_cross_le_transitive(am: int, bm: int, cm: int, pa: int, pb: int, pc: int)
    requires
        pa > 0,
        pb > 0,
        pc > 0,
        am * pb <= bm * pa,
        bm * pc <= cm * pb,
    ensures
        am * pc <= cm * pa,
        (am * pb == bm * pa && bm * pc == cm * pb) ==> am * pc == cm * pa,
        (am * pb < bm * pa || bm * pc < cm * pb) ==> am * pc < cm * pa,
{
    assert(am * pb * pc <= bm * pa * pc) by (nonlinear_arith)
        requires am * pb <= bm * pa, pc > 0;
    assert(bm * pc * pa <= cm * pb * pa) by (nonlinear_arith)
        requires bm * pc <= cm * pb, pa > 0;
    assert(am * pc * pb <= cm * pa * pb) by (nonlinear_arith)
        requires am * pb * pc <= bm * pa * pc, bm * pc * pa <= cm * pb * pa;
    assert(am * pc <= cm * pa) by (nonlinear_arith)
        requires am * pc * pb <= cm * pa * pb, pb > 0;
    if am * pb == bm * pa && bm * pc == cm * pb {
        assert(am * pc * pb == cm * pa * pb) by (nonlinear_arith)
            requires am * pb == bm * pa, bm * pc == cm * pb;
        assert(am * pc == cm * pa) by (nonlinear_arith)
            requires am * pc * pb == cm * pa * pb, pb > 0;
    }
    if am * pb < bm * pa || bm * pc < cm * pb {
        if am * pb < bm * pa {
            assert(am * pb * pc < bm * pa * pc) by (nonlinear_arith)
                requires am * pb < bm * pa, pc > 0;
        } else {
            assert(bm * pc * pa < cm * pb * pa) by (nonlinear_arith)
                requires bm * pc < cm * pb, pa > 0;
        }
        assert(am * pc * pb < cm * pa * pb) by (nonlinear_arith)
            requires am * pb * pc <= bm * pa * pc, bm * pc * pa <= cm * pb * pa,
                am * pb * pc < bm * pa * pc || bm * pc * pa < cm * pb * pa;
        assert(am * pc < cm * pa) by (nonlinear_arith)
            requires am * pc * pb < cm * pa * pb, pb > 0;
    }
}

/// Numeric order on decimals is a strict weak order: `lt` is irreflexive and
/// transitive, `same_value` is an equivalence, and exactly one of
/// `a < b`, `a == b`, `b < a` holds.
pub proof fn lemma_order(a: Dec, b: Dec, c: Dec)
    ensures
        !a.lt(a),
        a.same_value(a),
        a.same_value(b) ==> b.same_value(a),
        a.lt(b) ==> !b.lt(a) && !a.same_value(b),
        a.lt(b) || a.same_value(b) || b.lt(a),
        a.lt(b) && b.lt(c) ==> a.lt(c),
        a.lt(b) && b.same_value(c) ==> a.lt(c),
        a.same_value(b) && b.lt(c) ==> a.lt(c),
        a.same_value(b) && b.same_value(c) ==> a.same_value(c),
{
    let pa = pow10(a.scale as nat);
    let pb = pow10(b.scale as nat);
    let pc = pow10(c.scale as nat);
    lemma_pow10_positive(a.scale as nat);
    lemma_pow10_positive(b.scale as nat);
    lemma_pow10_positive(c.scale as nat);
    let am = a.mantissa as int;
    let bm = b.mantissa as int;
    let cm = c.mantissa as int;
    assert(am * pa == am * pa);
    if am * pb <= bm * pa && bm * pc <= cm * pb {
        lemma_cross_le_transitive(am, bm, cm, pa, pb, pc);
    }
}

} // verus!
