//! Sums of decimals of mixed scales that never round, and what they give
//! the review summary: in every order its total has the same value; without
//! short positions the summary is the same in every order, and with them it
//! is the same whenever the totals come out written alike.
use crate::decimal::{
    aligned, common_scale, decimal_add, decimal_div, exact_fits, lemma_pow10_positive, mantissa_size, pow10, Dec,
    MAX_MANTISSA,
};
use crate::review::calculations::{
    abs_values, abs_values_where, all_wf, count_where, entries_wf, in_group, lemma_counts_ignore_order,
    lemma_rank_order, market_values, percentage_spec, precedes, ranks_above, ranks_equal, sum_spec, summary_spec,
    top_ranked, top_three, weights_spec, CoverageGroup, Entry, SummaryFacts,
};
use crate::review::domain::ReviewError;
use crate::review::reorder::{lemma_top_exists, lemma_total_ignores_order, lemma_weights_shape, total};
use vstd::prelude::*;

verus! {

/// The largest scale among the non-zero values (0 when there is none).
pub open spec fn nonzero_scale(v: Seq<Dec>) -> u32
    decreases v.len(),
{
    if v.len() == 0 {
        0
    } else {
        let s = nonzero_scale(v.drop_last());
        if v.last().mantissa != 0 && v.last().scale > s {
            v.last().scale
        } else {
            s
        }
    }
}

pub open spec fn has_nonzero(v: Seq<Dec>) -> bool {
    exists|i: int| 0 <= i < v.len() && (#[trigger] v[i]).mantissa != 0
}

pub open spec fn non_negative(v: Seq<Dec>) -> bool {
    forall|i: int| 0 <= i < v.len() ==> (#[trigger] v[i]).mantissa >= 0
}

/// Every non-zero value is written at a scale of at most `s`.
pub open spec fn scales_within(v: Seq<Dec>, s: u32) -> bool {
    forall|i: int| 0 <= i < v.len() && (#[trigger] v[i]).mantissa != 0 ==> v[i].scale <= s
}

/// A value's mantissa written at scale `s` (zero for a zero value).
pub open spec fn mantissa_at(s: u32) -> spec_fn(Dec) -> int {
    |d: Dec| if d.mantissa == 0 { 0 } else { d.mantissa * pow10((s - d.scale) as nat) }
}

/// The exact sum of the values, as a mantissa at the largest scale of the
/// non-zero ones.
pub open spec fn exact_total(v: Seq<Dec>) -> int {
    total(v, mantissa_at(nonzero_scale(v)))
}

/// `nonzero_scale` is the largest scale of a non-zero value, and 0 when
/// every value is zero.
pub proof fn lemma_nonzero_scale(v: Seq<Dec>)
    ensures
        scales_within(v, nonzero_scale(v)),
        has_nonzero(v) ==> exists|i: int| 0 <= i < v.len() && (#[trigger] v[i]).mantissa != 0 && v[i].scale == nonzero_scale(v),
        !has_nonzero(v) ==> nonzero_scale(v) == 0,
    decreases v.len(),
{
    if v.len() > 0 {
        let rest = v.drop_last();
        lemma_nonzero_scale(rest);
        let n = v.len() - 1;
        assert(v.last() == v[n]);
        assert forall|i: int| 0 <= i < v.len() && (#[trigger] v[i]).mantissa != 0 implies v[i].scale <= nonzero_scale(v) by {
            if i < n {
                assert(rest[i] == v[i]);
            }
        }
        if has_nonzero(v) {
            if has_nonzero(rest) {
                let k = choose|i: int| 0 <= i < rest.len() && (#[trigger] rest[i]).mantissa != 0 && rest[i].scale == nonzero_scale(rest);
                assert(rest[k] == v[k]);
                if !(v.last().mantissa != 0 && v.last().scale > nonzero_scale(rest)) {
                    assert(v[k].mantissa != 0 && v[k].scale == nonzero_scale(v));
                }
            } else {
                let k = choose|i: int| 0 <= i < v.len() && (#[trigger] v[i]).mantissa != 0;
                if k < n {
                    assert(rest[k] == v[k]);
                }
                assert(v[n].mantissa != 0);
            }
        } else {
            assert forall|i: int| 0 <= i < rest.len() implies (#[trigger] rest[i]).mantissa == 0 by {
                assert(rest[i] == v[i]);
            }
            assert(v[n].mantissa == 0);
        }
    }
}

/// A sum of non-negative values written at a scale that covers them is not
/// negative, and it is positive when one of them is.
pub proof fn lemma_total_at_sign(v: Seq<Dec>, s: u32)
    requires
        non_negative(v),
        scales_within(v, s),
    ensures
        total(v, mantissa_at(s)) >= 0,
        has_nonzero(v) ==> total(v, mantissa_at(s)) > 0,
        forall|i: int| 0 <= i < v.len() ==> 0 <= #[trigger] mantissa_at(s)(v[i]) <= total(v, mantissa_at(s)),
    decreases v.len(),
{
    if v.len() > 0 {
        let rest = v.drop_last();
        let n = v.len() - 1;
        assert(v.last() == v[n]);
        assert(non_negative(rest) && scales_within(rest, s)) by {
            assert forall|i: int| 0 <= i < rest.len() implies (#[trigger] rest[i]).mantissa >= 0 && (rest[i].mantissa != 0 ==> rest[i].scale <= s) by {
                assert(rest[i] == v[i]);
            }
        }
        lemma_total_at_sign(rest, s);
        let x = v[n];
        if x.mantissa != 0 {
            lemma_pow10_positive((s - x.scale) as nat);
            assert(x.mantissa * pow10((s - x.scale) as nat) > 0) by (nonlinear_arith)
                requires x.mantissa > 0, pow10((s - x.scale) as nat) > 0;
        }
        assert(mantissa_at(s)(x) >= 0);
        assert forall|i: int| 0 <= i < v.len() implies 0 <= #[trigger] mantissa_at(s)(v[i]) <= total(v, mantissa_at(s)) by {
            if i < n {
                assert(rest[i] == v[i]);
            }
        }
        if has_nonzero(v) {
            let k = choose|i: int| 0 <= i < v.len() && (#[trigger] v[i]).mantissa != 0;
            if k < n {
                assert(rest[k] == v[k]);
                assert(has_nonzero(rest));
            }
        }
    }
}

/// Writing the values at a scale `k` places higher multiplies the sum by 10^k.
pub proof fn lemma_total_rescale(v: Seq<Dec>, s: u32, k: nat)
    requires
        scales_within(v, s),
        s + k <= u32::MAX,
    ensures
        total(v, mantissa_at((s + k) as u32)) == total(v, mantissa_at(s)) * pow10(k),
    decreases v.len(),
{
    if v.len() > 0 {
        let rest = v.drop_last();
        let n = v.len() - 1;
        assert(v.last() == v[n]);
        assert(scales_within(rest, s)) by {
            assert forall|i: int| 0 <= i < rest.len() && (#[trigger] rest[i]).mantissa != 0 implies rest[i].scale <= s by {
                assert(rest[i] == v[i]);
            }
        }
        lemma_total_rescale(rest, s, k);
        let x = v[n];
        let t = total(rest, mantissa_at(s));
        if x.mantissa != 0 {
            let e = (s - x.scale) as nat;
            vstd::arithmetic::power::lemma_pow_adds(10, e, k);
            assert(((s + k) as u32 - x.scale) as nat == e + k);
            assert(x.mantissa * (pow10(e) * pow10(k)) == (x.mantissa * pow10(e)) * pow10(k)) by (nonlinear_arith);
            assert((t + x.mantissa * pow10(e)) * pow10(k) == t * pow10(k) + x.mantissa * pow10(e) * pow10(k)) by (nonlinear_arith);
        } else {
            assert(mantissa_at(s)(x) == 0);
            assert(mantissa_at((s + k) as u32)(x) == 0);
        }
    }
}

/// Summing non-negative values of any scales whose exact sum fits in 96 bits
/// at the largest scale of the non-zero ones never rounds: the result is that
/// sum at that scale, with its sign flag clear. When every value is zero the
/// result is the last value as it is (zero itself for no values).
pub proof fn lemma_exact_sum(v: Seq<Dec>)
    requires
        all_wf(v),
        non_negative(v),
        exact_total(v) <= MAX_MANTISSA,
    ensures
        sum_spec(v) matches Some(d) && {
            &&& d.wf()
            &&& d.mantissa == exact_total(v)
            &&& has_nonzero(v) ==> d.scale == nonzero_scale(v) && !d.negative
            &&& !has_nonzero(v) && v.len() > 0 ==> d == v.last()
            &&& v.len() == 0 ==> d == Dec { mantissa: 0, scale: 0, negative: false }
        },
    decreases v.len(),
{
    reveal(decimal_add);
    lemma_nonzero_scale(v);
    lemma_total_at_sign(v, nonzero_scale(v));
    if v.len() > 0 {
        let rest = v.drop_last();
        let n = v.len() - 1;
        let x = v[n];
        assert(v.last() == x);
        assert(all_wf(rest) && non_negative(rest)) by {
            assert forall|i: int| 0 <= i < rest.len() implies (#[trigger] rest[i]).wf() && rest[i].mantissa >= 0 by {
                assert(rest[i] == v[i]);
            }
        }
        let s = nonzero_scale(v);
        let sr = nonzero_scale(rest);
        lemma_nonzero_scale(rest);
        assert(sr <= s);
        assert(scales_within(rest, sr));
        lemma_total_at_sign(rest, sr);
        lemma_total_rescale(rest, sr, (s - sr) as nat);
        assert((sr + (s - sr) as nat) as u32 == s);
        lemma_pow10_positive((s - sr) as nat);
        let tr = exact_total(rest);
        assert(tr <= tr * pow10((s - sr) as nat)) by (nonlinear_arith)
            requires tr >= 0, pow10((s - sr) as nat) >= 1;
        assert(total(v, mantissa_at(s)) == total(rest, mantissa_at(s)) + mantissa_at(s)(x));
        assert(mantissa_at(s)(x) >= 0);
        lemma_exact_sum(rest);
        let t = sum_spec(rest)->Some_0;
        vstd::arithmetic::power::lemma_pow0(10);
        assert(pow10(0) == 1);
        if !has_nonzero(rest) {
            assert(t.mantissa == 0);
            if x.mantissa != 0 {
                assert(has_nonzero(v));
                assert(s == x.scale);
                assert(tr == 0);
                assert(tr * pow10((s - sr) as nat) == 0) by (nonlinear_arith)
                    requires tr == 0;
                assert(total(rest, mantissa_at(s)) == 0);
            } else {
                assert(!has_nonzero(v)) by {
                    if has_nonzero(v) {
                        let k = choose|i: int| 0 <= i < v.len() && (#[trigger] v[i]).mantissa != 0;
                        assert(k != n);
                        assert(rest[k] == v[k]);
                    }
                }
            }
        } else {
            assert(has_nonzero(v)) by {
                let k = choose|i: int| 0 <= i < rest.len() && (#[trigger] rest[i]).mantissa != 0;
                assert(rest[k] == v[k]);
            }
            assert(t.mantissa == tr && tr > 0 && t.scale == sr && !t.negative);
            if x.mantissa != 0 {
                assert(common_scale(t, x) == s);
                assert(aligned(t, s) == total(rest, mantissa_at(s)));
                assert(aligned(x, s) == mantissa_at(s)(x));
            }
        }
    }
}

/// Two orderings of the same non-negative values whose exact sum fits have
/// sums with the same mantissa, equal when it is not zero.
pub proof fn lemma_exact_sum_ignores_order(u: Seq<Dec>, w: Seq<Dec>)
    requires
        u.to_multiset() == w.to_multiset(),
        all_wf(u),
        non_negative(u),
        exact_total(u) <= MAX_MANTISSA,
    ensures
        sum_spec(u) matches Some(du) && sum_spec(w) matches Some(dw) && {
            &&& du.wf() && dw.wf()
            &&& du.mantissa == dw.mantissa
            &&& du.mantissa != 0 ==> du == dw
        },
{
    lemma_reordered_values(u, w);
    lemma_total_ignores_order(u, w, mantissa_at(nonzero_scale(u)));
    lemma_exact_sum(u);
    lemma_exact_sum(w);
}

/// Reordering keeps each value's properties and the largest non-zero scale.
pub proof fn lemma_reordered_values(u: Seq<Dec>, w: Seq<Dec>)
    requires
        u.to_multiset() == w.to_multiset(),
    ensures
        all_wf(u) ==> all_wf(w),
        non_negative(u) ==> non_negative(w),
        nonzero_scale(u) == nonzero_scale(w),
        has_nonzero(u) == has_nonzero(w),
{
    broadcast use vstd::seq_lib::group_to_multiset_ensures;
    assert forall|j: int| 0 <= j < w.len() implies exists|i: int| 0 <= i < u.len() && u[i] == #[trigger] w[j] by {
        assert(w.to_multiset().count(w[j]) > 0);
        assert(u.contains(w[j]));
    }
    assert forall|i: int| 0 <= i < u.len() implies exists|j: int| 0 <= j < w.len() && w[j] == #[trigger] u[i] by {
        assert(u.to_multiset().count(u[i]) > 0);
        assert(w.contains(u[i]));
    }
    if all_wf(u) {
        assert forall|j: int| 0 <= j < w.len() implies (#[trigger] w[j]).wf() by {
            let i = choose|i: int| 0 <= i < u.len() && u[i] == w[j];
        }
    }
    if non_negative(u) {
        assert forall|j: int| 0 <= j < w.len() implies (#[trigger] w[j]).mantissa >= 0 by {
            let i = choose|i: int| 0 <= i < u.len() && u[i] == w[j];
        }
    }
    lemma_nonzero_scale(u);
    lemma_nonzero_scale(w);
    let su = nonzero_scale(u);
    let sw = nonzero_scale(w);
    assert(has_nonzero(u) == has_nonzero(w)) by {
        if has_nonzero(u) {
            let i = choose|i: int| 0 <= i < u.len() && (#[trigger] u[i]).mantissa != 0;
            let j = choose|j: int| 0 <= j < w.len() && w[j] == u[i];
            assert(w[j].mantissa != 0);
        }
        if has_nonzero(w) {
            let j = choose|j: int| 0 <= j < w.len() && (#[trigger] w[j]).mantissa != 0;
            let i = choose|i: int| 0 <= i < u.len() && u[i] == w[j];
            assert(u[i].mantissa != 0);
        }
    }
    if has_nonzero(u) {
        let i = choose|i: int| 0 <= i < u.len() && (#[trigger] u[i]).mantissa != 0 && u[i].scale == su;
        let j = choose|j: int| 0 <= j < w.len() && w[j] == u[i];
        let k = choose|k: int| 0 <= k < w.len() && (#[trigger] w[k]).mantissa != 0 && w[k].scale == sw;
        let l = choose|l: int| 0 <= l < u.len() && u[l] == w[k];
        assert(w[j].mantissa != 0);
        assert(u[l].mantissa != 0);
    }
}

/// A value's magnitude written at scale `s` (zero for a zero value).
pub open spec fn magnitude_at(s: u32) -> spec_fn(Dec) -> int {
    |d: Dec| if d.mantissa == 0 { 0 } else { mantissa_size(d.mantissa as int) * pow10((s - d.scale) as nat) }
}

/// The sum of the magnitudes, at the largest scale of the non-zero values.
pub open spec fn exact_gross(v: Seq<Dec>) -> int {
    total(v, magnitude_at(nonzero_scale(v)))
}

/// Writing one value `k` places higher multiplies it by 10^k.
proof fn lemma_at_rescale(d: Dec, s: u32, k: nat)
    requires
        d.mantissa != 0 ==> d.scale <= s,
        s + k <= u32::MAX,
    ensures
        mantissa_at((s + k) as u32)(d) == mantissa_at(s)(d) * pow10(k),
        magnitude_at((s + k) as u32)(d) == magnitude_at(s)(d) * pow10(k),
        magnitude_at(s)(d) == mantissa_size(mantissa_at(s)(d)),
        magnitude_at(s)(d) >= 0,
{
    lemma_pow10_positive(k);
    if d.mantissa != 0 {
        let e = (s - d.scale) as nat;
        vstd::arithmetic::power::lemma_pow_adds(10, e, k);
        lemma_pow10_positive(e);
        assert(((s + k) as u32 - d.scale) as nat == e + k);
        let m = d.mantissa as int;
        let a = mantissa_size(m);
        assert(m * (pow10(e) * pow10(k)) == (m * pow10(e)) * pow10(k)) by (nonlinear_arith);
        assert(a * (pow10(e) * pow10(k)) == (a * pow10(e)) * pow10(k)) by (nonlinear_arith);
        assert(mantissa_size(m * pow10(e)) == a * pow10(e)) by (nonlinear_arith)
            requires pow10(e) > 0, a == mantissa_size(m);
        assert(a * pow10(e) >= 0) by (nonlinear_arith)
            requires pow10(e) > 0, a >= 0;
    } else {
        assert(0 * pow10(k) == 0) by (nonlinear_arith);
    }
}

/// Writing all the magnitudes `k` places higher multiplies their sum by 10^k.
proof fn lemma_gross_rescale(v: Seq<Dec>, s: u32, k: nat)
    requires
        scales_within(v, s),
        s + k <= u32::MAX,
    ensures
        total(v, magnitude_at((s + k) as u32)) == total(v, magnitude_at(s)) * pow10(k),
    decreases v.len(),
{
    if v.len() > 0 {
        let rest = v.drop_last();
        let n = v.len() - 1;
        assert(v.last() == v[n]);
        assert(scales_within(rest, s)) by {
            assert forall|i: int| 0 <= i < rest.len() && (#[trigger] rest[i]).mantissa != 0 implies rest[i].scale <= s by {
                assert(rest[i] == v[i]);
            }
        }
        lemma_gross_rescale(rest, s, k);
        lemma_at_rescale(v[n], s, k);
        let t = total(rest, magnitude_at(s));
        let y = magnitude_at(s)(v[n]);
        assert((t + y) * pow10(k) == t * pow10(k) + y * pow10(k)) by (nonlinear_arith);
    }
}

/// A sum at a scale covering the values lies within the sum of their
/// magnitudes, which is not negative and covers each magnitude.
proof fn lemma_gross_bounds(v: Seq<Dec>, s: u32)
    requires
        scales_within(v, s),
    ensures
        0 <= total(v, magnitude_at(s)),
        mantissa_size(total(v, mantissa_at(s))) <= total(v, magnitude_at(s)),
        forall|i: int| 0 <= i < v.len() ==> #[trigger] magnitude_at(s)(v[i]) <= total(v, magnitude_at(s)),
    decreases v.len(),
{
    if v.len() > 0 {
        let rest = v.drop_last();
        let n = v.len() - 1;
        assert(v.last() == v[n]);
        assert(scales_within(rest, s)) by {
            assert forall|i: int| 0 <= i < rest.len() && (#[trigger] rest[i]).mantissa != 0 implies rest[i].scale <= s by {
                assert(rest[i] == v[i]);
            }
        }
        lemma_gross_bounds(rest, s);
        lemma_at_rescale(v[n], s, 0);
        assert forall|i: int| 0 <= i < v.len() implies #[trigger] magnitude_at(s)(v[i]) <= total(v, magnitude_at(s)) by {
            if i < n {
                assert(rest[i] == v[i]);
                lemma_at_rescale(v[i], s, 0);
            }
        }
    }
}

proof fn lemma_shrink(a: int, q: int)
    requires
        q >= 1,
    ensures
        mantissa_size(a) <= mantissa_size(a * q),
        a * q == 0 ==> a == 0,
{
    assert(mantissa_size(a * q) == mantissa_size(a) * q) by (nonlinear_arith)
        requires q >= 1;
    assert(mantissa_size(a) <= mantissa_size(a) * q) by (nonlinear_arith)
        requires q >= 1, mantissa_size(a) >= 0;
    assert(a * q == 0 ==> a == 0) by (nonlinear_arith)
        requires q >= 1;
}

/// Summing values of any scales and signs whose magnitudes, written at the
/// largest scale of the non-zero values, add up within 96 bits never rounds:
/// the result written at that scale is the exact sum (its own scale may be
/// lower, as a partial sum that vanished restarts from the next value).
pub proof fn lemma_signed_exact_sum(v: Seq<Dec>)
    requires
        all_wf(v),
        exact_gross(v) <= MAX_MANTISSA,
    ensures
        sum_spec(v) matches Some(d) && {
            &&& d.wf()
            &&& d.mantissa != 0 ==> d.scale <= nonzero_scale(v)
            &&& mantissa_at(nonzero_scale(v))(d) == total(v, mantissa_at(nonzero_scale(v)))
        },
    decreases v.len(),
{
    reveal(decimal_add);
    lemma_nonzero_scale(v);
    if v.len() > 0 {
        let rest = v.drop_last();
        let n = v.len() - 1;
        let x = v[n];
        assert(v.last() == x);
        assert(all_wf(rest)) by {
            assert forall|i: int| 0 <= i < rest.len() implies (#[trigger] rest[i]).wf() by {
                assert(rest[i] == v[i]);
            }
        }
        let s = nonzero_scale(v);
        let sr = nonzero_scale(rest);
        lemma_nonzero_scale(rest);
        assert(sr <= s);
        let k = (s - sr) as nat;
        assert((sr + k) as u32 == s);
        assert(scales_within(rest, s));
        lemma_pow10_positive(k);
        lemma_gross_rescale(rest, sr, k);
        lemma_gross_bounds(rest, sr);
        lemma_gross_bounds(rest, s);
        lemma_gross_bounds(v, s);
        lemma_total_rescale(rest, sr, k);
        let gr = exact_gross(rest);
        assert(gr <= gr * pow10(k)) by (nonlinear_arith)
            requires gr >= 0, pow10(k) >= 1;
        assert(total(v, magnitude_at(s)) == total(rest, magnitude_at(s)) + magnitude_at(s)(x));
        assert(total(v, mantissa_at(s)) == total(rest, mantissa_at(s)) + mantissa_at(s)(x));
        lemma_at_rescale(x, s, 0);
        lemma_signed_exact_sum(rest);
        let t = sum_spec(rest)->Some_0;
        lemma_at_rescale(t, sr, k);
        let tt = total(rest, mantissa_at(s));
        let xx = mantissa_at(s)(x);
        assert(mantissa_at(s)(t) == tt);
        if t.mantissa != 0 && x.mantissa != 0 {
            let c = common_scale(t, x);
            assert(c <= s);
            let q = (s - c) as nat;
            assert((c + q) as u32 == s);
            lemma_pow10_positive(q);
            lemma_at_rescale(t, c, q);
            lemma_at_rescale(x, c, q);
            assert(mantissa_at(c)(t) == aligned(t, c));
            assert(mantissa_at(c)(x) == aligned(x, c));
            let at = aligned(t, c);
            let ax = aligned(x, c);
            lemma_shrink(at, pow10(q));
            lemma_shrink(ax, pow10(q));
            assert((at + ax) * pow10(q) == at * pow10(q) + ax * pow10(q)) by (nonlinear_arith);
            lemma_shrink(at + ax, pow10(q));
            assert(exact_fits(t, x, 1));
            let r = decimal_add(t, x)->Some_0;
            assert(r.mantissa == at + ax && r.scale == c);
            lemma_at_rescale(r, c, q);
        }
    }
}

/// Mapping two orderings of the same items gives two orderings of the same
/// results.
pub proof fn lemma_map_multiset<A, B>(a: Seq<A>, b: Seq<A>, f: spec_fn(A) -> B)
    requires
        a.to_multiset() == b.to_multiset(),
    ensures
        a.map_values(f).to_multiset() == b.map_values(f).to_multiset(),
    decreases a.len(),
{
    broadcast use vstd::seq_lib::group_to_multiset_ensures;
    if a.len() == 0 {
        assert(a.to_multiset().len() == a.len());
        assert(b.to_multiset().len() == b.len());
        assert(a.map_values(f) =~= b.map_values(f));
    } else {
        let x = a.last();
        assert(a.drop_last().push(x) =~= a);
        assert(a.to_multiset().count(x) > 0);
        assert(b.contains(x));
        let j = choose|j: int| 0 <= j < b.len() && b[j] == x;
        assert(b.remove(j).to_multiset() =~= b.to_multiset().remove(x));
        assert(a.drop_last().to_multiset() =~= a.to_multiset().remove(x));
        lemma_map_multiset(a.drop_last(), b.remove(j), f);
        let bm = b.map_values(f);
        assert(a.map_values(f) =~= a.drop_last().map_values(f).push(f(x)));
        assert(b.remove(j).map_values(f) =~= bm.remove(j));
        assert(bm[j] == f(x));
        assert(bm.remove(j).to_multiset() =~= bm.to_multiset().remove(f(x)));
        assert(bm.to_multiset().count(f(x)) > 0);
        assert(bm.to_multiset() =~= bm.to_multiset().remove(f(x)).insert(f(x)));
    }
}

/// Removing one position removes its absolute value from its group's values.
proof fn lemma_where_remove(b: Seq<Entry>, g: CoverageGroup, j: int)
    requires
        0 <= j < b.len(),
    ensures
        abs_values_where(b, g).to_multiset() == if in_group(g, b[j].2) {
            abs_values_where(b.remove(j), g).to_multiset().insert(b[j].1.spec_abs())
        } else {
            abs_values_where(b.remove(j), g).to_multiset()
        },
    decreases b.len(),
{
    broadcast use vstd::seq_lib::group_to_multiset_ensures;
    if j == b.len() - 1 {
        assert(b.remove(j) =~= b.drop_last());
    } else {
        lemma_where_remove(b.drop_last(), g, j);
        assert(b.remove(j).drop_last() =~= b.drop_last().remove(j));
        assert(b.remove(j).last() == b.last());
        assert(b.drop_last()[j] == b[j]);
        assert(b.remove(j).len() > 0);
        let y = b.last();
        if in_group(g, y.2) {
            let m = abs_values_where(b.drop_last().remove(j), g).to_multiset();
            if in_group(g, b[j].2) {
                assert(m.insert(b[j].1.spec_abs()).insert(y.1.spec_abs()) =~= m.insert(y.1.spec_abs()).insert(b[j].1.spec_abs()));
            }
        }
    }
}

/// Two orderings of the same positions list the same absolute values in
/// each group.
pub proof fn lemma_where_multiset(a: Seq<Entry>, b: Seq<Entry>, g: CoverageGroup)
    requires
        a.to_multiset() == b.to_multiset(),
    ensures
        abs_values_where(a, g).to_multiset() == abs_values_where(b, g).to_multiset(),
    decreases a.len(),
{
    broadcast use vstd::seq_lib::group_to_multiset_ensures;
    if a.len() == 0 {
        assert(a.to_multiset().len() == a.len());
        assert(b.to_multiset().len() == b.len());
        assert(b.len() == 0);
    } else {
        let x = a.last();
        assert(a.drop_last().push(x) =~= a);
        assert(a.to_multiset().count(x) > 0);
        assert(b.contains(x));
        let j = choose|j: int| 0 <= j < b.len() && b[j] == x;
        assert(b.remove(j).to_multiset() =~= b.to_multiset().remove(x));
        assert(a.drop_last().to_multiset() =~= a.to_multiset().remove(x));
        lemma_where_multiset(a.drop_last(), b.remove(j), g);
        lemma_where_remove(b, g, j);
    }
}

/// Values whose sum fits at some scale covering them also fit at their own
/// largest non-zero scale.
pub proof fn lemma_part_fits(u: Seq<Dec>, s: u32)
    requires
        non_negative(u),
        scales_within(u, s),
        total(u, mantissa_at(s)) <= MAX_MANTISSA,
    ensures
        exact_total(u) <= MAX_MANTISSA,
{
    lemma_nonzero_scale(u);
    let su = nonzero_scale(u);
    if has_nonzero(u) {
        let i = choose|i: int| 0 <= i < u.len() && (#[trigger] u[i]).mantissa != 0 && u[i].scale == su;
        assert(su <= s);
    }
    assert(su <= s);
    lemma_total_at_sign(u, su);
    lemma_total_rescale(u, su, (s - su) as nat);
    assert((su + (s - su) as nat) as u32 == s);
    lemma_pow10_positive((s - su) as nat);
    let t = exact_total(u);
    assert(t <= t * pow10((s - su) as nat)) by (nonlinear_arith)
        requires t >= 0, pow10((s - su) as nat) >= 1;
}

/// Sequences with the same mantissas and scales, place by place, have the
/// same largest non-zero scale and the same sums at any scale.
pub proof fn lemma_same_digits(u: Seq<Dec>, w: Seq<Dec>, s: u32)
    requires
        u.len() == w.len(),
        forall|i: int| 0 <= i < u.len() ==> (#[trigger] u[i]).mantissa == w[i].mantissa && u[i].scale == w[i].scale,
    ensures
        nonzero_scale(u) == nonzero_scale(w),
        total(u, mantissa_at(s)) == total(w, mantissa_at(s)),
    decreases u.len(),
{
    if u.len() > 0 {
        let n = u.len() - 1;
        assert(u.last() == u[n] && w.last() == w[n]);
        assert forall|i: int| 0 <= i < n implies (#[trigger] u.drop_last()[i]).mantissa == w.drop_last()[i].mantissa
            && u.drop_last()[i].scale == w.drop_last()[i].scale by {
            assert(u.drop_last()[i] == u[i] && w.drop_last()[i] == w[i]);
        }
        lemma_same_digits(u.drop_last(), w.drop_last(), s);
        assert(mantissa_at(s)(u[n]) == mantissa_at(s)(w[n]));
    }
}

/// A group's absolute values are among all the absolute values: well formed,
/// non-negative, within the same scales, and no larger in sum.
pub proof fn lemma_where_within(es: Seq<Entry>, g: CoverageGroup, s: u32)
    requires
        entries_wf(es),
        scales_within(abs_values(es), s),
    ensures
        all_wf(abs_values_where(es, g)),
        non_negative(abs_values_where(es, g)),
        scales_within(abs_values_where(es, g), s),
        total(abs_values_where(es, g), mantissa_at(s)) <= total(abs_values(es), mantissa_at(s)),
    decreases es.len(),
{
    if es.len() > 0 {
        let rest = es.drop_last();
        let n = es.len() - 1;
        let x = es[n];
        assert(es.last() == x);
        assert(abs_values(es).drop_last() =~= abs_values(rest));
        assert(entries_wf(rest)) by {
            assert forall|i: int| 0 <= i < rest.len() implies (#[trigger] rest[i]).1.wf() by {
                assert(rest[i] == es[i]);
            }
        }
        assert(scales_within(abs_values(rest), s)) by {
            assert forall|i: int| 0 <= i < rest.len() && (#[trigger] abs_values(rest)[i]).mantissa != 0 implies abs_values(rest)[i].scale <= s by {
                assert(abs_values(rest)[i] == abs_values(es)[i]);
            }
        }
        lemma_where_within(rest, g, s);
        let ax = x.1.spec_abs();
        assert(abs_values(es)[n] == ax);
        assert(abs_values(es).last() == ax);
        assert(x.1.wf());
        assert(ax.wf());
        if ax.mantissa != 0 {
            assert(ax.scale <= s);
            lemma_pow10_positive((s - ax.scale) as nat);
            assert(ax.mantissa * pow10((s - ax.scale) as nat) >= 0) by (nonlinear_arith)
                requires ax.mantissa >= 0, pow10((s - ax.scale) as nat) > 0;
        }
        assert(mantissa_at(s)(ax) >= 0);
        let before = abs_values_where(rest, g);
        if in_group(g, x.2) {
            let v = abs_values_where(es, g);
            assert(v == before.push(ax));
            assert(v.drop_last() =~= before);
            assert forall|i: int| 0 <= i < v.len() implies (#[trigger] v[i]).wf() && v[i].mantissa >= 0
                && (v[i].mantissa != 0 ==> v[i].scale <= s) by {
                if i < before.len() {
                    assert(v[i] == before[i]);
                }
            }
        }
    }
}

/// No two positions share a symbol.
pub open spec fn distinct_symbols(es: Seq<Entry>) -> bool {
    forall|i: int, j: int| 0 <= i < es.len() && 0 <= j < es.len() && i != j ==> (#[trigger] es[i]).0 != (#[trigger] es[j]).0
}

proof fn lemma_distinct_count(s: Seq<Entry>, e: Entry)
    requires
        distinct_symbols(s),
    ensures
        s.to_multiset().count(e) <= 1,
    decreases s.len(),
{
    broadcast use vstd::seq_lib::group_to_multiset_ensures;
    if s.len() > 0 {
        let r = s.drop_last();
        let n = s.len() - 1;
        assert(r.push(s.last()) =~= s);
        assert(distinct_symbols(r)) by {
            assert forall|i: int, j: int| 0 <= i < r.len() && 0 <= j < r.len() && i != j implies (#[trigger] r[i]).0 != (#[trigger] r[j]).0 by {
                assert(r[i] == s[i] && r[j] == s[j]);
            }
        }
        lemma_distinct_count(r, e);
        if s.last() == e {
            assert(!r.contains(e)) by {
                if r.contains(e) {
                    let i = choose|i: int| 0 <= i < r.len() && r[i] == e;
                    assert(s[i] == e && s[n] == e);
                }
            }
        }
    }
}

proof fn lemma_duplicate_count(s: Seq<Entry>, i: int, j: int)
    requires
        0 <= i < s.len(),
        0 <= j < s.len(),
        i != j,
        s[i] == s[j],
    ensures
        s.to_multiset().count(s[i]) >= 2,
{
    broadcast use vstd::seq_lib::group_to_multiset_ensures;
    let r = s.remove(i);
    assert(r.to_multiset() =~= s.to_multiset().remove(s[i]));
    let k = if j < i { j } else { j - 1 };
    assert(r[k] == s[j]);
    assert(r.contains(s[i]));
    assert(r.to_multiset().count(s[i]) > 0);
}

/// Reordering keeps symbols distinct.
pub proof fn lemma_distinct_reordered(a: Seq<Entry>, b: Seq<Entry>)
    requires
        a.to_multiset() == b.to_multiset(),
        distinct_symbols(a),
    ensures
        distinct_symbols(b),
{
    broadcast use vstd::seq_lib::group_to_multiset_ensures;
    assert forall|i: int, j: int| 0 <= i < b.len() && 0 <= j < b.len() && i != j implies (#[trigger] b[i]).0 != (#[trigger] b[j]).0 by {
        if b[i].0 == b[j].0 {
            assert(b.to_multiset().count(b[i]) > 0);
            assert(b.to_multiset().count(b[j]) > 0);
            assert(a.contains(b[i]) && a.contains(b[j]));
            let p = choose|p: int| 0 <= p < a.len() && a[p] == b[i];
            let q = choose|q: int| 0 <= q < a.len() && a[q] == b[j];
            if p == q {
                lemma_duplicate_count(b, i, j);
                lemma_distinct_count(a, b[i]);
            }
        }
    }
}

/// With distinct symbols, two orderings of the same positions rank the same
/// positions first, place by place.
pub proof fn lemma_top_entries(a: Seq<Entry>, b: Seq<Entry>, c: Seq<int>, d: Seq<int>, k: int)
    requires
        a.to_multiset() == b.to_multiset(),
        distinct_symbols(a),
        distinct_symbols(b),
        top_ranked(a, c),
        top_ranked(b, d),
        0 <= k < c.len(),
    ensures
        c.len() == d.len(),
        forall|l: int| 0 <= l <= k ==> a[c[l]] == #[trigger] b[d[l]],
    decreases k,
{
    broadcast use vstd::seq_lib::group_to_multiset_ensures;
    assert(a.to_multiset().len() == a.len());
    assert(b.to_multiset().len() == b.len());
    if k > 0 {
        lemma_top_entries(a, b, c, d, k - 1);
    }
    let x = a[c[k]];
    let z = b[d[k]];
    assert(b.to_multiset().count(z) > 0);
    assert(a.contains(z));
    let m = choose|m: int| 0 <= m < a.len() && a[m] == z;
    assert(a.to_multiset().count(x) > 0);
    assert(b.contains(x));
    let n = choose|n: int| 0 <= n < b.len() && b[n] == x;
    if x != z {
        assert(!c.subrange(0, k + 1).contains(m)) by {
            if c.subrange(0, k + 1).contains(m) {
                let l = choose|l: int| 0 <= l < k + 1 && #[trigger] c.subrange(0, k + 1)[l] == m;
                assert(c[l] == m);
                if l < k {
                    assert(a[c[l]] == b[d[l]]);
                    assert(d[l] != d[k]);
                }
            }
        }
        assert(precedes(a, c[k], m));
        assert(!ranks_equal(x, z)) by {
            if ranks_equal(x, z) {
                assert(c[k] != m);
            }
        }
        assert(!d.subrange(0, k + 1).contains(n)) by {
            if d.subrange(0, k + 1).contains(n) {
                let l = choose|l: int| 0 <= l < k + 1 && #[trigger] d.subrange(0, k + 1)[l] == n;
                assert(d[l] == n);
                if l < k {
                    assert(a[c[l]] == b[d[l]]);
                    assert(c[l] != c[k]);
                }
            }
        }
        assert(precedes(b, d[k], n));
        lemma_rank_order(x, z, x);
        lemma_rank_order(z, x, z);
    }
}

/// Two sums that agree on their mantissa, and are equal unless zero.
pub open spec fn same_sum(x: Dec, y: Dec) -> bool {
    x.mantissa == y.mantissa && (x.mantissa != 0 ==> x == y)
}

/// Percentages of sums that agree in this way are the same.
pub proof fn lemma_percentage_same_sum(n1: Dec, n2: Dec, d1: Dec, d2: Dec)
    requires
        same_sum(n1, n2),
        same_sum(d1, d2) || (d1.mantissa <= 0 && d2.mantissa <= 0),
    ensures
        percentage_spec(n1, d1) == percentage_spec(n2, d2),
{
    reveal(decimal_div);
    if d1.mantissa > 0 && n1.mantissa == 0 {
        assert(decimal_div(n1, d1) == decimal_div(n2, d2));
    }
}

proof fn lemma_weights_same_sum(es: Seq<Entry>, t1: Dec, t2: Dec)
    requires
        same_sum(t1, t2) || (t1.mantissa <= 0 && t2.mantissa <= 0),
    ensures
        weights_spec(es, t1) == weights_spec(es, t2),
    decreases es.len(),
{
    if es.len() > 0 {
        lemma_weights_same_sum(es.drop_last(), t1, t2);
        lemma_percentage_same_sum(es.last().1, es.last().1, t1, t2);
    }
}

/// Two orderings of the same positions agree on every fact of their summary;
/// sums agree on their mantissa and are equal unless zero (a zero sum is
/// written as its last zero term, whose scale and sign depend on the order).
pub open spec fn facts_match(a: Seq<Entry>, fa: SummaryFacts, b: Seq<Entry>, fb: SummaryFacts) -> bool {
    &&& same_sum(fa.total, fb.total)
    &&& facts_match_apart_from_weights(a, fa, b, fb)
    &&& weights_agree(a, fa, b, fb)
}

/// Every fact of two summaries but the total and the weights agrees.
pub open spec fn facts_match_apart_from_weights(a: Seq<Entry>, fa: SummaryFacts, b: Seq<Entry>, fb: SummaryFacts) -> bool {
    &&& same_sum(fa.gross, fb.gross)
    &&& a[fa.top[0]] == b[fb.top[0]]
    &&& fa.largest_weight == fb.largest_weight
    &&& fa.top_three == fb.top_three
    &&& fa.supported == fb.supported
    &&& fa.covered == fb.covered
    &&& fa.unmatched == fb.unmatched
    &&& fa.unsupported == fb.unsupported
    &&& same_sum(fa.supported_gross, fb.supported_gross)
    &&& same_sum(fa.covered_gross, fb.covered_gross)
    &&& fa.count_percent == fb.count_percent
    &&& fa.value_percent == fb.value_percent
}

/// Each position has the same weight in both summaries.
pub open spec fn weights_agree(a: Seq<Entry>, fa: SummaryFacts, b: Seq<Entry>, fb: SummaryFacts) -> bool {
    forall|i: int, j: int| 0 <= i < a.len() && 0 <= j < b.len() && a[i] == b[j] ==> fa.weights[i] == fb.weights[j]
}

proof fn lemma_group_sums(a: Seq<Entry>, b: Seq<Entry>, g: CoverageGroup, s: u32)
    requires
        a.to_multiset() == b.to_multiset(),
        entries_wf(a),
        scales_within(abs_values(a), s),
        total(abs_values(a), mantissa_at(s)) <= MAX_MANTISSA,
    ensures
        sum_spec(abs_values_where(a, g)) matches Some(x) && sum_spec(abs_values_where(b, g)) matches Some(y)
            && same_sum(x, y),
{
    lemma_where_within(a, g, s);
    lemma_part_fits(abs_values_where(a, g), s);
    lemma_where_multiset(a, b, g);
    lemma_exact_sum_ignores_order(abs_values_where(a, g), abs_values_where(b, g));
}

/// Law: the review summary does not depend on the order of the positions
/// when no market value is negative, the symbols are distinct and the gross
/// value, written at the largest scale of the non-zero values, fits a
/// decimal; the scales may differ. The summaries agree on every fact (sums
/// as `same_sum` says) and each position keeps its weight.
pub proof fn lemma_summary_ignores_order_without_shorts(a: Seq<Entry>, b: Seq<Entry>)
    requires
        a.to_multiset() == b.to_multiset(),
        entries_wf(a),
        distinct_symbols(a),
        forall|i: int| 0 <= i < a.len() ==> (#[trigger] a[i]).1.mantissa >= 0,
        exact_total(abs_values(a)) <= MAX_MANTISSA,
    ensures
        summary_spec(a) is Err ==> summary_spec(b) == summary_spec(a),
        summary_spec(a) matches Ok(fa) ==> (summary_spec(b) matches Ok(fb) && facts_match(a, fa, b, fb)),
{
    broadcast use vstd::seq_lib::group_to_multiset_ensures;
    assert(a.to_multiset().len() == a.len());
    assert(b.to_multiset().len() == b.len());
    lemma_distinct_reordered(a, b);
    if a.len() > 0 {
        let ma = market_values(a);
        let mb = market_values(b);
        let aa = abs_values(a);
        let ab = abs_values(b);
        lemma_map_multiset(a, b, |e: Entry| e.1);
        lemma_map_multiset(a, b, |e: Entry| e.1.spec_abs());
        assert(ma =~= a.map_values(|e: Entry| e.1));
        assert(mb =~= b.map_values(|e: Entry| e.1));
        assert(aa =~= a.map_values(|e: Entry| e.1.spec_abs()));
        assert(ab =~= b.map_values(|e: Entry| e.1.spec_abs()));
        assert forall|i: int| 0 <= i < a.len() implies (#[trigger] ma[i]).wf() && ma[i].mantissa >= 0 && aa[i].wf()
            && aa[i].mantissa >= 0 && aa[i].mantissa == ma[i].mantissa && aa[i].scale == ma[i].scale by {
            assert(a[i].1.wf());
        }
        let s = nonzero_scale(aa);
        lemma_nonzero_scale(aa);
        lemma_same_digits(ma, aa, s);
        lemma_exact_sum_ignores_order(ma, mb);
        lemma_exact_sum_ignores_order(aa, ab);
        let ta = sum_spec(ma)->Some_0;
        let tb = sum_spec(mb)->Some_0;
        let ga = sum_spec(aa)->Some_0;
        let gb = sum_spec(ab)->Some_0;
        lemma_group_sums(a, b, CoverageGroup::Supported, s);
        lemma_group_sums(a, b, CoverageGroup::Covered, s);
        lemma_counts_ignore_order(a, b, CoverageGroup::Supported);
        lemma_counts_ignore_order(a, b, CoverageGroup::Covered);
        lemma_counts_ignore_order(a, b, CoverageGroup::Unmatched);
        lemma_counts_ignore_order(a, b, CoverageGroup::Unsupported);
        let sga = sum_spec(abs_values_where(a, CoverageGroup::Supported))->Some_0;
        let sgb = sum_spec(abs_values_where(b, CoverageGroup::Supported))->Some_0;
        let cga = sum_spec(abs_values_where(a, CoverageGroup::Covered))->Some_0;
        let cgb = sum_spec(abs_values_where(b, CoverageGroup::Covered))->Some_0;
        lemma_percentage_same_sum(cga, cgb, sga, sgb);
        lemma_weights_same_sum(b, tb, ta);
        lemma_weights_shape(a, ta);
        lemma_weights_shape(b, ta);
        assert((weights_spec(a, ta) is Err) == (weights_spec(b, ta) is Err)) by {
            if weights_spec(a, ta) is Err {
                let i = choose|i: int| 0 <= i < a.len() && (#[trigger] percentage_spec(a[i].1, ta)) is Err;
                assert(a.to_multiset().count(a[i]) > 0);
                assert(b.contains(a[i]));
                let j = choose|j: int| 0 <= j < b.len() && b[j] == a[i];
                assert(percentage_spec(b[j].1, ta) is Err);
            }
            if weights_spec(b, ta) is Err {
                let j = choose|j: int| 0 <= j < b.len() && (#[trigger] percentage_spec(b[j].1, ta)) is Err;
                assert(b.to_multiset().count(b[j]) > 0);
                assert(a.contains(b[j]));
                let i = choose|i: int| 0 <= i < a.len() && a[i] == b[j];
                assert(percentage_spec(a[i].1, ta) is Err);
            }
        }
        lemma_top_exists(a);
        lemma_top_exists(b);
        let ca = top_three(a);
        let cb = top_three(b);
        lemma_top_entries(a, b, ca, cb, ca.len() - 1);
        let va = ca.map_values(|i: int| a[i].1.spec_abs());
        let vb = cb.map_values(|i: int| b[i].1.spec_abs());
        assert(va =~= vb) by {
            assert forall|k: int| 0 <= k < va.len() implies va[k] == vb[k] by {
                assert(a[ca[k]] == b[cb[k]]);
            }
        }
        let x = a[ca[0]].1.spec_abs();
        assert(b[cb[0]].1.spec_abs() == x);
        lemma_percentage_same_sum(x, x, ga, gb);
        if sum_spec(va) is Some {
            let t3 = sum_spec(va)->Some_0;
            lemma_percentage_same_sum(t3, t3, ga, gb);
        }
        if summary_spec(a) is Ok {
            let fa = summary_spec(a)->Ok_0;
            let fb = summary_spec(b)->Ok_0;
            let wa = weights_spec(a, ta)->Ok_0;
            let wb = weights_spec(b, ta)->Ok_0;
            assert forall|i: int, j: int| 0 <= i < a.len() && 0 <= j < b.len() && a[i] == b[j] implies fa.weights[i] == fb.weights[j] by {
                assert(percentage_spec(a[i].1, ta) == Ok::<Option<Dec>, ReviewError>(wa[i]));
                assert(percentage_spec(b[j].1, ta) == Ok::<Option<Dec>, ReviewError>(wb[j]));
            }
        }
    }
}

/// Two sums equal when written at a scale `s` that covers them have the
/// same value, and both or neither are positive.
proof fn lemma_value_from_at(x: Dec, y: Dec, s: u32)
    requires
        x.mantissa != 0 ==> x.scale <= s,
        y.mantissa != 0 ==> y.scale <= s,
        mantissa_at(s)(x) == mantissa_at(s)(y),
    ensures
        x.same_value(y),
        (x.mantissa > 0) == (y.mantissa > 0),
{
    let px = pow10((s - x.scale) as nat);
    let py = pow10((s - y.scale) as nat);
    lemma_pow10_positive((s - x.scale) as nat);
    lemma_pow10_positive((s - y.scale) as nat);
    lemma_pow10_positive(x.scale as nat);
    lemma_pow10_positive(y.scale as nat);
    lemma_pow10_positive(s as nat);
    let xm = x.mantissa as int;
    let ym = y.mantissa as int;
    if x.mantissa != 0 && y.mantissa != 0 {
        vstd::arithmetic::power::lemma_pow_adds(10, (s - x.scale) as nat, x.scale as nat);
        vstd::arithmetic::power::lemma_pow_adds(10, (s - y.scale) as nat, y.scale as nat);
        assert((s - x.scale) as nat + x.scale as nat == s as nat);
        assert((s - y.scale) as nat + y.scale as nat == s as nat);
        let qx = pow10(x.scale as nat);
        let qy = pow10(y.scale as nat);
        let ps = pow10(s as nat);
        assert(xm * px == ym * py);
        assert(px * qx == ps && py * qy == ps);
        assert(xm * qy * ps == ym * qx * ps) by (nonlinear_arith)
            requires xm * px == ym * py, px * qx == ps, py * qy == ps;
        assert(xm * qy == ym * qx) by (nonlinear_arith)
            requires xm * qy * ps == ym * qx * ps, ps > 0;
        assert((xm > 0) == (ym > 0)) by (nonlinear_arith)
            requires xm * px == ym * py, px > 0, py > 0;
    } else if x.mantissa != 0 {
        assert(xm * px != 0) by (nonlinear_arith)
            requires xm != 0, px > 0;
    } else if y.mantissa != 0 {
        assert(ym * py != 0) by (nonlinear_arith)
            requires ym != 0, py > 0;
    }
}

/// Signed values and their magnitudes have the same largest non-zero scale,
/// and the magnitudes of the first sum as the second.
proof fn lemma_signed_and_abs(u: Seq<Dec>, w: Seq<Dec>, s: u32)
    requires
        u.len() == w.len(),
        all_wf(u),
        forall|i: int| 0 <= i < u.len() ==> #[trigger] w[i] == u[i].spec_abs(),
    ensures
        nonzero_scale(u) == nonzero_scale(w),
        total(u, magnitude_at(s)) == total(w, mantissa_at(s)),
    decreases u.len(),
{
    if u.len() > 0 {
        let n = u.len() - 1;
        assert(u.last() == u[n] && w.last() == w[n]);
        assert forall|i: int| 0 <= i < n implies #[trigger] w.drop_last()[i] == u.drop_last()[i].spec_abs()
            && u.drop_last()[i].wf() by {
            assert(u.drop_last()[i] == u[i] && w.drop_last()[i] == w[i]);
        }
        lemma_signed_and_abs(u.drop_last(), w.drop_last(), s);
        assert(u[n].wf());
        assert(w[n].mantissa == mantissa_size(u[n].mantissa as int));
        assert(w[n].scale == u[n].scale);
        assert(magnitude_at(s)(u[n]) == mantissa_at(s)(w[n]));
    }
}

/// Law: for every reordering of positions with distinct symbols whose gross
/// value, written at the largest scale of the non-zero values, fits a
/// decimal (any scales, any signs): both totals are exact sums with the same
/// value, and both or neither are positive; when both summaries succeed, all
/// their facts but the weights agree (sums as `same_sum` says); and when the
/// two totals are written alike, or are not positive, the summaries fail
/// together or agree on every fact, each position keeping its weight.
pub proof fn lemma_summary_ignores_order_at_any_scale(a: Seq<Entry>, b: Seq<Entry>)
    requires
        a.to_multiset() == b.to_multiset(),
        entries_wf(a),
        distinct_symbols(a),
        exact_total(abs_values(a)) <= MAX_MANTISSA,
    ensures
        sum_spec(market_values(a)) matches Some(ta) && sum_spec(market_values(b)) matches Some(tb) && {
            &&& ta.same_value(tb)
            &&& (ta.mantissa > 0) == (tb.mantissa > 0)
            &&& (ta == tb || ta.mantissa <= 0) ==> {
                &&& summary_spec(a) is Err ==> summary_spec(b) == summary_spec(a)
                &&& summary_spec(a) matches Ok(fa) ==> (summary_spec(b) matches Ok(fb)
                    && facts_match_apart_from_weights(a, fa, b, fb) && weights_agree(a, fa, b, fb))
            }
        },
        summary_spec(a) is Ok && summary_spec(b) is Ok
            ==> facts_match_apart_from_weights(a, summary_spec(a)->Ok_0, b, summary_spec(b)->Ok_0),
{
    broadcast use vstd::seq_lib::group_to_multiset_ensures;
    assert(a.to_multiset().len() == a.len());
    assert(b.to_multiset().len() == b.len());
    lemma_distinct_reordered(a, b);
    let ma = market_values(a);
    let mb = market_values(b);
    let aa = abs_values(a);
    let ab = abs_values(b);
    lemma_map_multiset(a, b, |e: Entry| e.1);
    lemma_map_multiset(a, b, |e: Entry| e.1.spec_abs());
    assert(ma =~= a.map_values(|e: Entry| e.1));
    assert(mb =~= b.map_values(|e: Entry| e.1));
    assert(aa =~= a.map_values(|e: Entry| e.1.spec_abs()));
    assert(ab =~= b.map_values(|e: Entry| e.1.spec_abs()));
    assert forall|i: int| 0 <= i < a.len() implies (#[trigger] ma[i]).wf() && aa[i].wf() && aa[i].mantissa >= 0
        && aa[i] == ma[i].spec_abs() by {
        assert(a[i].1.wf());
    }
    let s = nonzero_scale(aa);
    lemma_nonzero_scale(aa);
    lemma_signed_and_abs(ma, aa, s);
    lemma_reordered_values(ma, mb);
    lemma_total_ignores_order(ma, mb, magnitude_at(s));
    lemma_total_ignores_order(ma, mb, mantissa_at(s));
    lemma_signed_exact_sum(ma);
    lemma_signed_exact_sum(mb);
    let ta = sum_spec(ma)->Some_0;
    let tb = sum_spec(mb)->Some_0;
    lemma_value_from_at(ta, tb, s);
    lemma_exact_sum_ignores_order(aa, ab);
    let ga = sum_spec(aa)->Some_0;
    let gb = sum_spec(ab)->Some_0;
    if a.len() > 0 {
        lemma_group_sums(a, b, CoverageGroup::Supported, s);
        lemma_group_sums(a, b, CoverageGroup::Covered, s);
        lemma_counts_ignore_order(a, b, CoverageGroup::Supported);
        lemma_counts_ignore_order(a, b, CoverageGroup::Covered);
        lemma_counts_ignore_order(a, b, CoverageGroup::Unmatched);
        lemma_counts_ignore_order(a, b, CoverageGroup::Unsupported);
        let sga = sum_spec(abs_values_where(a, CoverageGroup::Supported))->Some_0;
        let sgb = sum_spec(abs_values_where(b, CoverageGroup::Supported))->Some_0;
        let cga = sum_spec(abs_values_where(a, CoverageGroup::Covered))->Some_0;
        let cgb = sum_spec(abs_values_where(b, CoverageGroup::Covered))->Some_0;
        lemma_percentage_same_sum(cga, cgb, sga, sgb);
        lemma_top_exists(a);
        lemma_top_exists(b);
        let ca = top_three(a);
        let cb = top_three(b);
        lemma_top_entries(a, b, ca, cb, ca.len() - 1);
        let va = ca.map_values(|i: int| a[i].1.spec_abs());
        let vb = cb.map_values(|i: int| b[i].1.spec_abs());
        assert(va =~= vb) by {
            assert forall|k: int| 0 <= k < va.len() implies va[k] == vb[k] by {
                assert(a[ca[k]] == b[cb[k]]);
            }
        }
        let x = a[ca[0]].1.spec_abs();
        assert(b[cb[0]].1.spec_abs() == x);
        lemma_percentage_same_sum(x, x, ga, gb);
        if sum_spec(va) is Some {
            let t3 = sum_spec(va)->Some_0;
            lemma_percentage_same_sum(t3, t3, ga, gb);
        }
        if ta == tb || ta.mantissa <= 0 {
            lemma_weights_same_sum(b, tb, ta);
            lemma_weights_shape(a, ta);
            lemma_weights_shape(b, ta);
            assert((weights_spec(a, ta) is Err) == (weights_spec(b, ta) is Err)) by {
                if weights_spec(a, ta) is Err {
                    let i = choose|i: int| 0 <= i < a.len() && (#[trigger] percentage_spec(a[i].1, ta)) is Err;
                    assert(a.to_multiset().count(a[i]) > 0);
                    assert(b.contains(a[i]));
                    let j = choose|j: int| 0 <= j < b.len() && b[j] == a[i];
                    assert(percentage_spec(b[j].1, ta) is Err);
                }
                if weights_spec(b, ta) is Err {
                    let j = choose|j: int| 0 <= j < b.len() && (#[trigger] percentage_spec(b[j].1, ta)) is Err;
                    assert(b.to_multiset().count(b[j]) > 0);
                    assert(a.contains(b[j]));
                    let i = choose|i: int| 0 <= i < a.len() && a[i] == b[j];
                    assert(percentage_spec(a[i].1, ta) is Err);
                }
            }
            if summary_spec(a) is Ok {
                let fa = summary_spec(a)->Ok_0;
                let fb = summary_spec(b)->Ok_0;
                let wa = weights_spec(a, ta)->Ok_0;
                let wb = weights_spec(b, ta)->Ok_0;
                assert forall|i: int, j: int| 0 <= i < a.len() && 0 <= j < b.len() && a[i] == b[j] implies fa.weights[i] == fb.weights[j] by {
                    assert(percentage_spec(a[i].1, ta) == Ok::<Option<Dec>, ReviewError>(wa[i]));
                    assert(percentage_spec(b[j].1, ta) == Ok::<Option<Dec>, ReviewError>(wb[j]));
                }
            }
        }
    }
}

} // verus!
