//! The order of a portfolio's positions does not change its review summary,
//! when their market values are written at one scale.
use crate::decimal::{aligned, common_scale, decimal_add, lemma_pow10_positive, pow10, Dec, MAX_MANTISSA};
use crate::review::calculations::{
    abs_values, abs_values_where, all_wf, count_where, entries_wf, in_group, lemma_counts_ignore_order,
    lemma_largest_ignores_order, lemma_precedes_order, market_values, percentage_spec, precedes, sum_spec,
    summary_spec, top_ranked, top_three, weights_spec, CoverageGroup, Entry, SummaryFacts,
};
use crate::review::domain::ReviewError;
use vstd::prelude::*;

verus! {

/// The sum of an integer weight over a sequence.
pub open spec fn total<T>(s: Seq<T>, w: spec_fn(T) -> int) -> int
    decreases s.len(),
{
    if s.len() == 0 {
        0
    } else {
        total(s.drop_last(), w) + w(s.last())
    }
}

proof fn lemma_total_remove<T>(s: Seq<T>, w: spec_fn(T) -> int, j: int)
    requires
        0 <= j < s.len(),
    ensures
        total(s, w) == total(s.remove(j), w) + w(s[j]),
    decreases s.len(),
{
    if j < s.len() - 1 {
        lemma_total_remove(s.drop_last(), w, j);
        assert(s.remove(j).drop_last() =~= s.drop_last().remove(j));
        assert(s.remove(j).last() == s.last());
    } else {
        assert(s.remove(j) =~= s.drop_last());
    }
}

/// A sum does not depend on the order of what it adds up.
pub proof fn lemma_total_ignores_order<T>(a: Seq<T>, b: Seq<T>, w: spec_fn(T) -> int)
    requires
        a.to_multiset() == b.to_multiset(),
    ensures
        total(a, w) == total(b, w),
    decreases a.len(),
{
    broadcast use vstd::seq_lib::group_to_multiset_ensures;
    if a.len() == 0 {
        assert(a.to_multiset().len() == a.len());
        assert(b.to_multiset().len() == b.len());
        assert(b.len() == 0);
    } else {
        let x = a.last();
        assert(a.drop_last().push(x) =~= a);
        assert(a.to_multiset().count(x) > 0);
        assert(b.to_multiset().count(x) > 0);
        assert(b.contains(x));
        let j = choose|j: int| 0 <= j < b.len() && b[j] == x;
        assert(b.remove(j).to_multiset() =~= b.to_multiset().remove(x));
        assert(a.drop_last().to_multiset() =~= a.to_multiset().remove(x));
        lemma_total_ignores_order(a.drop_last(), b.remove(j), w);
        lemma_total_remove(b, w, j);
    }
}

proof fn lemma_total_monotone<T>(s: Seq<T>, v: spec_fn(T) -> int, w: spec_fn(T) -> int)
    requires
        forall|x: T| #[trigger] v(x) <= w(x),
    ensures
        total(s, v) <= total(s, w),
    decreases s.len(),
{
    if s.len() > 0 {
        lemma_total_monotone(s.drop_last(), v, w);
    }
}

/// The magnitude of a decimal's mantissa.
pub open spec fn magnitude(d: Dec) -> int {
    if d.mantissa < 0 {
        -d.mantissa
    } else {
        d.mantissa as int
    }
}

pub open spec fn mantissa_of() -> spec_fn(Dec) -> int {
    |d: Dec| d.mantissa as int
}

pub open spec fn magnitude_of() -> spec_fn(Dec) -> int {
    |d: Dec| magnitude(d)
}

/// All values are written at scale `sc`.
pub open spec fn at_scale(v: Seq<Dec>, sc: u32) -> bool {
    forall|i: int| 0 <= i < v.len() ==> (#[trigger] v[i]).scale == sc
}

proof fn lemma_signed_within_gross(v: Seq<Dec>)
    ensures
        -total(v, magnitude_of()) <= total(v, mantissa_of()) <= total(v, magnitude_of()),
        0 <= total(v, magnitude_of()),
    decreases v.len(),
{
    if v.len() > 0 {
        lemma_signed_within_gross(v.drop_last());
    }
}

/// Summing values of one scale whose magnitudes add up within 96 bits is
/// exact: the sum of the mantissas at that scale (zero at scale 0 for none),
/// with a sign flag that agrees with a non-zero sum and stays clear when
/// every value's flag is clear.
proof fn lemma_sum_at_scale(v: Seq<Dec>, sc: u32)
    requires
        at_scale(v, sc),
        all_wf(v),
        total(v, magnitude_of()) <= MAX_MANTISSA,
    ensures
        sum_spec(v) matches Some(d) && {
            &&& d.mantissa == total(v, mantissa_of())
            &&& d.scale == (if v.len() == 0 { 0 } else { sc })
            &&& d.wf()
            &&& (forall|i: int| 0 <= i < v.len() ==> !(#[trigger] v[i]).negative) ==> !d.negative
        },
    decreases v.len(),
{
    reveal(decimal_add);
    if v.len() > 0 {
        let rest = v.drop_last();
        let x = v.last();
        assert(at_scale(rest, sc) && all_wf(rest)) by {
            assert forall|i: int| 0 <= i < rest.len() implies (#[trigger] rest[i]).scale == sc && rest[i].wf() by {
                assert(rest[i] == v[i]);
            }
        }
        lemma_signed_within_gross(rest);
        lemma_signed_within_gross(v);
        lemma_sum_at_scale(rest, sc);
        assert(x.scale == sc);
        assert(x == v[v.len() - 1]);
        assert(x.wf());
        vstd::arithmetic::power::lemma_pow0(10);
        assert(pow10(0) == 1);
        let t = sum_spec(rest)->Some_0;
        if (forall|i: int| 0 <= i < v.len() ==> !(#[trigger] v[i]).negative) {
            assert forall|i: int| 0 <= i < rest.len() implies !(#[trigger] rest[i]).negative by {
                assert(rest[i] == v[i]);
            }
            assert(!x.negative);
        }
        assert(magnitude(x) == magnitude_of()(x));
        assert(x.mantissa as int == mantissa_of()(x));
        if rest.len() > 0 {
            assert(aligned(t, sc) == t.mantissa);
            assert(aligned(x, sc) == x.mantissa);
            assert(common_scale(t, x) == sc);
        } else {
            assert(total(rest, mantissa_of()) == 0);
        }
    }
}

pub open spec fn zero_weight() -> spec_fn(Entry) -> int {
    |e: Entry| 0int
}

pub open spec fn signed_weight() -> spec_fn(Entry) -> int {
    |e: Entry| e.1.mantissa as int
}

pub open spec fn gross_weight() -> spec_fn(Entry) -> int {
    |e: Entry| magnitude(e.1)
}

pub open spec fn group_weight(g: CoverageGroup) -> spec_fn(Entry) -> int {
    |e: Entry| if in_group(g, e.2) { magnitude(e.1) } else { 0 }
}

/// Every position's market value is written at scale `sc`.
pub open spec fn one_scale(es: Seq<Entry>, sc: u32) -> bool {
    forall|i: int| 0 <= i < es.len() ==> (#[trigger] es[i]).1.scale == sc
}

/// The gross value of the positions, as a mantissa at their common scale.
pub open spec fn gross_mantissa(es: Seq<Entry>) -> int {
    total(es, gross_weight())
}

proof fn lemma_market_values(es: Seq<Entry>, sc: u32)
    requires
        one_scale(es, sc),
        entries_wf(es),
    ensures
        at_scale(market_values(es), sc),
        total(market_values(es), mantissa_of()) == total(es, signed_weight()),
        total(market_values(es), magnitude_of()) == total(es, gross_weight()),
        at_scale(abs_values(es), sc),
        total(abs_values(es), mantissa_of()) == total(es, gross_weight()),
        total(abs_values(es), magnitude_of()) == total(es, gross_weight()),
        all_wf(market_values(es)),
        all_wf(abs_values(es)),
        forall|i: int| 0 <= i < es.len() ==> !(#[trigger] abs_values(es)[i]).negative,
    decreases es.len(),
{
    assert forall|i: int| 0 <= i < es.len() implies (#[trigger] market_values(es)[i]).wf() && abs_values(es)[i].wf() by {
        assert(es[i].1.wf());
    }
    if es.len() > 0 {
        let rest = es.drop_last();
        assert(market_values(es).drop_last() =~= market_values(rest));
        assert(abs_values(es).drop_last() =~= abs_values(rest));
        assert(one_scale(rest, sc)) by {
            assert forall|i: int| 0 <= i < rest.len() implies (#[trigger] rest[i]).1.scale == sc by {
                assert(rest[i] == es[i]);
            }
        }
        assert(entries_wf(rest)) by {
            assert forall|i: int| 0 <= i < rest.len() implies (#[trigger] rest[i]).1.wf() by {
                assert(rest[i] == es[i]);
            }
        }
        lemma_market_values(rest, sc);
        let x = es.last();
        assert(x == es[es.len() - 1]);
        assert(x.1.wf());
        assert(market_values(es).last() == x.1);
        assert(abs_values(es).last() == x.1.spec_abs());
        assert(mantissa_of()(x.1) == signed_weight()(x));
        assert(magnitude_of()(x.1) == gross_weight()(x));
        assert(mantissa_of()(x.1.spec_abs()) == gross_weight()(x));
        assert(magnitude_of()(x.1.spec_abs()) == gross_weight()(x));
    }
}

proof fn lemma_group_values(es: Seq<Entry>, g: CoverageGroup, sc: u32)
    requires
        one_scale(es, sc),
        entries_wf(es),
    ensures
        at_scale(abs_values_where(es, g), sc),
        total(abs_values_where(es, g), mantissa_of()) == total(es, group_weight(g)),
        total(abs_values_where(es, g), magnitude_of()) == total(es, group_weight(g)),
        abs_values_where(es, g).len() == count_where(es, g),
        all_wf(abs_values_where(es, g)),
        forall|i: int| 0 <= i < abs_values_where(es, g).len() ==> !(#[trigger] abs_values_where(es, g)[i]).negative,
    decreases es.len(),
{
    if es.len() > 0 {
        let rest = es.drop_last();
        assert(one_scale(rest, sc)) by {
            assert forall|i: int| 0 <= i < rest.len() implies (#[trigger] rest[i]).1.scale == sc by {
                assert(rest[i] == es[i]);
            }
        }
        assert(entries_wf(rest)) by {
            assert forall|i: int| 0 <= i < rest.len() implies (#[trigger] rest[i]).1.wf() by {
                assert(rest[i] == es[i]);
            }
        }
        lemma_group_values(rest, g, sc);
        let x = es.last();
        assert(x == es[es.len() - 1]);
        assert(x.1.wf());
        let before = abs_values_where(rest, g);
        if in_group(g, x.2) {
            assert(abs_values_where(es, g) == before.push(x.1.spec_abs()));
            assert(before.push(x.1.spec_abs()).drop_last() =~= before);
            assert(mantissa_of()(x.1.spec_abs()) == group_weight(g)(x));
            assert(magnitude_of()(x.1.spec_abs()) == group_weight(g)(x));
            let v = abs_values_where(es, g);
            assert forall|i: int| 0 <= i < v.len() implies (#[trigger] v[i]).scale == sc && v[i].wf() && !v[i].negative by {
                if i < before.len() {
                    assert(v[i] == before[i]);
                }
            }
        } else {
            assert(group_weight(g)(x) == 0);
        }
    }
}

/// The weights of groups never exceed the gross weight.
proof fn lemma_group_within_gross(es: Seq<Entry>, g: CoverageGroup)
    ensures
        0 <= total(es, group_weight(g)) <= total(es, gross_weight()),
{
    assert forall|x: Entry| #[trigger] group_weight(g)(x) <= gross_weight()(x) by {}
    lemma_total_monotone(es, group_weight(g), gross_weight());
    assert forall|x: Entry| #[trigger] zero_weight()(x) <= group_weight(g)(x) by {}
    lemma_total_monotone(es, zero_weight(), group_weight(g));
    lemma_total_zero(es);
}

proof fn lemma_total_zero(es: Seq<Entry>)
    ensures
        total(es, zero_weight()) == 0,
    decreases es.len(),
{
    if es.len() > 0 {
        lemma_total_zero(es.drop_last());
    }
}

/// At one scale, decimals compare as their mantissas do.
proof fn lemma_compare_at_scale(x: Dec, y: Dec)
    requires
        x.scale == y.scale,
    ensures
        x.lt(y) == (x.mantissa < y.mantissa),
        x.same_value(y) == (x.mantissa == y.mantissa),
{
    let p = pow10(x.scale as nat);
    lemma_pow10_positive(x.scale as nat);
    let a = x.mantissa as int;
    let b = y.mantissa as int;
    assert((a * p < b * p) == (a < b)) by (nonlinear_arith)
        requires
            p > 0,
    ;
    assert((a * p == b * p) == (a == b)) by (nonlinear_arith)
        requires
            p > 0,
    ;
}

/// A position ranked before another has at least its magnitude.
proof fn lemma_precedes_magnitude(es: Seq<Entry>, sc: u32, i: int, j: int)
    requires
        one_scale(es, sc),
        entries_wf(es),
        0 <= i < es.len(),
        0 <= j < es.len(),
        precedes(es, i, j),
    ensures
        magnitude(es[j].1) <= magnitude(es[i].1),
{
    let x = es[i].1;
    let y = es[j].1;
    assert(x.wf() && y.wf());
    assert(x.scale == sc && y.scale == sc);
    lemma_compare_at_scale(y.spec_abs(), x.spec_abs());
    assert(x.spec_abs().mantissa == magnitude(x));
    assert(y.spec_abs().mantissa == magnitude(y));
}

/// The index below `n` and outside `ex` that is ranked before every other
/// such index.
proof fn lemma_best(es: Seq<Entry>, ex: Seq<int>, n: int) -> (m: int)
    requires
        0 <= n <= es.len(),
        exists|i: int| 0 <= i < n && !ex.contains(i),
    ensures
        0 <= m < n,
        !ex.contains(m),
        forall|j: int| 0 <= j < n && !ex.contains(j) && j != m ==> #[trigger] precedes(es, m, j),
    decreases n,
{
    if exists|i: int| 0 <= i < n - 1 && !ex.contains(i) {
        let r = lemma_best(es, ex, n - 1);
        if ex.contains(n - 1) {
            r
        } else {
            lemma_precedes_order(es, r, n - 1, r);
            if precedes(es, n - 1, r) {
                assert forall|j: int| 0 <= j < n && !ex.contains(j) && j != n - 1 implies #[trigger] precedes(es, n - 1, j) by {
                    if j != r {
                        assert(precedes(es, r, j));
                        lemma_precedes_order(es, n - 1, r, j);
                    }
                }
                n - 1
            } else {
                r
            }
        }
    } else {
        let i = choose|i: int| 0 <= i < n && !ex.contains(i);
        assert(i == n - 1);
        n - 1
    }
}

/// Every non-empty portfolio has a ranking of its first three positions.
pub proof fn lemma_top_exists(es: Seq<Entry>)
    requires
        es.len() > 0,
    ensures
        top_ranked(es, top_three(es)),
{
    let n = es.len() as int;
    let e0: Seq<int> = Seq::empty();
    assert(!e0.contains(0));
    let c0 = lemma_best(es, e0, n);
    if n == 1 {
        let c = seq![c0];
        assert forall|k: int, j: int|
            0 <= k < c.len() && 0 <= j < es.len() && !c.subrange(0, k + 1).contains(j)
                implies #[trigger] precedes(es, c[k], j) by {
            assert(c.subrange(0, k + 1) =~= c);
            assert(j != c0) by {
                if j == c0 {
                    assert(c[0] == j);
                }
            }
        }
        assert(top_ranked(es, c));
    } else {
        let e1 = seq![c0];
        let w1: int = if c0 == 0 { 1 } else { 0 };
        assert(!e1.contains(w1)) by {
            if e1.contains(w1) {
                assert(e1[0] == w1);
            }
        }
        let c1 = lemma_best(es, e1, n);
        assert(c1 != c0) by {
            if c1 == c0 {
                assert(e1[0] == c1);
            }
        }
        if n == 2 {
            let c = seq![c0, c1];
            assert forall|k: int, j: int|
                0 <= k < c.len() && 0 <= j < es.len() && !c.subrange(0, k + 1).contains(j)
                    implies #[trigger] precedes(es, c[k], j) by {
                if k == 0 {
                    assert(c.subrange(0, 1)[0] == c0);
                    assert(j != c0);
                } else {
                    assert(c.subrange(0, 2) =~= c);
                    assert(j != c0) by {
                        if j == c0 {
                            assert(c[0] == j);
                        }
                    }
                    assert(j != c1) by {
                        if j == c1 {
                            assert(c[1] == j);
                        }
                    }
                    assert(!e1.contains(j)) by {
                        if e1.contains(j) {
                            assert(e1[0] == j);
                        }
                    }
                }
            }
            assert(top_ranked(es, c));
        } else {
            let e2 = seq![c0, c1];
            let w2: int = if c0 != 0 && c1 != 0 { 0 } else if c0 != 1 && c1 != 1 { 1 } else { 2 };
            assert(!e2.contains(w2)) by {
                if e2.contains(w2) {
                    let q = choose|q: int| 0 <= q < e2.len() && e2[q] == w2;
                    assert(q == 0 || q == 1);
                }
            }
            let c2 = lemma_best(es, e2, n);
            assert(c2 != c0 && c2 != c1) by {
                if c2 == c0 {
                    assert(e2[0] == c2);
                }
                if c2 == c1 {
                    assert(e2[1] == c2);
                }
            }
            let c = seq![c0, c1, c2];
            assert forall|k: int, j: int|
                0 <= k < c.len() && 0 <= j < es.len() && !c.subrange(0, k + 1).contains(j)
                    implies #[trigger] precedes(es, c[k], j) by {
                if k == 0 {
                    assert(c.subrange(0, 1)[0] == c0);
                    assert(j != c0);
                } else if k == 1 {
                    assert(c.subrange(0, 2)[0] == c0);
                    assert(c.subrange(0, 2)[1] == c1);
                    assert(j != c0 && j != c1);
                    assert(!e1.contains(j)) by {
                        if e1.contains(j) {
                            assert(e1[0] == j);
                        }
                    }
                } else {
                    assert(c.subrange(0, 3) =~= c);
                    assert(j != c0) by {
                        if j == c0 {
                            assert(c[0] == j);
                        }
                    }
                    assert(j != c1) by {
                        if j == c1 {
                            assert(c[1] == j);
                        }
                    }
                    assert(j != c2) by {
                        if j == c2 {
                            assert(c[2] == j);
                        }
                    }
                    assert(!e2.contains(j)) by {
                        if e2.contains(j) {
                            let q = choose|q: int| 0 <= q < e2.len() && e2[q] == j;
                            assert(q == 0 || q == 1);
                        }
                    }
                }
            }
            assert(top_ranked(es, c));
        }
    }
}

/// One for each entry that satisfies `p`.
pub open spec fn indicator(p: spec_fn(Entry) -> bool) -> spec_fn(Entry) -> int {
    |e: Entry| if p(e) { 1int } else { 0int }
}

pub open spec fn above(t: int) -> spec_fn(Entry) -> bool {
    |e: Entry| magnitude(e.1) > t
}

pub open spec fn at_least(t: int) -> spec_fn(Entry) -> bool {
    |e: Entry| magnitude(e.1) >= t
}

pub open spec fn indices_where(es: Seq<Entry>, p: spec_fn(Entry) -> bool) -> Set<int> {
    Set::new(|i: int| 0 <= i < es.len() && p(es[i]))
}

/// Counting the entries that satisfy `p` counts their indices.
proof fn lemma_count_is_card(es: Seq<Entry>, p: spec_fn(Entry) -> bool)
    ensures
        indices_where(es, p).finite(),
        indices_where(es, p).len() == total(es, indicator(p)),
    decreases es.len(),
{
    let s = indices_where(es, p);
    if es.len() == 0 {
        assert(s =~= Set::<int>::empty());
    } else {
        let n = es.len() - 1;
        let rest = es.drop_last();
        lemma_count_is_card(rest, p);
        let r = indices_where(rest, p);
        assert(!r.contains(n));
        if p(es.last()) {
            assert(s =~= r.insert(n)) by {
                assert forall|i: int| s.contains(i) <==> r.insert(n).contains(i) by {
                    if 0 <= i < n {
                        assert(rest[i] == es[i]);
                    }
                }
            }
        } else {
            assert(s =~= r) by {
                assert forall|i: int| s.contains(i) <==> r.contains(i) by {
                    if 0 <= i < n {
                        assert(rest[i] == es[i]);
                    }
                }
            }
        }
        assert(indicator(p)(es.last()) == if p(es.last()) { 1int } else { 0int });
    }
}

/// Counts grow with the predicate.
proof fn lemma_count_monotone(es: Seq<Entry>, p: spec_fn(Entry) -> bool, q: spec_fn(Entry) -> bool)
    requires
        forall|e: Entry| #[trigger] p(e) ==> q(e),
    ensures
        total(es, indicator(p)) <= total(es, indicator(q)),
{
    assert forall|e: Entry| #[trigger] indicator(p)(e) <= indicator(q)(e) by {
        if p(e) {
            assert(q(e));
        }
    }
    lemma_total_monotone(es, indicator(p), indicator(q));
}

/// The `k`-th of the top three: fewer than `k + 1` positions exceed its
/// magnitude, and at least `k + 1` reach it.
proof fn lemma_top_counts(es: Seq<Entry>, sc: u32, c: Seq<int>, k: int)
    requires
        one_scale(es, sc),
        entries_wf(es),
        top_ranked(es, c),
        0 <= k < c.len(),
    ensures
        total(es, indicator(above(magnitude(es[c[k]].1)))) <= k,
        total(es, indicator(at_least(magnitude(es[c[k]].1)))) >= k + 1,
{
    broadcast use vstd::set::group_set_axioms, vstd::seq_lib::seq_to_set_is_finite;
    let x = magnitude(es[c[k]].1);
    let over = indices_where(es, above(x));
    let reach = indices_where(es, at_least(x));
    lemma_count_is_card(es, above(x));
    lemma_count_is_card(es, at_least(x));
    let before = c.subrange(0, k);
    let upto = c.subrange(0, k + 1);
    assert(over.subset_of(before.to_set())) by {
        assert forall|i: int| over.contains(i) implies before.to_set().contains(i) by {
            if !before.contains(i) {
                if i == c[k] {
                    assert(false);
                } else {
                    assert(!upto.contains(i)) by {
                        if upto.contains(i) {
                            let q = choose|q: int| 0 <= q < upto.len() && upto[q] == i;
                            if q < k {
                                assert(before[q] == i);
                            }
                        }
                    }
                    assert(precedes(es, c[k], i));
                    lemma_precedes_magnitude(es, sc, c[k], i);
                }
            }
        }
    }
    before.lemma_cardinality_of_set();
    vstd::set_lib::lemma_len_subset(over, before.to_set());
    assert(upto.no_duplicates()) by {
        assert forall|p: int, q: int| 0 <= p < upto.len() && 0 <= q < upto.len() && p != q implies upto[p] != upto[q] by {
            assert(upto[p] == c[p] && upto[q] == c[q]);
        }
    }
    upto.unique_seq_to_set();
    assert(upto.to_set().subset_of(reach)) by {
        assert forall|i: int| upto.to_set().contains(i) implies reach.contains(i) by {
            let q = choose|q: int| 0 <= q < upto.len() && upto[q] == i;
            assert(c[q] == i);
            if q < k {
                assert(!c.subrange(0, q + 1).contains(c[k])) by {
                    if c.subrange(0, q + 1).contains(c[k]) {
                        let r = choose|r: int| 0 <= r < q + 1 && #[trigger] c.subrange(0, q + 1)[r] == c[k];
                        assert(c[r] == c[k]);
                    }
                }
                assert(precedes(es, c[q], c[k]));
                lemma_precedes_magnitude(es, sc, c[q], c[k]);
            }
        }
    }
    vstd::set_lib::lemma_len_subset(upto.to_set(), reach);
}

/// A reordering keeps every entry: what holds of all entries of one holds of
/// the other's.
proof fn lemma_reordered_entries(a: Seq<Entry>, b: Seq<Entry>, sc: u32)
    requires
        a.to_multiset() == b.to_multiset(),
        one_scale(a, sc),
        entries_wf(a),
    ensures
        one_scale(b, sc),
        entries_wf(b),
        a.len() == b.len(),
{
    broadcast use vstd::seq_lib::group_to_multiset_ensures;
    assert(a.to_multiset().len() == a.len());
    assert(b.to_multiset().len() == b.len());
    assert forall|j: int| 0 <= j < b.len() implies (#[trigger] b[j]).1.scale == sc && b[j].1.wf() by {
        assert(b.to_multiset().count(b[j]) > 0);
        assert(a.contains(b[j]));
        let i = choose|i: int| 0 <= i < a.len() && a[i] == b[j];
    }
}

/// The top three of two orderings of the same positions have the same
/// magnitudes, place by place.
proof fn lemma_top_magnitudes(a: Seq<Entry>, b: Seq<Entry>, sc: u32, c: Seq<int>, d: Seq<int>, k: int)
    requires
        a.to_multiset() == b.to_multiset(),
        one_scale(a, sc),
        entries_wf(a),
        top_ranked(a, c),
        top_ranked(b, d),
        0 <= k < c.len(),
    ensures
        k < d.len(),
        magnitude(a[c[k]].1) == magnitude(b[d[k]].1),
{
    lemma_reordered_entries(a, b, sc);
    let x = magnitude(a[c[k]].1);
    let y = magnitude(b[d[k]].1);
    lemma_top_counts(a, sc, c, k);
    lemma_top_counts(b, sc, d, k);
    if x < y {
        lemma_count_monotone(b, at_least(y), above(x));
        lemma_total_ignores_order(a, b, indicator(above(x)));
    } else if y < x {
        lemma_count_monotone(a, at_least(x), above(y));
        lemma_total_ignores_order(a, b, indicator(above(y)));
    }
}

/// The weights fail exactly when some position's weight fails, and then
/// with a calculation error; otherwise each position has its own weight.
pub proof fn lemma_weights_shape(es: Seq<Entry>, t: Dec)
    ensures
        weights_spec(es, t) is Err <==> exists|i: int| 0 <= i < es.len() && (#[trigger] percentage_spec(es[i].1, t)) is Err,
        weights_spec(es, t) is Err ==> weights_spec(es, t) == Err::<Seq<Option<Dec>>, ReviewError>(ReviewError::Calculation),
        weights_spec(es, t) matches Ok(w) ==> w.len() == es.len()
            && forall|i: int| 0 <= i < es.len() ==> #[trigger] percentage_spec(es[i].1, t) == Ok::<Option<Dec>, ReviewError>(w[i]),
    decreases es.len(),
{
    if es.len() > 0 {
        let rest = es.drop_last();
        lemma_weights_shape(rest, t);
        let n = es.len() - 1;
        assert(es.last() == es[n]);
        if exists|i: int| 0 <= i < rest.len() && (#[trigger] percentage_spec(rest[i].1, t)) is Err {
            let i = choose|i: int| 0 <= i < rest.len() && (#[trigger] percentage_spec(rest[i].1, t)) is Err;
            assert(rest[i] == es[i]);
        }
        if exists|i: int| 0 <= i < es.len() && (#[trigger] percentage_spec(es[i].1, t)) is Err {
            let i = choose|i: int| 0 <= i < es.len() && (#[trigger] percentage_spec(es[i].1, t)) is Err;
            if i < n {
                assert(rest[i] == es[i]);
                assert(percentage_spec(rest[i].1, t) is Err);
            }
        }
        if weights_spec(es, t) is Ok {
            let w = weights_spec(es, t)->Ok_0;
            let wr = weights_spec(rest, t)->Ok_0;
            assert forall|i: int| 0 <= i < es.len() implies #[trigger] percentage_spec(es[i].1, t) == Ok::<Option<Dec>, ReviewError>(w[i]) by {
                if i < n {
                    assert(rest[i] == es[i]);
                    assert(percentage_spec(rest[i].1, t) == Ok::<Option<Dec>, ReviewError>(wr[i]));
                }
            }
        }
    }
}

/// Weights against two totals with the same digits are the same: a zero
/// total gives no weights whatever its sign flag.
proof fn lemma_weights_same_digits(es: Seq<Entry>, t1: Dec, t2: Dec)
    requires
        t1.wf(),
        t2.wf(),
        t1.mantissa == t2.mantissa,
        t1.scale == t2.scale,
    ensures
        weights_spec(es, t1) == weights_spec(es, t2),
    decreases es.len(),
{
    if t1.mantissa != 0 {
        assert(t1 == t2);
    } else if es.len() > 0 {
        lemma_weights_same_digits(es.drop_last(), t1, t2);
        assert(percentage_spec(es.last().1, t1) == percentage_spec(es.last().1, t2));
    }
}

/// Two orderings of the same positions agree on every fact of their summary
/// (the totals on their digits: a zero total may carry either sign flag).
pub open spec fn facts_agree(a: Seq<Entry>, fa: SummaryFacts, b: Seq<Entry>, fb: SummaryFacts) -> bool {
    &&& fa.total.mantissa == fb.total.mantissa
    &&& fa.total.scale == fb.total.scale
    &&& fa.gross == fb.gross
    &&& a[fa.top[0]].0 == b[fb.top[0]].0
    &&& a[fa.top[0]].1.spec_abs() == b[fb.top[0]].1.spec_abs()
    &&& fa.largest_weight == fb.largest_weight
    &&& fa.top_three == fb.top_three
    &&& fa.supported == fb.supported
    &&& fa.covered == fb.covered
    &&& fa.unmatched == fb.unmatched
    &&& fa.unsupported == fb.unsupported
    &&& fa.supported_gross == fb.supported_gross
    &&& fa.covered_gross == fb.covered_gross
    &&& fa.count_percent == fb.count_percent
    &&& fa.value_percent == fb.value_percent
    &&& forall|i: int, j: int| 0 <= i < a.len() && 0 <= j < b.len() && a[i] == b[j] ==> fa.weights[i] == fb.weights[j]
}

proof fn lemma_group_sum_ignores_order(a: Seq<Entry>, b: Seq<Entry>, sc: u32, g: CoverageGroup)
    requires
        a.to_multiset() == b.to_multiset(),
        entries_wf(a),
        one_scale(a, sc),
        gross_mantissa(a) <= MAX_MANTISSA,
    ensures
        sum_spec(abs_values_where(a, g)) == sum_spec(abs_values_where(b, g)),
        sum_spec(abs_values_where(a, g)) is Some,
{
    lemma_reordered_entries(a, b, sc);
    lemma_total_ignores_order(a, b, gross_weight());
    lemma_total_ignores_order(a, b, group_weight(g));
    lemma_counts_ignore_order(a, b, g);
    lemma_group_values(a, g, sc);
    lemma_group_values(b, g, sc);
    lemma_group_within_gross(a, g);
    lemma_group_within_gross(b, g);
    lemma_sum_at_scale(abs_values_where(a, g), sc);
    lemma_sum_at_scale(abs_values_where(b, g), sc);
}

/// The review summary does not depend on the order of the positions when
/// their market values are written at one scale and their gross value fits
/// a decimal: the totals (up to the sign flag of a zero total), percentages,
/// counts and coverage are the same, the
/// largest position has the same symbol and the same size, and each position
/// keeps its weight.
pub proof fn lemma_summary_ignores_order(a: Seq<Entry>, b: Seq<Entry>, sc: u32)
    requires
        a.to_multiset() == b.to_multiset(),
        entries_wf(a),
        one_scale(a, sc),
        gross_mantissa(a) <= MAX_MANTISSA,
    ensures
        summary_spec(a) is Err ==> summary_spec(b) == summary_spec(a),
        summary_spec(a) matches Ok(fa) ==> (summary_spec(b) matches Ok(fb) && facts_agree(a, fa, b, fb)),
{
    lemma_reordered_entries(a, b, sc);
    if a.len() > 0 {
        lemma_total_ignores_order(a, b, gross_weight());
        lemma_total_ignores_order(a, b, signed_weight());
        lemma_market_values(a, sc);
        lemma_market_values(b, sc);
        lemma_sum_at_scale(market_values(a), sc);
        lemma_sum_at_scale(market_values(b), sc);
        lemma_sum_at_scale(abs_values(a), sc);
        lemma_sum_at_scale(abs_values(b), sc);
        let total = sum_spec(market_values(a))->Some_0;
        let total_b = sum_spec(market_values(b))->Some_0;
        let gross = sum_spec(abs_values(a))->Some_0;
        assert(sum_spec(abs_values(b)) == Some(gross));
        lemma_weights_same_digits(b, total_b, total);
        lemma_weights_shape(a, total);
        lemma_weights_shape(b, total);
        assert((weights_spec(a, total) is Err) == (weights_spec(b, total) is Err)) by {
            broadcast use vstd::seq_lib::group_to_multiset_ensures;
            if weights_spec(a, total) is Err {
                let i = choose|i: int| 0 <= i < a.len() && (#[trigger] percentage_spec(a[i].1, total)) is Err;
                assert(a.to_multiset().count(a[i]) > 0);
                assert(b.contains(a[i]));
                let j = choose|j: int| 0 <= j < b.len() && b[j] == a[i];
                assert(percentage_spec(b[j].1, total) is Err);
            }
            if weights_spec(b, total) is Err {
                let j = choose|j: int| 0 <= j < b.len() && (#[trigger] percentage_spec(b[j].1, total)) is Err;
                assert(b.to_multiset().count(b[j]) > 0);
                assert(a.contains(b[j]));
                let i = choose|i: int| 0 <= i < a.len() && a[i] == b[j];
                assert(percentage_spec(a[i].1, total) is Err);
            }
        }
        lemma_top_exists(a);
        lemma_top_exists(b);
        let ta = top_three(a);
        let tb = top_three(b);
        lemma_largest_ignores_order(a, b, ta, tb);
        let la = a[ta[0]].1;
        let lb = b[tb[0]].1;
        assert(la.wf() && lb.wf() && la.scale == sc && lb.scale == sc);
        lemma_compare_at_scale(la.spec_abs(), lb.spec_abs());
        assert(la.spec_abs() == lb.spec_abs());
        let va = ta.map_values(|i: int| a[i].1.spec_abs());
        let vb = tb.map_values(|i: int| b[i].1.spec_abs());
        assert(va =~= vb) by {
            assert forall|k: int| 0 <= k < va.len() implies va[k] == vb[k] by {
                lemma_top_magnitudes(a, b, sc, ta, tb, k);
                assert(a[ta[k]].1.wf() && b[tb[k]].1.wf());
                assert(a[ta[k]].1.scale == sc && b[tb[k]].1.scale == sc);
            }
        }
        lemma_group_sum_ignores_order(a, b, sc, CoverageGroup::Supported);
        lemma_group_sum_ignores_order(a, b, sc, CoverageGroup::Covered);
        lemma_counts_ignore_order(a, b, CoverageGroup::Supported);
        lemma_counts_ignore_order(a, b, CoverageGroup::Covered);
        lemma_counts_ignore_order(a, b, CoverageGroup::Unmatched);
        lemma_counts_ignore_order(a, b, CoverageGroup::Unsupported);
        if summary_spec(a) is Ok {
            let fa = summary_spec(a)->Ok_0;
            let fb = summary_spec(b)->Ok_0;
            assert(fb.total == total_b);
            let wa = weights_spec(a, total)->Ok_0;
            let wb = weights_spec(b, total)->Ok_0;
            assert forall|i: int, j: int| 0 <= i < a.len() && 0 <= j < b.len() && a[i] == b[j] implies fa.weights[i] == fb.weights[j] by {
                assert(percentage_spec(a[i].1, total) == Ok::<Option<Dec>, ReviewError>(wa[i]));
                assert(percentage_spec(b[j].1, total) == Ok::<Option<Dec>, ReviewError>(wb[j]));
            }
        }
    }
}

} // verus!
