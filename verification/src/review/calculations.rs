//! Pure review calculations over owned inputs: totals, weights,
//! concentration and research coverage.
use crate::decimal::{
    checked_add, checked_div, checked_mul, checked_sub, decimal_add, decimal_div, decimal_mul, decimal_round_dp,
    decimal_sub, less,
    aligned, common_scale, lemma_order, pow10, round_dp, same_value, Dec,
};
use crate::review::domain::{
    CoverageStatus, LargestPosition, ReviewComparison, ReviewError, ReviewPosition, ReviewSummary, SavedReview,
};
use crate::sorted::{char_views, lists, sorted_difference, sorted_set, string_views};
use crate::text::{
    chars_lt, chars_of, trim, trim_chars, lemma_seq_lt_asymmetric, lemma_seq_lt_irreflexive, lemma_seq_lt_total,
    lemma_seq_lt_transitive, seq_lt,
};
use crate::timestamp::{parse_rfc3339, rfc3339_instant, seconds_between, whole_seconds_between};
use vstd::prelude::*;

verus! {

/// Left-to-right checked sum from zero (`None` when a partial sum overflows).
pub open spec fn sum_spec(vals: Seq<Dec>) -> Option<Dec>
    decreases vals.len(),
{
    if vals.len() == 0 {
        Some(Dec { mantissa: 0, scale: 0, negative: false })
    } else {
        match sum_spec(vals.drop_last()) {
            None => None,
            Some(t) => decimal_add(t, vals.last()),
        }
    }
}

/// `numerator / denominator * 100`, rounded to 6 places; `None` unless the
/// denominator is positive.
pub open spec fn percentage_spec(numerator: Dec, denominator: Dec) -> Result<Option<Dec>, ReviewError> {
    if denominator.mantissa <= 0 {
        Ok(None)
    } else {
        match decimal_div(numerator, denominator) {
            None => Err(ReviewError::Calculation),
            Some(q) => match decimal_mul(q, Dec { mantissa: 100, scale: 0, negative: false }) {
                None => Err(ReviewError::Calculation),
                Some(v) => Ok(Some(decimal_round_dp(v, 6))),
            },
        }
    }
}

pub open spec fn all_wf(vals: Seq<Dec>) -> bool {
    forall|i: int| 0 <= i < vals.len() ==> (#[trigger] vals[i]).wf()
}

/// Computes `sum_spec`.
pub fn sum(vals: &Vec<Dec>) -> (r: Result<Dec, ReviewError>)
    requires
        all_wf(vals@),
    ensures
        match sum_spec(vals@) {
            Some(t) => r == Ok::<Dec, ReviewError>(t) && t.wf(),
            None => r == Err::<Dec, ReviewError>(ReviewError::Calculation),
        },
{
    let mut total = Dec::zero();
    let mut i: usize = 0;
    while i < vals.len()
        invariant
            i <= vals@.len(),
            all_wf(vals@),
            sum_spec(vals@.subrange(0, i as int)) == Some(total),
            total.wf(),
        decreases vals@.len() - i,
    {
        proof {
            assert(vals@.subrange(0, i + 1).drop_last() =~= vals@.subrange(0, i as int));
            assert(vals@.subrange(0, i + 1).last() == vals@[i as int]);
        }
        match checked_add(&total, &vals[i]) {
            None => {
                proof {
                    lemma_sum_stops(vals@, i as int + 1);
                }
                return Err(ReviewError::Calculation);
            },
            Some(t) => {
                total = t;
            },
        }
        i = i + 1;
    }
    proof {
        assert(vals@.subrange(0, vals@.len() as int) =~= vals@);
    }
    Ok(total)
}

proof fn lemma_sum_stops(vals: Seq<Dec>, i: int)
    requires
        0 <= i <= vals.len(),
        sum_spec(vals.subrange(0, i)) is None,
    ensures
        sum_spec(vals) is None,
    decreases vals.len() - i,
{
    if i < vals.len() {
        assert(vals.subrange(0, i + 1).drop_last() =~= vals.subrange(0, i));
        lemma_sum_stops(vals, i + 1);
    } else {
        assert(vals.subrange(0, i) =~= vals);
    }
}

/// Computes `percentage_spec`.
pub fn percentage(numerator: &Dec, denominator: &Dec) -> (r: Result<Option<Dec>, ReviewError>)
    requires
        numerator.wf(),
        denominator.wf(),
    ensures
        r == percentage_spec(*numerator, *denominator),
        r matches Ok(Some(v)) ==> v.wf(),
{
    if !denominator.positive() {
        return Ok(None);
    }
    match checked_div(numerator, denominator) {
        None => Err(ReviewError::Calculation),
        Some(q) => match checked_mul(&q, &Dec::one_hundred()) {
            None => Err(ReviewError::Calculation),
            Some(v) => Ok(Some(round_dp(&v, 6))),
        },
    }
}

/// Groups of positions by research coverage.
#[derive(Clone, Copy)]
pub enum CoverageGroup {
    /// Ordinary stocks in the registry, whether or not research was found.
    Supported,
    /// Positions with research available.
    Covered,
    Unmatched,
    Unsupported,
}

pub open spec fn in_group(g: CoverageGroup, c: CoverageStatus) -> bool {
    match g {
        CoverageGroup::Supported => c == CoverageStatus::Available || c == CoverageStatus::Missing
            || c == CoverageStatus::RepositoryFailure,
        CoverageGroup::Covered => c == CoverageStatus::Available,
        CoverageGroup::Unmatched => c == CoverageStatus::Unmatched,
        CoverageGroup::Unsupported => c == CoverageStatus::Unsupported,
    }
}

/// What a summary reads of a position: its symbol, market value and coverage.
pub type Entry = (Seq<char>, Dec, CoverageStatus);

pub open spec fn entry(p: ReviewPosition) -> Entry {
    (p.symbol@, p.market_value, p.coverage)
}

pub open spec fn entries(ps: Seq<ReviewPosition>) -> Seq<Entry> {
    ps.map_values(|p: ReviewPosition| entry(p))
}

pub open spec fn market_values(es: Seq<Entry>) -> Seq<Dec> {
    es.map_values(|e: Entry| e.1)
}

pub open spec fn abs_values(es: Seq<Entry>) -> Seq<Dec> {
    es.map_values(|e: Entry| e.1.spec_abs())
}

/// Absolute market values of the positions in group `g`, in order.
pub open spec fn abs_values_where(es: Seq<Entry>, g: CoverageGroup) -> Seq<Dec>
    decreases es.len(),
{
    if es.len() == 0 {
        Seq::empty()
    } else if in_group(g, es.last().2) {
        abs_values_where(es.drop_last(), g).push(es.last().1.spec_abs())
    } else {
        abs_values_where(es.drop_last(), g)
    }
}

/// The number of positions in group `g`.
pub open spec fn count_where(es: Seq<Entry>, g: CoverageGroup) -> nat
    decreases es.len(),
{
    if es.len() == 0 {
        0
    } else {
        count_where(es.drop_last(), g) + if in_group(g, es.last().2) { 1nat } else { 0nat }
    }
}

/// `a` ranks above `b`: larger absolute exposure, or equal exposure and an
/// earlier symbol.
pub open spec fn ranks_above(a: Entry, b: Entry) -> bool {
    ||| b.1.spec_abs().lt(a.1.spec_abs())
    ||| (a.1.spec_abs().same_value(b.1.spec_abs()) && seq_lt(a.0, b.0))
}

/// Equal exposure and equal symbol.
pub open spec fn ranks_equal(a: Entry, b: Entry) -> bool {
    a.1.spec_abs().same_value(b.1.spec_abs()) && a.0 == b.0
}

/// The ranking order of positions: by rank, then by input order (a stable sort).
pub open spec fn precedes(es: Seq<Entry>, i: int, j: int) -> bool {
    ranks_above(es[i], es[j]) || (ranks_equal(es[i], es[j]) && i < j)
}

/// `chosen` lists the first `min(3, n)` positions of the ranking, in order.
pub open spec fn top_ranked(es: Seq<Entry>, chosen: Seq<int>) -> bool {
    &&& chosen.len() == if es.len() < 3 { es.len() } else { 3 }
    &&& forall|k: int| 0 <= k < chosen.len() ==> 0 <= #[trigger] chosen[k] < es.len()
    &&& forall|k: int, l: int| 0 <= k < l < chosen.len() ==> chosen[k] != chosen[l]
    &&& forall|k: int, j: int|
        0 <= k < chosen.len() && 0 <= j < es.len() && !chosen.subrange(0, k + 1).contains(j)
            ==> #[trigger] precedes(es, chosen[k], j)
}

pub open spec fn positions_wf(ps: Seq<ReviewPosition>) -> bool {
    forall|i: int| 0 <= i < ps.len() ==> (#[trigger] ps[i]).market_value.wf()
}

pub open spec fn entries_wf(es: Seq<Entry>) -> bool {
    forall|i: int| 0 <= i < es.len() ==> (#[trigger] es[i]).1.wf()
}

pub proof fn lemma_rank_order(a: Entry, b: Entry, c: Entry)
    ensures
        !ranks_above(a, a),
        ranks_equal(a, a),
        ranks_equal(a, b) ==> ranks_equal(b, a),
        ranks_above(a, b) ==> !ranks_above(b, a) && !ranks_equal(a, b),
        ranks_above(a, b) || ranks_equal(a, b) || ranks_above(b, a),
        ranks_above(a, b) && ranks_above(b, c) ==> ranks_above(a, c),
        ranks_above(a, b) && ranks_equal(b, c) ==> ranks_above(a, c),
        ranks_equal(a, b) && ranks_above(b, c) ==> ranks_above(a, c),
        ranks_equal(a, b) && ranks_equal(b, c) ==> ranks_equal(a, c),
{
    let x = a.1.spec_abs();
    let y = b.1.spec_abs();
    let z = c.1.spec_abs();
    lemma_order(x, y, z);
    lemma_order(y, x, z);
    lemma_order(x, z, y);
    lemma_order(y, z, x);
    lemma_order(z, x, y);
    lemma_order(z, y, x);
    lemma_seq_lt_irreflexive(a.0);
    if a.0 != b.0 {
        lemma_seq_lt_total(a.0, b.0);
    }
    if seq_lt(a.0, b.0) {
        lemma_seq_lt_asymmetric(a.0, b.0);
    }
    if seq_lt(a.0, b.0) && seq_lt(b.0, c.0) {
        lemma_seq_lt_transitive(a.0, b.0, c.0);
    }
}

/// The ranking is a strict total order on positions (by index).
pub proof fn lemma_precedes_order(es: Seq<Entry>, i: int, j: int, k: int)
    requires
        0 <= i < es.len(),
        0 <= j < es.len(),
        0 <= k < es.len(),
    ensures
        !precedes(es, i, i),
        i != j ==> precedes(es, i, j) || precedes(es, j, i),
        precedes(es, i, j) ==> !precedes(es, j, i),
        precedes(es, i, j) && precedes(es, j, k) ==> precedes(es, i, k),
{
    lemma_rank_order(es[i], es[j], es[k]);
    lemma_rank_order(es[j], es[i], es[k]);
    lemma_rank_order(es[i], es[k], es[j]);
    lemma_rank_order(es[j], es[k], es[i]);
    lemma_rank_order(es[k], es[i], es[j]);
    lemma_rank_order(es[k], es[j], es[i]);
}

/// The first three of the ranking are unique.
pub proof fn lemma_top_ranked_unique(es: Seq<Entry>, c: Seq<int>, d: Seq<int>)
    requires
        top_ranked(es, c),
        top_ranked(es, d),
    ensures
        c == d,
{
    assert forall|k: int| 0 <= k < c.len() implies c[k] == d[k] by {
        lemma_top_prefix(es, c, d, k);
    }
    assert(c =~= d);
}

proof fn lemma_top_prefix(es: Seq<Entry>, c: Seq<int>, d: Seq<int>, k: int)
    requires
        top_ranked(es, c),
        top_ranked(es, d),
        0 <= k < c.len(),
    ensures
        forall|m: int| 0 <= m <= k ==> c[m] == d[m],
    decreases k,
{
    if k > 0 {
        lemma_top_prefix(es, c, d, k - 1);
    }
    if c[k] != d[k] {
        // d[k] is not among c[0..=k]: earlier entries agree with d's, which differ from d[k].
        assert(!c.subrange(0, k + 1).contains(d[k])) by {
            if c.subrange(0, k + 1).contains(d[k]) {
                let m = choose|m: int| 0 <= m < k + 1 && #[trigger] c.subrange(0, k + 1)[m] == d[k];
                assert(c[m] == d[k]);
                if m < k {
                    assert(d[m] == d[k]);
                }
            }
        }
        assert(!d.subrange(0, k + 1).contains(c[k])) by {
            if d.subrange(0, k + 1).contains(c[k]) {
                let m = choose|m: int| 0 <= m < k + 1 && #[trigger] d.subrange(0, k + 1)[m] == c[k];
                assert(d[m] == c[k]);
                if m < k {
                    assert(c[m] == c[k]);
                }
            }
        }
        assert(precedes(es, c[k], d[k]));
        assert(precedes(es, d[k], c[k]));
        lemma_precedes_order(es, c[k], d[k], c[k]);
    }
}


/// Each position's weight: its signed value over the signed total.
pub open spec fn weights_spec(es: Seq<Entry>, total: Dec) -> Result<Seq<Option<Dec>>, ReviewError>
    decreases es.len(),
{
    if es.len() == 0 {
        Ok(Seq::empty())
    } else {
        match weights_spec(es.drop_last(), total) {
            Err(e) => Err(e),
            Ok(w) => match percentage_spec(es.last().1, total) {
                Err(e) => Err(e),
                Ok(x) => Ok(w.push(x)),
            },
        }
    }
}

/// The first three positions of the ranking.
pub open spec fn top_three(es: Seq<Entry>) -> Seq<int> {
    choose|c: Seq<int>| top_ranked(es, c)
}

pub open spec fn count_dec(n: nat) -> Dec {
    Dec { mantissa: n as i128, scale: 0, negative: false }
}

/// The facts of a review summary, as numbers.
pub struct SummaryFacts {
    pub total: Dec,
    pub gross: Dec,
    pub weights: Seq<Option<Dec>>,
    pub top: Seq<int>,
    pub largest_weight: Option<Dec>,
    pub top_three: Option<Dec>,
    pub supported: nat,
    pub covered: nat,
    pub unmatched: nat,
    pub unsupported: nat,
    pub supported_gross: Dec,
    pub covered_gross: Dec,
    pub count_percent: Option<Dec>,
    pub value_percent: Option<Dec>,
}

/// A review summary: signed and gross totals, weights of a positive total,
/// the largest absolute exposure (symbol breaks ties), top-three
/// concentration, and research coverage by count and by gross value.
pub open spec fn summary_spec(es: Seq<Entry>) -> Result<SummaryFacts, ReviewError> {
    if es.len() == 0 {
        Err(ReviewError::InvalidPortfolio)
    } else {
        match sum_spec(market_values(es)) {
            None => Err(ReviewError::Calculation),
            Some(total) => match sum_spec(abs_values(es)) {
                None => Err(ReviewError::Calculation),
                Some(gross) => match weights_spec(es, total) {
                    Err(e) => Err(e),
                    Ok(weights) => {
                        let top = top_three(es);
                        match percentage_spec(es[top[0]].1.spec_abs(), gross) {
                            Err(e) => Err(e),
                            Ok(largest_weight) => match sum_spec(top.map_values(|i: int| es[i].1.spec_abs())) {
                                None => Err(ReviewError::Calculation),
                                Some(t3) => match percentage_spec(t3, gross) {
                                    Err(e) => Err(e),
                                    Ok(top_three) => match sum_spec(abs_values_where(es, CoverageGroup::Supported)) {
                                        None => Err(ReviewError::Calculation),
                                        Some(supported_gross) => match sum_spec(abs_values_where(es, CoverageGroup::Covered)) {
                                            None => Err(ReviewError::Calculation),
                                            Some(covered_gross) => {
                                                let supported = count_where(es, CoverageGroup::Supported);
                                                let covered = count_where(es, CoverageGroup::Covered);
                                                match percentage_spec(count_dec(covered), count_dec(supported)) {
                                                    Err(e) => Err(e),
                                                    Ok(count_percent) => match percentage_spec(covered_gross, supported_gross) {
                                                        Err(e) => Err(e),
                                                        Ok(value_percent) => Ok(SummaryFacts {
                                                            total,
                                                            gross,
                                                            weights,
                                                            top,
                                                            largest_weight,
                                                            top_three,
                                                            supported,
                                                            covered,
                                                            unmatched: count_where(es, CoverageGroup::Unmatched),
                                                            unsupported: count_where(es, CoverageGroup::Unsupported),
                                                            supported_gross,
                                                            covered_gross,
                                                            count_percent,
                                                            value_percent,
                                                        }),
                                                    },
                                                }
                                            },
                                        },
                                    },
                                },
                            },
                        }
                    },
                },
            },
        }
    }
}

/// The summary reports exactly the facts.
pub open spec fn summary_matches(es: Seq<Entry>, f: SummaryFacts, s: ReviewSummary) -> bool {
    &&& s.total_market_value == f.total
    &&& s.gross_market_value == f.gross
    &&& s.position_count == es.len()
    &&& s.largest_position.symbol@ == es[f.top[0]].0
    &&& s.largest_position.market_value == es[f.top[0]].1
    &&& s.largest_position.gross_weight_percent == f.largest_weight
    &&& s.top_three_concentration_percent == f.top_three
    &&& s.supported_position_count == f.supported
    &&& s.covered_position_count == f.covered
    &&& s.missing_position_count == f.supported - f.covered
    &&& s.unmatched_position_count == f.unmatched
    &&& s.unsupported_position_count == f.unsupported
    &&& s.supported_gross_market_value == f.supported_gross
    &&& s.covered_gross_market_value == f.covered_gross
    &&& s.coverage_count_percent == f.count_percent
    &&& s.coverage_value_percent == f.value_percent
}

/// Only the weights differ.
pub open spec fn only_weights_changed(old: Seq<ReviewPosition>, new: Seq<ReviewPosition>) -> bool {
    &&& new.len() == old.len()
    &&& forall|i: int| 0 <= i < old.len() ==> #[trigger] new[i] == (ReviewPosition { weight_percent: new[i].weight_percent, ..old[i] })
}

fn values_of(ps: &Vec<ReviewPosition>, absolute: bool) -> (r: Vec<Dec>)
    requires
        positions_wf(ps@),
    ensures
        r@ == if absolute { abs_values(entries(ps@)) } else { market_values(entries(ps@)) },
        all_wf(r@),
{
    let ghost es = entries(ps@);
    let mut r: Vec<Dec> = Vec::new();
    let mut i: usize = 0;
    while i < ps.len()
        invariant
            i <= ps@.len(),
            es == entries(ps@),
            positions_wf(ps@),
            r@ == if absolute { abs_values(es.subrange(0, i as int)) } else { market_values(es.subrange(0, i as int)) },
            all_wf(r@),
        decreases ps@.len() - i,
    {
        let v = if absolute { ps[i].market_value.abs() } else { ps[i].market_value };
        r.push(v);
        proof {
            assert(es[i as int] == entry(ps@[i as int]));
            assert(abs_values(es.subrange(0, i + 1)) =~= abs_values(es.subrange(0, i as int)).push(es[i as int].1.spec_abs()));
            assert(market_values(es.subrange(0, i + 1)) =~= market_values(es.subrange(0, i as int)).push(es[i as int].1));
        }
        i = i + 1;
    }
    proof {
        assert(es.subrange(0, es.len() as int) =~= es);
    }
    r
}

/// Whether `a` ranks above `b`.
fn above(a: &ReviewPosition, b: &ReviewPosition) -> (r: bool)
    requires
        a.market_value.wf(),
        b.market_value.wf(),
    ensures
        r == ranks_above(entry(*a), entry(*b)),
{
    let x = a.market_value.abs();
    let y = b.market_value.abs();
    if less(&y, &x) {
        return true;
    }
    if !same_value(&x, &y) {
        return false;
    }
    let sa = chars_of(a.symbol.as_str());
    let sb = chars_of(b.symbol.as_str());
    chars_lt(sa.as_slice(), sb.as_slice())
}

fn index_in(v: &Vec<usize>, x: usize) -> (r: bool)
    ensures
        r == v@.map_values(|i: usize| i as int).contains(x as int),
{
    let ghost m = v@.map_values(|i: usize| i as int);
    let mut k: usize = 0;
    while k < v.len()
        invariant
            k <= v@.len(),
            m == v@.map_values(|i: usize| i as int),
            forall|j: int| 0 <= j < k ==> m[j] != x as int,
        decreases v@.len() - k,
    {
        if v[k] == x {
            proof {
                assert(m[k as int] == x as int);
            }
            return true;
        }
        k = k + 1;
    }
    false
}

/// Selects the first three positions of the ranking (stable selection).
fn select_top(ps: &Vec<ReviewPosition>) -> (r: Vec<usize>)
    requires
        positions_wf(ps@),
        ps@.len() > 0,
    ensures
        top_ranked(entries(ps@), r@.map_values(|i: usize| i as int)),
{
    let ghost es = entries(ps@);
    let n = ps.len();
    let limit: usize = if n < 3 { n } else { 3 };
    let mut chosen: Vec<usize> = Vec::new();
    while chosen.len() < limit
        invariant
            n == ps@.len() > 0,
            es == entries(ps@),
            limit == if n < 3 { n } else { 3 },
            positions_wf(ps@),
            chosen@.len() <= limit,
            forall|k: int| 0 <= k < chosen@.len() ==> (#[trigger] chosen@[k]) < n,
            forall|k: int, l: int| 0 <= k < l < chosen@.len() ==> chosen@[k] != chosen@[l],
            forall|k: int, j: int|
                0 <= k < chosen@.len() && 0 <= j < n
                    && !chosen@.map_values(|i: usize| i as int).subrange(0, k + 1).contains(j)
                    ==> #[trigger] precedes(es, chosen@[k] as int, j),
        decreases limit - chosen@.len(),
    {
        let ghost cm = chosen@.map_values(|i: usize| i as int);
        let mut best: usize = n;
        let mut j: usize = 0;
        while j < n
            invariant
                n == ps@.len() > 0,
                es == entries(ps@),
                positions_wf(ps@),
                cm == chosen@.map_values(|i: usize| i as int),
                j <= n,
                best == n || (best < j && !cm.contains(best as int)),
                best == n ==> forall|t: int| 0 <= t < j ==> cm.contains(t),
                best < n ==> forall|t: int| 0 <= t < j && t != best && !cm.contains(t) ==> #[trigger] precedes(es, best as int, t),
            decreases n - j,
        {
            if !index_in(&chosen, j) {
                if best == n {
                    best = j;
                } else if above(&ps[j], &ps[best]) {
                    proof {
                        assert(es[j as int] == entry(ps@[j as int]) && es[best as int] == entry(ps@[best as int]));
                        assert forall|t: int| 0 <= t < j + 1 && t != j && !cm.contains(t) implies #[trigger] precedes(es, j as int, t) by {
                            lemma_precedes_order(es, j as int, best as int, t);
                            if t != best {
                                assert(precedes(es, best as int, t));
                            }
                        }
                    }
                    best = j;
                } else {
                    proof {
                        assert(es[j as int] == entry(ps@[j as int]) && es[best as int] == entry(ps@[best as int]));
                        lemma_precedes_order(es, best as int, j as int, best as int);
                        lemma_rank_order(es[best as int], es[j as int], es[j as int]);
                        assert(precedes(es, best as int, j as int));
                    }
                }
            }
            j = j + 1;
        }
        proof {
            // Some position is still unchosen, so a best one was found.
            lemma_unchosen_exists(cm, n as int);
        }
        let ghost before = chosen@;
        chosen.push(best);
        proof {
            let nm = chosen@.map_values(|i: usize| i as int);
            assert(nm =~= cm.push(best as int));
            assert forall|k: int, t: int|
                0 <= k < chosen@.len() && 0 <= t < n && !nm.subrange(0, k + 1).contains(t)
                    implies #[trigger] precedes(es, chosen@[k] as int, t) by {
                if k < before.len() {
                    assert(nm.subrange(0, k + 1) =~= cm.subrange(0, k + 1));
                } else {
                    assert(nm.subrange(0, k + 1) =~= nm);
                    assert(nm[cm.len() as int] == best as int);
                    assert(t != best as int);
                    assert forall|q: int| 0 <= q < cm.len() implies cm[q] != t by {
                        assert(nm[q] == cm[q]);
                    }
                    assert(!cm.contains(t));
                }
            }
            assert forall|k: int, l: int| 0 <= k < l < chosen@.len() implies chosen@[k] != chosen@[l] by {
                if l == before.len() {
                    assert(cm[k] == before[k] as int);
                    assert(cm.contains(cm[k]));
                }
            }
        }
    }
    proof {
        let nm = chosen@.map_values(|i: usize| i as int);
        assert forall|k: int| 0 <= k < nm.len() implies 0 <= #[trigger] nm[k] < ps@.len() by {
            assert(nm[k] == chosen@[k] as int);
        }
    }
    chosen
}

/// Fewer than `n` indices cannot cover `0..n`.
proof fn lemma_unchosen_exists(cm: Seq<int>, n: int)
    requires
        cm.len() < n,
    ensures
        exists|t: int| 0 <= t < n && !cm.contains(t),
{
    if forall|t: int| 0 <= t < n ==> cm.contains(t) {
        let s = cm.to_set();
        assert(Set::new(|t: int| 0 <= t < n) <= s);
        vstd::set_lib::lemma_int_range(0, n);
        assert(Set::new(|t: int| 0 <= t < n) =~= vstd::set_lib::set_int_range(0, n));
        vstd::set_lib::lemma_len_subset(vstd::set_lib::set_int_range(0, n), s);
        cm.lemma_cardinality_of_set();
    }
}


/// The weights recorded on the positions.
pub open spec fn weights_are(ps: Seq<ReviewPosition>, w: Seq<Option<Dec>>) -> bool {
    ps.len() == w.len() && forall|i: int| 0 <= i < ps.len() ==> (#[trigger] ps[i]).weight_percent == w[i]
}

/// Absolute values of the positions in group `g`.
fn group_values(ps: &Vec<ReviewPosition>, g: CoverageGroup) -> (r: Vec<Dec>)
    requires
        positions_wf(ps@),
    ensures
        r@ == abs_values_where(entries(ps@), g),
        all_wf(r@),
{
    let ghost es = entries(ps@);
    let mut r: Vec<Dec> = Vec::new();
    let mut i: usize = 0;
    while i < ps.len()
        invariant
            i <= ps@.len(),
            es == entries(ps@),
            positions_wf(ps@),
            r@ == abs_values_where(es.subrange(0, i as int), g),
            all_wf(r@),
        decreases ps@.len() - i,
    {
        proof {
            assert(es.subrange(0, i + 1).drop_last() =~= es.subrange(0, i as int));
            assert(es.subrange(0, i + 1).last() == entry(ps@[i as int]));
        }
        if member(g, ps[i].coverage) {
            r.push(ps[i].market_value.abs());
        }
        i = i + 1;
    }
    proof {
        assert(es.subrange(0, es.len() as int) =~= es);
    }
    r
}

/// The number of positions in group `g`.
fn group_count(ps: &Vec<ReviewPosition>, g: CoverageGroup) -> (r: usize)
    ensures
        r == count_where(entries(ps@), g),
{
    let ghost es = entries(ps@);
    let mut r: usize = 0;
    let mut i: usize = 0;
    while i < ps.len()
        invariant
            i <= ps@.len(),
            es == entries(ps@),
            r <= i,
            r == count_where(es.subrange(0, i as int), g),
        decreases ps@.len() - i,
    {
        proof {
            assert(es.subrange(0, i + 1).drop_last() =~= es.subrange(0, i as int));
            assert(es.subrange(0, i + 1).last() == entry(ps@[i as int]));
        }
        if member(g, ps[i].coverage) {
            r = r + 1;
        }
        i = i + 1;
    }
    proof {
        assert(es.subrange(0, es.len() as int) =~= es);
    }
    r
}

fn member(g: CoverageGroup, c: CoverageStatus) -> (r: bool)
    ensures
        r == in_group(g, c),
{
    match g {
        CoverageGroup::Supported => c == CoverageStatus::Available || c == CoverageStatus::Missing
            || c == CoverageStatus::RepositoryFailure,
        CoverageGroup::Covered => c == CoverageStatus::Available,
        CoverageGroup::Unmatched => c == CoverageStatus::Unmatched,
        CoverageGroup::Unsupported => c == CoverageStatus::Unsupported,
    }
}

/// Summarizes a review: totals, weights (recorded on the positions),
/// the largest position, top-three concentration and research coverage.
/// Fails on an empty portfolio and when a number cannot be represented.
pub fn summarize(positions: &mut Vec<ReviewPosition>) -> (r: Result<ReviewSummary, ReviewError>)
    requires
        positions_wf(old(positions)@),
    ensures
        match summary_spec(entries(old(positions)@)) {
            Ok(f) => r matches Ok(s) && summary_matches(entries(old(positions)@), f, s) && weights_are(final(positions)@, f.weights),
            Err(e) => r == Err::<ReviewSummary, ReviewError>(e),
        },
        only_weights_changed(old(positions)@, final(positions)@),
        r matches Ok(s) ==> s.total_market_value.wf(),
{
    let ghost ps = positions@;
    let ghost es = entries(ps);
    if positions.len() == 0 {
        return Err(ReviewError::InvalidPortfolio);
    }
    let total = sum(&values_of(positions, false))?;
    let gross = sum(&values_of(positions, true))?;
    // Everything below the weights reads only values, symbols and coverage,
    // which the weights loop leaves unchanged; gather it first.
    let top = select_top(positions);
    let ghost t = top@.map_values(|i: usize| i as int);
    proof {
        lemma_top_ranked_unique(es, t, top_three(es));
    }
    let first = top[0];
    let largest_symbol = positions[first].symbol.clone();
    let largest_value = positions[first].market_value;
    let largest_abs = largest_value.abs();
    let mut top_values: Vec<Dec> = Vec::new();
    let mut k: usize = 0;
    while k < top.len()
        invariant
            k <= top@.len(),
            top_ranked(es, t),
            t == top@.map_values(|i: usize| i as int),
            ps == positions@,
            es == entries(ps),
            positions_wf(ps),
            top_values@ == t.subrange(0, k as int).map_values(|i: int| es[i].1.spec_abs()),
            all_wf(top_values@),
        decreases top@.len() - k,
    {
        assert(t[k as int] == top@[k as int] as int);
        top_values.push(positions[top[k]].market_value.abs());
        proof {
            assert(t.subrange(0, k + 1).map_values(|i: int| es[i].1.spec_abs())
                =~= t.subrange(0, k as int).map_values(|i: int| es[i].1.spec_abs()).push(es[t[k as int]].1.spec_abs()));
        }
        k = k + 1;
    }
    proof {
        assert(t.subrange(0, t.len() as int) =~= t);
    }
    let supported_values = group_values(positions, CoverageGroup::Supported);
    let covered_values = group_values(positions, CoverageGroup::Covered);
    let supported = group_count(positions, CoverageGroup::Supported);
    let covered = group_count(positions, CoverageGroup::Covered);
    let unmatched = group_count(positions, CoverageGroup::Unmatched);
    let unsupported = group_count(positions, CoverageGroup::Unsupported);
    proof {
        lemma_covered_within_supported(es);
    }
    let n = positions.len();
    let mut i: usize = 0;
    while i < n
        invariant
            n == ps.len() > 0,
            ps == old(positions)@,
            es == entries(ps),
            sum_spec(market_values(es)) == Some(total),
            sum_spec(abs_values(es)) == Some(gross),
            i <= n,
            positions_wf(ps),
            total.wf(),
            only_weights_changed(ps, positions@),
            weights_spec(es.subrange(0, i as int), total) matches Ok(w) && w.len() == i
                && forall|k: int| 0 <= k < i ==> #[trigger] positions@[k].weight_percent == w[k],
        decreases n - i,
    {
        proof {
            assert(es.subrange(0, i + 1).drop_last() =~= es.subrange(0, i as int));
            assert(es.subrange(0, i + 1).last() == entry(ps[i as int]));
            assert(positions@[i as int].market_value == ps[i as int].market_value);
        }
        let w = match percentage(&positions[i].market_value, &total) {
            Ok(w) => w,
            Err(e) => {
                proof {
                    lemma_weights_stop(es, total, i as int + 1);
                }
                return Err(e);
            },
        };
        positions[i].weight_percent = w;
        i = i + 1;
    }
    proof {
        assert(es.subrange(0, n as int) =~= es);
    }
    let largest_weight = percentage(&largest_abs, &gross)?;
    let top_total = sum(&top_values)?;
    let top_three_percent = percentage(&top_total, &gross)?;
    let supported_gross = sum(&supported_values)?;
    let covered_gross = sum(&covered_values)?;
    let count_percent = percentage(&Dec::from_u64(covered as u64), &Dec::from_u64(supported as u64))?;
    let value_percent = percentage(&covered_gross, &supported_gross)?;
    Ok(ReviewSummary {
        total_market_value: total,
        gross_market_value: gross,
        position_count: n,
        largest_position: LargestPosition {
            symbol: largest_symbol,
            market_value: largest_value,
            gross_weight_percent: largest_weight,
        },
        top_three_concentration_percent: top_three_percent,
        supported_position_count: supported,
        covered_position_count: covered,
        missing_position_count: supported - covered,
        unmatched_position_count: unmatched,
        unsupported_position_count: unsupported,
        supported_gross_market_value: supported_gross,
        covered_gross_market_value: covered_gross,
        coverage_count_percent: count_percent,
        coverage_value_percent: value_percent,
    })
}

/// Every position is counted in exactly one of the supported, unmatched and
/// unsupported groups, and covered positions are among the supported ones.
pub proof fn lemma_coverage_partition(es: Seq<Entry>)
    ensures
        count_where(es, CoverageGroup::Supported) + count_where(es, CoverageGroup::Unmatched)
            + count_where(es, CoverageGroup::Unsupported) == es.len(),
        count_where(es, CoverageGroup::Covered) <= count_where(es, CoverageGroup::Supported),
    decreases es.len(),
{
    if es.len() > 0 {
        lemma_coverage_partition(es.drop_last());
    }
}

/// Weights are defined only against a positive total: when the signed total
/// is zero or negative, every position's weight is absent.
pub proof fn lemma_no_weights_without_positive_total(es: Seq<Entry>, total: Dec)
    requires
        total.mantissa <= 0,
    ensures
        weights_spec(es, total) == Ok::<Seq<Option<Dec>>, ReviewError>(Seq::new(es.len(), |i: int| None::<Dec>)),
    decreases es.len(),
{
    if es.len() > 0 {
        lemma_no_weights_without_positive_total(es.drop_last(), total);
        assert(Seq::new((es.len() - 1) as nat, |i: int| None::<Dec>).push(None::<Dec>) =~= Seq::new(es.len(), |i: int| None::<Dec>));
    } else {
        assert(Seq::<Option<Dec>>::empty() =~= Seq::new(es.len(), |i: int| None::<Dec>));
    }
}

proof fn lemma_count_remove(es: Seq<Entry>, g: CoverageGroup, j: int)
    requires
        0 <= j < es.len(),
    ensures
        count_where(es, g) == count_where(es.remove(j), g) + if in_group(g, es[j].2) { 1nat } else { 0nat },
    decreases es.len(),
{
    if j < es.len() - 1 {
        lemma_count_remove(es.drop_last(), g, j);
        assert(es.remove(j).drop_last() =~= es.drop_last().remove(j));
        assert(es.remove(j).last() == es.last());
    } else {
        assert(es.remove(j) =~= es.drop_last());
    }
}

/// Coverage counts do not depend on the order of the positions: any two
/// orderings of the same positions have the same counts in every group.
pub proof fn lemma_counts_ignore_order(a: Seq<Entry>, b: Seq<Entry>, g: CoverageGroup)
    requires
        a.to_multiset() == b.to_multiset(),
    ensures
        count_where(a, g) == count_where(b, g),
    decreases a.len(),
{
    broadcast use vstd::seq_lib::group_to_multiset_ensures;
    if a.len() == 0 {
        assert(a.to_multiset().len() == a.len());
        assert(b.to_multiset().len() == b.len());
        assert(b.len() == 0);
    } else {
        let x = a.last();
        assert(a.drop_last().push(x) =~= a);
        assert(a.to_multiset().count(x) > 0);
        assert(b.to_multiset().count(x) > 0);
        assert(b.contains(x));
        let j = choose|j: int| 0 <= j < b.len() && b[j] == x;
        assert(b.remove(j).to_multiset() =~= b.to_multiset().remove(x));
        assert(a.drop_last().to_multiset() =~= a.to_multiset().remove(x));
        lemma_counts_ignore_order(a.drop_last(), b.remove(j), g);
        lemma_count_remove(b, g, j);
    }
}

/// The largest position does not depend on the order of the positions: any
/// two orderings of the same positions rank first a position with the same
/// symbol and the same absolute exposure.
pub proof fn lemma_largest_ignores_order(a: Seq<Entry>, b: Seq<Entry>, c: Seq<int>, d: Seq<int>)
    requires
        a.len() > 0,
        a.to_multiset() == b.to_multiset(),
        top_ranked(a, c),
        top_ranked(b, d),
    ensures
        a[c[0]].0 == b[d[0]].0,
        a[c[0]].1.spec_abs().same_value(b[d[0]].1.spec_abs()),
{
    broadcast use vstd::seq_lib::group_to_multiset_ensures;
    assert(a.to_multiset().len() == a.len());
    assert(b.to_multiset().len() == b.len());
    let x = a[c[0]];
    let z = b[d[0]];
    assert(a.to_multiset().count(x) > 0);
    assert(b.contains(x));
    assert(b.to_multiset().count(z) > 0);
    assert(a.contains(z));
    let k = choose|k: int| 0 <= k < a.len() && a[k] == z;
    let m = choose|m: int| 0 <= m < b.len() && b[m] == x;
    lemma_rank_order(x, z, x);
    lemma_rank_order(z, x, z);
    if k != c[0] {
        assert(!c.subrange(0, 1).contains(k)) by {
            if c.subrange(0, 1).contains(k) {
                assert(c.subrange(0, 1)[0] == c[0]);
            }
        }
        assert(precedes(a, c[0], k));
    }
    if m != d[0] {
        assert(!d.subrange(0, 1).contains(m)) by {
            if d.subrange(0, 1).contains(m) {
                assert(d.subrange(0, 1)[0] == d[0]);
            }
        }
        assert(precedes(b, d[0], m));
    }
}

proof fn lemma_covered_within_supported(es: Seq<Entry>)
    ensures
        count_where(es, CoverageGroup::Covered) <= count_where(es, CoverageGroup::Supported),
    decreases es.len(),
{
    if es.len() > 0 {
        lemma_covered_within_supported(es.drop_last());
    }
}

proof fn lemma_weights_stop(es: Seq<Entry>, total: Dec, i: int)
    requires
        0 <= i <= es.len(),
        weights_spec(es.subrange(0, i), total) is Err,
    ensures
        weights_spec(es, total) == weights_spec(es.subrange(0, i), total),
    decreases es.len() - i,
{
    if i < es.len() {
        assert(es.subrange(0, i + 1).drop_last() =~= es.subrange(0, i));
        lemma_weights_stop(es, total, i + 1);
    } else {
        assert(es.subrange(0, i) =~= es);
    }
}


/// The symbol a saved position is compared by: its stock symbol, else its
/// trimmed raw symbol.
pub open spec fn position_key(p: ReviewPosition) -> Seq<char> {
    match p.stock_symbol {
        Some(s) => s@,
        None => trim(p.symbol@),
    }
}

pub open spec fn symbol_set(ps: Seq<ReviewPosition>) -> Set<Seq<char>> {
    ps.map_values(|p: ReviewPosition| position_key(p)).to_set()
}

/// The change between two optional percentages: `None` unless both are
/// present; an error (outer `None`) when the difference cannot be represented.
pub open spec fn change_spec(a: Option<Dec>, b: Option<Dec>) -> Option<Option<Dec>> {
    match (a, b) {
        (Some(x), Some(y)) => match decimal_sub(x, y) {
            Some(d) => Some(Some(d)),
            None => None,
        },
        _ => Some(None),
    }
}

pub open spec fn summary_wf(s: ReviewSummary) -> bool {
    &&& s.total_market_value.wf()
    &&& s.top_three_concentration_percent matches Some(v) ==> v.wf()
    &&& s.coverage_count_percent matches Some(v) ==> v.wf()
    &&& s.coverage_value_percent matches Some(v) ==> v.wf()
}

/// Every difference of a comparison can be represented.
pub open spec fn comparison_succeeds(c: ReviewSummary, p: ReviewSummary) -> bool {
    &&& decimal_sub(c.total_market_value, p.total_market_value) is Some
    &&& c.position_count <= i64::MAX
    &&& p.position_count <= i64::MAX
    &&& change_spec(c.top_three_concentration_percent, p.top_three_concentration_percent) is Some
    &&& change_spec(c.coverage_count_percent, p.coverage_count_percent) is Some
    &&& change_spec(c.coverage_value_percent, p.coverage_value_percent) is Some
}

fn change(a: &Option<Dec>, b: &Option<Dec>) -> (r: Result<Option<Dec>, ReviewError>)
    requires
        a matches Some(v) ==> v.wf(),
        b matches Some(v) ==> v.wf(),
    ensures
        match change_spec(*a, *b) {
            Some(d) => r == Ok::<Option<Dec>, ReviewError>(d),
            None => r == Err::<Option<Dec>, ReviewError>(ReviewError::Calculation),
        },
{
    match (a, b) {
        (Some(x), Some(y)) => match checked_sub(x, y) {
            Some(d) => Ok(Some(d)),
            None => Err(ReviewError::Calculation),
        },
        _ => Ok(None),
    }
}

fn position_keys(ps: &Vec<ReviewPosition>) -> (r: Vec<Vec<char>>)
    ensures
        char_views(r@) == ps@.map_values(|p: ReviewPosition| position_key(p)),
{
    let mut r: Vec<Vec<char>> = Vec::new();
    let mut k: usize = 0;
    while k < ps.len()
        invariant
            k <= ps@.len(),
            char_views(r@) == ps@.subrange(0, k as int).map_values(|p: ReviewPosition| position_key(p)),
        decreases ps@.len() - k,
    {
        let key = match &ps[k].stock_symbol {
            Some(s) => chars_of(s.as_str()),
            None => trim_chars(chars_of(ps[k].symbol.as_str()).as_slice()),
        };
        assert(key@ == position_key(ps@[k as int]));
        let ghost before = r@;
        r.push(key);
        proof {
            assert(char_views(r@) =~= char_views(before).push(key@));
            assert(ps@.subrange(0, k + 1).map_values(|p: ReviewPosition| position_key(p)) =~= ps@.subrange(0, k as int).map_values(|p: ReviewPosition| position_key(p)).push(position_key(ps@[k as int])));
            assert(char_views(r@) =~= ps@.subrange(0, k + 1).map_values(|p: ReviewPosition| position_key(p)));
        }
        k = k + 1;
    }
    proof {
        assert(ps@.subrange(0, ps@.len() as int) =~= ps@);
    }
    r
}

/// What comparing `current` with `previous` gives.
pub open spec fn compare_spec(current: SavedReview, previous: SavedReview, r: Result<ReviewComparison, ReviewError>) -> bool {
    let c = current.document.summary;
    let p = previous.document.summary;
    match r {
        Ok(d) => {
            &&& comparison_succeeds(c, p)
            &&& d.previous_id == previous.id
            &&& decimal_sub(c.total_market_value, p.total_market_value) == Some(d.total_value_change)
            &&& d.position_count_change == c.position_count - p.position_count
            &&& d.previous_largest_symbol@ == p.largest_position.symbol@
            &&& d.current_largest_symbol@ == c.largest_position.symbol@
            &&& change_spec(c.top_three_concentration_percent, p.top_three_concentration_percent)
                == Some(d.concentration_change_points)
            &&& change_spec(c.coverage_count_percent, p.coverage_count_percent) == Some(d.coverage_count_change_points)
            &&& change_spec(c.coverage_value_percent, p.coverage_value_percent) == Some(d.coverage_value_change_points)
            &&& lists(string_views(d.added_symbols@),
                symbol_set(current.document.positions@).difference(symbol_set(previous.document.positions@)))
            &&& lists(string_views(d.removed_symbols@),
                symbol_set(previous.document.positions@).difference(symbol_set(current.document.positions@)))
        },
        Err(e) => e == ReviewError::Calculation && !comparison_succeeds(c, p),
    }
}

/// Compares a saved review with an earlier one: value, count and percentage
/// changes, the two largest symbols, and the symbols added and removed.
pub fn compare(current: &SavedReview, previous: &SavedReview) -> (r: Result<ReviewComparison, ReviewError>)
    requires
        summary_wf(current.document.summary),
        summary_wf(previous.document.summary),
    ensures
        compare_spec(*current, *previous, r),
{
    let cs = &current.document.summary;
    let ps = &previous.document.summary;
    let total_value_change = match checked_sub(&cs.total_market_value, &ps.total_market_value) {
        Some(d) => d,
        None => return Err(ReviewError::Calculation),
    };
    let cn = cs.position_count as u64;
    let pn = ps.position_count as u64;
    if cn > 9223372036854775807u64 || pn > 9223372036854775807u64 {
        return Err(ReviewError::Calculation);
    }
    let position_count_change = (cn as i64) - (pn as i64);
    let concentration = change(&cs.top_three_concentration_percent, &ps.top_three_concentration_percent)?;
    let count_points = change(&cs.coverage_count_percent, &ps.coverage_count_percent)?;
    let value_points = change(&cs.coverage_value_percent, &ps.coverage_value_percent)?;
    let current_keys = sorted_set(&position_keys(&current.document.positions));
    let previous_keys = sorted_set(&position_keys(&previous.document.positions));
    Ok(ReviewComparison {
        previous_id: previous.id,
        total_value_change,
        position_count_change,
        previous_largest_symbol: ps.largest_position.symbol.clone(),
        current_largest_symbol: cs.largest_position.symbol.clone(),
        concentration_change_points: concentration,
        coverage_count_change_points: count_points,
        coverage_value_change_points: value_points,
        added_symbols: sorted_difference(&current_keys, &previous_keys),
        removed_symbols: sorted_difference(&previous_keys, &current_keys),
    })
}

/// A decimal minus itself is zero, at its own scale.
proof fn lemma_self_difference(x: Dec)
    requires
        x.wf(),
    ensures
        decimal_sub(x, x) matches Some(d) && d.mantissa == 0 && d.scale == x.scale,
{
    reveal(decimal_sub);
    vstd::arithmetic::power::lemma_pow0(10);
    assert(pow10(0) == 1);
    assert(common_scale(x, x) == x.scale);
    assert(aligned(x, x.scale) == x.mantissa);
}

proof fn lemma_self_change(a: Option<Dec>)
    requires
        a matches Some(v) ==> v.wf(),
    ensures
        change_spec(a, a) matches Some(d) && (d matches Some(v) ==> v.mantissa == 0 && v.scale == a->Some_0.scale),
{
    if let Some(v) = a {
        lemma_self_difference(v);
    }
}

/// Comparing a review with itself reports no change: zero value and count
/// changes, the same largest symbol, zero (or no) percentage changes, and no
/// symbols added or removed.
pub proof fn lemma_compare_with_itself(r: SavedReview, res: Result<ReviewComparison, ReviewError>)
    requires
        summary_wf(r.document.summary),
        r.document.summary.position_count <= i64::MAX,
        compare_spec(r, r, res),
    ensures
        res matches Ok(c) && {
            &&& c.previous_id == r.id
            &&& c.total_value_change.mantissa == 0
            &&& c.position_count_change == 0
            &&& c.current_largest_symbol@ == c.previous_largest_symbol@
            &&& c.concentration_change_points matches Some(v) ==> v.mantissa == 0
            &&& c.coverage_count_change_points matches Some(v) ==> v.mantissa == 0
            &&& c.coverage_value_change_points matches Some(v) ==> v.mantissa == 0
            &&& c.added_symbols@.len() == 0
            &&& c.removed_symbols@.len() == 0
        },
{
    let s = r.document.summary;
    lemma_self_difference(s.total_market_value);
    lemma_self_change(s.top_three_concentration_percent);
    lemma_self_change(s.coverage_count_percent);
    lemma_self_change(s.coverage_value_percent);
    assert(comparison_succeeds(s, s));
    let c = res->Ok_0;
    let keys = symbol_set(r.document.positions@);
    assert(keys.difference(keys) =~= Set::<Seq<char>>::empty());
    let added = string_views(c.added_symbols@);
    let removed = string_views(c.removed_symbols@);
    if added.len() > 0 {
        assert(added.to_set().contains(added[0]));
    }
    if removed.len() > 0 {
        assert(removed.to_set().contains(removed[0]));
    }
}

/// The age in whole seconds of `earlier` at `at`, from two RFC 3339
/// timestamps; negative when `earlier` is later. No freshness threshold.
pub open spec fn age_spec(at: Seq<char>, earlier: Seq<char>) -> Result<i64, ReviewError> {
    match (rfc3339_instant(at), rfc3339_instant(earlier)) {
        (Some(a), Some(b)) => match whole_seconds_between(a, b) {
            Some(s) => Ok(s),
            None => Err(ReviewError::Calculation),
        },
        _ => Err(ReviewError::Calculation),
    }
}

/// Computes `age_spec`.
pub fn age_seconds(at: &str, earlier: &str) -> (r: Result<i64, ReviewError>)
    ensures
        r == age_spec(at@, earlier@),
{
    let a = match parse_rfc3339(at) {
        Some(a) => a,
        None => return Err(ReviewError::Calculation),
    };
    let b = match parse_rfc3339(earlier) {
        Some(b) => b,
        None => return Err(ReviewError::Calculation),
    };
    match seconds_between(a, b) {
        Some(s) => Ok(s),
        None => Err(ReviewError::Calculation),
    }
}

} // verus!
