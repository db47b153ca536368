//! What the pages show: the texts, groupings and orderings that the browser
//! views display, computed from the API's values.
pub mod job_panel;
pub mod portfolio;
pub mod research;
pub mod review;
pub mod watchlist;

use crate::jobs::domain::Job;
use crate::review::domain::ReviewHistoryEntry;
use crate::watchlist::domain::BriefingHistoryEntry;
use vstd::prelude::*;

verus! {

/// A saved record listed by its identifier.
pub trait Identified: Sized {
    spec fn key(&self) -> i64;

    fn record_id(&self) -> (r: i64)
        ensures
            r == self.key();
}

impl Identified for Job {
    open spec fn key(&self) -> i64 {
        self.id
    }

    fn record_id(&self) -> (r: i64) {
        self.id
    }
}

impl Identified for ReviewHistoryEntry {
    open spec fn key(&self) -> i64 {
        self.id
    }

    fn record_id(&self) -> (r: i64) {
        self.id
    }
}

impl Identified for BriefingHistoryEntry {
    open spec fn key(&self) -> i64 {
        self.id
    }

    fn record_id(&self) -> (r: i64) {
        self.id
    }
}

pub open spec fn has_key<T: Identified>(k: i64) -> spec_fn(T) -> bool {
    |x: T| x.key() == k
}

pub open spec fn lacks_key<T: Identified>(k: i64) -> spec_fn(T) -> bool {
    |x: T| x.key() != k
}

/// The records of `s` with identifier `k`, in order.
pub open spec fn with_key<T: Identified>(s: Seq<T>, k: i64) -> Seq<T> {
    s.filter(has_key(k))
}

/// Newest first: identifiers never increase along the list.
pub open spec fn newest_first<T: Identified>(s: Seq<T>) -> bool {
    forall|i: int, j: int| 0 <= i < j < s.len() ==> s[j].key() <= s[i].key()
}

/// The list with `item` in place of its older copies.
pub open spec fn remembered<T: Identified>(s: Seq<T>, item: T) -> Seq<T> {
    s.filter(lacks_key(item.key())).push(item)
}

proof fn lemma_insert_keeps_groups<T: Identified>(out: Seq<T>, p: int, x: T)
    requires
        0 <= p <= out.len(),
        newest_first(out),
        forall|i: int| 0 <= i < p ==> x.key() <= #[trigger] out[i].key(),
        forall|i: int| p <= i < out.len() ==> #[trigger] out[i].key() < x.key(),
    ensures
        newest_first(out.insert(p, x)),
        forall|k: i64| #[trigger] with_key(out.insert(p, x), k) == if k == x.key() {
            with_key(out, k).push(x)
        } else {
            with_key(out, k)
        },
{
    broadcast use vstd::seq_lib::group_seq_properties;
    let front = out.subrange(0, p);
    let back = out.subrange(p, out.len() as int);
    out.insert_ensures(p, x);
    assert(out =~= front + back);
    assert(out.insert(p, x) =~= front.push(x) + back);
    assert forall|k: i64| #[trigger] with_key(out.insert(p, x), k) == if k == x.key() {
        with_key(out, k).push(x)
    } else {
        with_key(out, k)
    } by {
        Seq::filter_distributes_over_add(front.push(x), back, has_key(k));
        Seq::filter_distributes_over_add(front, back, has_key(k));
        front.lemma_filter_push(x, has_key(k));
        if k == x.key() {
            assert(back.all(|y: T| !has_key::<T>(k)(y)));
            back.lemma_all_neg_filter_empty(has_key(k));
            assert(back.filter(has_key(k)) =~= Seq::<T>::empty());
            assert(front.filter(has_key(k)) + back.filter(has_key(k)) =~= front.filter(has_key(k)));
            assert(front.filter(has_key(k)).push(x) + back.filter(has_key(k)) =~= front.filter(has_key(k)).push(x));
        }
    }
}

/// Puts a record fetched anew in a list shown newest first: its older copies
/// leave the list, and the list is ordered by decreasing identifier, records
/// with equal identifiers keeping their order.
pub fn remember<T: Identified>(rows: &mut Vec<T>, item: T)
    ensures
        newest_first(final(rows)@),
        forall|k: i64| #[trigger] with_key(final(rows)@, k) == with_key(remembered(old(rows)@, item), k),
{
    broadcast use vstd::seq_lib::group_seq_properties;
    let ghost s0 = rows@;
    let n = rows.len();
    let key = item.record_id();
    let mut source: Vec<T> = Vec::new();
    std::mem::swap(rows, &mut source);
    let mut pending: Vec<T> = Vec::new();
    let mut consumed: usize = 0;
    while source.len() > 0
        invariant
            consumed + source@.len() == s0.len(),
            s0.len() == n,
            source@ == s0.skip(consumed as int),
            pending@ == s0.take(consumed as int).filter(lacks_key(key)),
            key == item.key(),
        decreases source@.len(),
    {
        let x = source.remove(0);
        proof {
            assert(x == s0[consumed as int]);
            assert(s0.take(consumed + 1) =~= s0.take(consumed as int).push(x));
            s0.take(consumed as int).lemma_filter_push(x, lacks_key(key));
            assert(source@ =~= s0.skip(consumed + 1));
        }
        if x.record_id() != key {
            pending.push(x);
        }
        consumed = consumed + 1;
    }
    proof {
        assert(s0.take(consumed as int) =~= s0);
    }
    pending.push(item);
    let ghost s = pending@;
    let total = pending.len();
    assert(s == remembered(s0, item));
    let mut out: Vec<T> = Vec::new();
    let mut done: usize = 0;
    while pending.len() > 0
        invariant
            done + pending@.len() == s.len(),
            s.len() == total,
            pending@ == s.skip(done as int),
            newest_first(out@),
            forall|k: i64| #[trigger] with_key(out@, k) == with_key(s.take(done as int), k),
        decreases pending@.len(),
    {
        let x = pending.remove(0);
        let xk = x.record_id();
        let mut p: usize = 0;
        while p < out.len() && out[p].record_id() >= xk
            invariant
                p <= out@.len(),
                forall|i: int| 0 <= i < p ==> xk <= #[trigger] out@[i].key(),
            decreases out@.len() - p,
        {
            p = p + 1;
        }
        proof {
            assert forall|i: int| p <= i < out@.len() implies #[trigger] out@[i].key() < x.key() by {
                assert(out@[p as int].key() < xk);
            }
            lemma_insert_keeps_groups(out@, p as int, x);
            assert(x == s[done as int]);
            assert(s.take(done + 1) =~= s.take(done as int).push(x));
            assert forall|k: i64| #[trigger] with_key(s.take(done + 1), k) == if k == x.key() {
                with_key(s.take(done as int), k).push(x)
            } else {
                with_key(s.take(done as int), k)
            } by {
                s.take(done as int).lemma_filter_push(x, has_key(k));
            }
            assert(pending@ =~= s.skip(done + 1));
        }
        out.insert(p, x);
        done = done + 1;
    }
    proof {
        assert(s.take(done as int) =~= s);
    }
    *rows = out;
}

} // verus!
