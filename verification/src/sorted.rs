//! Sorted sets of texts, held as strictly increasing lists of characters.
use crate::text::{chars_eq, chars_lt, lemma_seq_lt_total, lemma_seq_lt_transitive, seq_lt, slice_chars, string_of, strictly_sorted};
use vstd::prelude::*;

verus! {

pub open spec fn char_views(v: Seq<Vec<char>>) -> Seq<Seq<char>> {
    v.map_values(|x: Vec<char>| x@)
}

pub open spec fn string_views(v: Seq<String>) -> Seq<Seq<char>> {
    v.map_values(|x: String| x@)
}

/// `v` lists the members of `s` in increasing order, each once.
pub open spec fn lists(v: Seq<Seq<char>>, s: Set<Seq<char>>) -> bool {
    strictly_sorted(v) && v.to_set() == s
}

/// Adds `s` to a strictly sorted list unless an equal text is present.
pub fn insert_sorted(v: &mut Vec<Vec<char>>, s: Vec<char>)
    requires
        strictly_sorted(char_views(old(v)@)),
    ensures
        strictly_sorted(char_views(final(v)@)),
        char_views(final(v)@).to_set() == char_views(old(v)@).to_set().insert(s@),
{
    let mut i: usize = 0;
    while i < v.len()
        invariant
            i <= v@.len(),
            v@ == old(v)@,
            forall|k: int| 0 <= k < i ==> seq_lt(#[trigger] char_views(v@)[k], s@),
        ensures
            i <= v@.len(),
            v@ == old(v)@,
            forall|k: int| 0 <= k < i ==> seq_lt(#[trigger] char_views(v@)[k], s@),
            i < v@.len() ==> !seq_lt(char_views(v@)[i as int], s@),
        decreases v@.len() - i,
    {
        if !chars_lt(v[i].as_slice(), s.as_slice()) {
            break;
        }
        i = i + 1;
    }
    let ghost old_views = char_views(v@);
    if i < v.len() {
        if chars_eq(v[i].as_slice(), s.as_slice()) {
            proof {
                assert(old_views.to_set().insert(s@) =~= old_views.to_set()) by {
                    assert(old_views.contains(s@)) by {
                        assert(old_views[i as int] == s@);
                    }
                }
            }
            return;
        }
    }
    proof {
        if i < v@.len() {
            lemma_seq_lt_total(old_views[i as int], s@);
        }
    }
    let ghost sv = s@;
    v.insert(i, s);
    proof {
        let nv = char_views(v@);
        assert(nv =~= old_views.insert(i as int, sv));
        assert forall|a: int, b: int| 0 <= a < b < nv.len() implies seq_lt(#[trigger] nv[a], #[trigger] nv[b]) by {
            if a < i && b > i {
                assert(nv[b] == old_views[b - 1]);
            } else if a == i && b > i {
                assert(nv[b] == old_views[b - 1]);
                if b - 1 > i {
                    assert(seq_lt(old_views[i as int], old_views[b - 1]));
                    lemma_seq_lt_transitive(sv, old_views[i as int], old_views[b - 1]);
                }
            } else if a > i {
                assert(nv[a] == old_views[a - 1]);
                assert(nv[b] == old_views[b - 1]);
            }
        }
        assert(nv.to_set() =~= old_views.to_set().insert(sv)) by {
            assert forall|x: Seq<char>| nv.to_set().contains(x) implies old_views.to_set().insert(sv).contains(x) by {
                let j = choose|j: int| 0 <= j < nv.len() && nv[j] == x;
                if j < i {
                    assert(old_views[j] == x);
                } else if j > i {
                    assert(old_views[j - 1] == x);
                }
            }
            assert forall|x: Seq<char>| old_views.to_set().insert(sv).contains(x) implies nv.to_set().contains(x) by {
                if x == sv {
                    assert(nv[i as int] == x);
                } else {
                    let j = choose|j: int| 0 <= j < old_views.len() && old_views[j] == x;
                    if j < i {
                        assert(nv[j] == x);
                    } else {
                        assert(nv[j + 1] == x);
                    }
                }
            }
        }
    }
}

/// The distinct texts of `items`, in increasing order.
pub fn sorted_set(items: &Vec<Vec<char>>) -> (r: Vec<Vec<char>>)
    ensures
        lists(char_views(r@), char_views(items@).to_set()),
{
    let mut r: Vec<Vec<char>> = Vec::new();
    let mut k: usize = 0;
    proof {
        assert(char_views(r@).to_set() =~= char_views(items@.subrange(0, 0)).to_set());
    }
    while k < items.len()
        invariant
            k <= items@.len(),
            strictly_sorted(char_views(r@)),
            char_views(r@).to_set() == char_views(items@.subrange(0, k as int)).to_set(),
        decreases items@.len() - k,
    {
        let ghost before = char_views(items@.subrange(0, k as int));
        let item = slice_chars(items[k].as_slice(), 0, items[k].len());
        proof {
            assert(items@[k as int]@.subrange(0, items@[k as int]@.len() as int) =~= items@[k as int]@);
        }
        insert_sorted(&mut r, item);
        proof {
            assert(char_views(items@.subrange(0, k + 1)) =~= before.push(items@[k as int]@));
            assert(before.push(items@[k as int]@).to_set() =~= before.to_set().insert(items@[k as int]@)) by {
                let b = before.push(items@[k as int]@);
                assert forall|x: Seq<char>| b.to_set().contains(x) implies before.to_set().insert(items@[k as int]@).contains(x) by {
                    let j = choose|j: int| 0 <= j < b.len() && b[j] == x;
                    if j < before.len() {
                        assert(before[j] == x);
                    }
                }
                assert forall|x: Seq<char>| before.to_set().insert(items@[k as int]@).contains(x) implies b.to_set().contains(x) by {
                    if x == items@[k as int]@ {
                        assert(b[before.len() as int] == x);
                    } else {
                        let j = choose|j: int| 0 <= j < before.len() && before[j] == x;
                        assert(b[j] == x);
                    }
                }
            }
        }
        k = k + 1;
    }
    proof {
        assert(items@.subrange(0, items@.len() as int) =~= items@);
    }
    r
}

/// Whether `s` is one of the texts in `v`.
pub fn contains_text(v: &Vec<Vec<char>>, s: &[char]) -> (r: bool)
    ensures
        r == char_views(v@).contains(s@),
{
    let mut k: usize = 0;
    while k < v.len()
        invariant
            k <= v@.len(),
            forall|j: int| 0 <= j < k ==> char_views(v@)[j] != s@,
        decreases v@.len() - k,
    {
        if chars_eq(v[k].as_slice(), s) {
            proof {
                assert(char_views(v@)[k as int] == s@);
            }
            return true;
        }
        k = k + 1;
    }
    false
}

/// The texts of `a` that are not in `b`, as strings in increasing order.
pub fn sorted_difference(a: &Vec<Vec<char>>, b: &Vec<Vec<char>>) -> (r: Vec<String>)
    requires
        strictly_sorted(char_views(a@)),
    ensures
        lists(string_views(r@), char_views(a@).to_set().difference(char_views(b@).to_set())),
{
    let ghost av = char_views(a@);
    let ghost bs = char_views(b@).to_set();
    let mut r: Vec<String> = Vec::new();
    let mut k: usize = 0;
    while k < a.len()
        invariant
            k <= a@.len(),
            av == char_views(a@),
            bs == char_views(b@).to_set(),
            strictly_sorted(av),
            strictly_sorted(string_views(r@)),
            forall|j: int| 0 <= j < r@.len() ==> exists|m: int| 0 <= m < k && #[trigger] string_views(r@)[j] == av[m],
            forall|x: Seq<char>| string_views(r@).contains(x) <==>
                (exists|m: int| 0 <= m < k && av[m] == x) && !bs.contains(x),
        decreases a@.len() - k,
    {
        let ghost before = string_views(r@);
        if !contains_text(b, a[k].as_slice()) {
            let t = string_of(a[k].as_slice());
            r.push(t);
            proof {
                let now = string_views(r@);
                assert(now =~= before.push(av[k as int]));
                assert forall|i: int, j: int| 0 <= i < j < now.len() implies seq_lt(#[trigger] now[i], #[trigger] now[j]) by {
                    if j == before.len() {
                        let m = choose|m: int| 0 <= m < k && #[trigger] before[i] == av[m];
                        assert(now[i] == before[i]);
                    } else {
                        assert(now[i] == before[i]);
                        assert(now[j] == before[j]);
                    }
                }
                assert forall|j: int| 0 <= j < now.len() implies exists|m: int| 0 <= m < k + 1 && #[trigger] now[j] == av[m] by {
                    if j < before.len() {
                        assert(now[j] == before[j]);
                        let m = choose|m: int| 0 <= m < k && #[trigger] before[j] == av[m];
                    } else {
                        assert(now[j] == av[k as int]);
                    }
                }
                assert forall|x: Seq<char>| now.contains(x) <==> (exists|m: int| 0 <= m < k + 1 && av[m] == x) && !bs.contains(x) by {
                    if now.contains(x) {
                        let j = choose|j: int| 0 <= j < now.len() && now[j] == x;
                        if j < before.len() {
                            assert(before[j] == x);
                            assert(before.contains(x));
                        }
                    }
                    if (exists|m: int| 0 <= m < k + 1 && av[m] == x) && !bs.contains(x) {
                        let m = choose|m: int| 0 <= m < k + 1 && av[m] == x;
                        if m < k {
                            assert(before.contains(x));
                            let j = choose|j: int| 0 <= j < before.len() && before[j] == x;
                            assert(now[j] == x);
                        } else {
                            assert(now[before.len() as int] == x);
                        }
                    }
                }
            }
        } else {
            proof {
                assert(bs.contains(av[k as int]));
                assert forall|x: Seq<char>| before.contains(x) <==> (exists|m: int| 0 <= m < k + 1 && av[m] == x) && !bs.contains(x) by {
                    if (exists|m: int| 0 <= m < k + 1 && av[m] == x) && !bs.contains(x) {
                        let m = choose|m: int| 0 <= m < k + 1 && av[m] == x;
                        assert(m < k);
                    }
                }
                assert forall|j: int| 0 <= j < before.len() implies exists|m: int| 0 <= m < k + 1 && #[trigger] before[j] == av[m] by {
                    let m = choose|m: int| 0 <= m < k && #[trigger] before[j] == av[m];
                }
            }
        }
        k = k + 1;
    }
    proof {
        let rv = string_views(r@);
        assert(rv.to_set() =~= av.to_set().difference(bs)) by {
            assert forall|x: Seq<char>| rv.to_set().contains(x) <==> av.to_set().difference(bs).contains(x) by {
                assert(rv.contains(x) <==> (exists|m: int| 0 <= m < a@.len() && av[m] == x) && !bs.contains(x));
            }
        }
    }
    r
}

} // verus!
