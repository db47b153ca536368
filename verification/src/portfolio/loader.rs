//! Which file of the configured directory holds the positions export.
use crate::portfolio::positions::{contains_pattern, contains_text};
use crate::portfolio::LoadError;
use crate::text::{chars_lt, chars_of};
use crate::text::seq_lt;
use vstd::prelude::*;

verus! {

/// Result of `str::to_lowercase` (Unicode lower case).
pub uninterp spec fn lowercase(text: Seq<char>) -> Seq<char>;

/// `str::to_lowercase`.
#[verifier::external_body]
fn to_lowercase(text: &str) -> (r: String)
    ensures
        r@ == lowercase(text@),
{
    text.to_lowercase()
}

/// A positions export is named, ignoring case, with "position" in it and
/// ending in ".csv".
pub open spec fn positions_file_name(name: Seq<char>) -> bool {
    let l = lowercase(name);
    &&& contains_text(l, "position"@)
    &&& l.len() >= 4 && l.subrange(l.len() - 4, l.len() as int) == ".csv"@
}

/// Whether a directory entry's name marks it as a positions export.
pub fn is_positions_file(name: &str) -> (r: bool)
    ensures
        r == positions_file_name(name@),
{
    let lower = to_lowercase(name);
    let l = chars_of(lower.as_str());
    if !contains_pattern(l.as_slice(), "position") {
        return false;
    }
    let n = l.len();
    if n < 4 {
        return false;
    }
    let tail = crate::text::slice_chars(l.as_slice(), n - 4, n);
    let suffix = chars_of(".csv");
    crate::text::chars_eq(tail.as_slice(), suffix.as_slice())
}

/// Why the configured directory could not be read.
#[derive(Debug, Clone, Copy, PartialEq, Eq, Structural)]
pub enum DirectoryFault {
    Missing,
    Denied,
    Other,
}

/// The load error code of a directory that could not be read.
pub fn directory_error_code(fault: DirectoryFault) -> (r: &'static str)
    ensures
        r@ == match fault {
            DirectoryFault::Missing => "directory_missing"@,
            DirectoryFault::Denied => "directory_unreadable"@,
            DirectoryFault::Other => "directory_invalid"@,
        },
{
    match fault {
        DirectoryFault::Missing => "directory_missing",
        DirectoryFault::Denied => "directory_unreadable",
        DirectoryFault::Other => "directory_invalid",
    }
}

/// The load error when no file of the directory is a positions export.
pub fn no_positions_error() -> (r: LoadError)
    ensures
        r.code@ == "positions_missing"@,
        r.message@ == "No positions CSV found. Add a regular .csv file with 'position' in its name to the configured directory."@,
{
    LoadError::new(
        "positions_missing",
        "No positions CSV found. Add a regular .csv file with 'position' in its name to the configured directory.".to_owned(),
    )
}

/// A candidate file: its modification time (seconds since the epoch and
/// nanoseconds) and its name.
pub open spec fn key_lt(a: (u64, u32, Seq<char>), b: (u64, u32, Seq<char>)) -> bool {
    a.0 < b.0 || (a.0 == b.0 && (a.1 < b.1 || (a.1 == b.1 && seq_lt(a.2, b.2))))
}

pub open spec fn candidate_key(c: (u64, u32, String)) -> (u64, u32, Seq<char>) {
    (c.0, c.1, c.2@)
}

/// `i` is the newest candidate, the name breaking ties of modification
/// time, and no later candidate has the same key.
pub open spec fn newest(cs: Seq<(u64, u32, String)>, i: int) -> bool {
    &&& 0 <= i < cs.len()
    &&& forall|j: int| 0 <= j < cs.len() ==> !key_lt(candidate_key(cs[i]), candidate_key(#[trigger] cs[j]))
    &&& forall|j: int| i < j < cs.len() ==> key_lt(candidate_key(#[trigger] cs[j]), candidate_key(cs[i]))
}

fn key_less(a: &(u64, u32, String), b: &(u64, u32, String)) -> (r: bool)
    ensures
        r == key_lt(candidate_key(*a), candidate_key(*b)),
{
    if a.0 != b.0 {
        return a.0 < b.0;
    }
    if a.1 != b.1 {
        return a.1 < b.1;
    }
    let x = chars_of(a.2.as_str());
    let y = chars_of(b.2.as_str());
    chars_lt(x.as_slice(), y.as_slice())
}

/// The newest candidate, if there is any.
pub fn pick_newest(candidates: &Vec<(u64, u32, String)>) -> (r: Option<usize>)
    ensures
        match r {
            Some(i) => newest(candidates@, i as int),
            None => candidates@.len() == 0,
        },
{
    if candidates.len() == 0 {
        return None;
    }
    let mut best: usize = 0;
    let mut k: usize = 1;
    proof {
        let k0 = candidate_key(candidates@[0]);
        lemma_key_order(k0, k0, k0);
    }
    while k < candidates.len()
        invariant
            1 <= k <= candidates@.len(),
            best < k,
            forall|j: int| 0 <= j < k ==> !key_lt(candidate_key(candidates@[best as int]), candidate_key(#[trigger] candidates@[j])),
            forall|j: int| best < j < k ==> key_lt(candidate_key(#[trigger] candidates@[j]), candidate_key(candidates@[best as int])),
        decreases candidates@.len() - k,
    {
        if !key_less(&candidates[k], &candidates[best]) {
            proof {
                let kb = candidate_key(candidates@[best as int]);
                let kk = candidate_key(candidates@[k as int]);
                assert forall|j: int| 0 <= j < k + 1 implies !key_lt(kk, candidate_key(#[trigger] candidates@[j])) by {
                    let kj = candidate_key(candidates@[j]);
                    lemma_key_order(kk, kb, kj);
                    lemma_key_order(kb, kk, kj);
                }
            }
            best = k;
        } else {
            proof {
                let kb = candidate_key(candidates@[best as int]);
                let kk = candidate_key(candidates@[k as int]);
                lemma_key_order(kk, kb, kk);
            }
        }
        k = k + 1;
    }
    Some(best)
}

proof fn lemma_key_order(a: (u64, u32, Seq<char>), b: (u64, u32, Seq<char>), c: (u64, u32, Seq<char>))
    ensures
        !key_lt(a, a),
        !key_lt(a, b) && !key_lt(b, c) ==> !key_lt(a, c),
        !key_lt(a, b) ==> key_lt(b, a) || a == b,
        key_lt(a, b) && key_lt(b, c) ==> key_lt(a, c),
        key_lt(a, b) && !key_lt(c, b) ==> key_lt(a, c) || a == c || key_lt(c, a),
{
    crate::text::lemma_seq_lt_irreflexive(a.2);
    if a.2 != b.2 {
        crate::text::lemma_seq_lt_total(a.2, b.2);
    }
    if b.2 != c.2 {
        crate::text::lemma_seq_lt_total(b.2, c.2);
    }
    if a.2 != c.2 {
        crate::text::lemma_seq_lt_total(a.2, c.2);
    }
    if seq_lt(a.2, b.2) && seq_lt(b.2, c.2) {
        crate::text::lemma_seq_lt_transitive(a.2, b.2, c.2);
    }
    if seq_lt(c.2, b.2) && seq_lt(b.2, a.2) {
        crate::text::lemma_seq_lt_transitive(c.2, b.2, a.2);
    }
    if seq_lt(b.2, a.2) && seq_lt(c.2, b.2) {
        crate::text::lemma_seq_lt_transitive(c.2, b.2, a.2);
    }
    if seq_lt(a.2, b.2) {
        crate::text::lemma_seq_lt_asymmetric(a.2, b.2);
    }
    if seq_lt(b.2, a.2) {
        crate::text::lemma_seq_lt_asymmetric(b.2, a.2);
    }
    if seq_lt(b.2, c.2) {
        crate::text::lemma_seq_lt_asymmetric(b.2, c.2);
    }
    if seq_lt(c.2, b.2) {
        crate::text::lemma_seq_lt_asymmetric(c.2, b.2);
    }
    if seq_lt(a.2, c.2) {
        crate::text::lemma_seq_lt_asymmetric(a.2, c.2);
    }
    if seq_lt(c.2, a.2) {
        crate::text::lemma_seq_lt_asymmetric(c.2, a.2);
    }
    if seq_lt(c.2, a.2) && seq_lt(a.2, b.2) {
        crate::text::lemma_seq_lt_transitive(c.2, a.2, b.2);
    }
    if seq_lt(b.2, c.2) && seq_lt(c.2, a.2) {
        crate::text::lemma_seq_lt_transitive(b.2, c.2, a.2);
    }
    if seq_lt(a.2, c.2) && seq_lt(c.2, b.2) {
        crate::text::lemma_seq_lt_transitive(a.2, c.2, b.2);
    }
}

} // verus!
