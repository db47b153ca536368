//! JSON documents as plain values, and the bounded expansion of a
//! reference-table page into one document.
//!
//! Text is parsed by `serde_json`; a parsed value is held as `Json`, with
//! numbers as `serde_json` distinguishes them (non-negative integer, negative
//! integer, or a float kept as its display text).
use crate::research::domain::ResearchError;
use crate::text::{chars_eq, chars_of};
use vstd::prelude::*;

verus! {

#[verifier::external_type_specification]
#[verifier::external_body]
pub struct ExJsonValue(serde_json::Value);

#[verifier::external_type_specification]
#[verifier::external_body]
pub struct ExJsonNumber(serde_json::Number);

#[derive(Debug, Clone, PartialEq)]
pub enum JsonNumber {
    PosInt(u64),
    NegInt(i64),
    /// A float, as `serde_json` displays it.
    Float(String),
}

/// A JSON value; an object keeps its fields in the parsed map's order.
#[derive(Debug)]
pub enum Json {
    Null,
    Bool(bool),
    Number(JsonNumber),
    String(String),
    Array(Vec<Json>),
    Object(Vec<(String, Json)>),
}

/// Result of `serde_json::from_slice::<serde_json::Value>` (`None` for an error).
pub uninterp spec fn json_document(bytes: Seq<u8>) -> Option<Json>;

/// A `serde_json::Number` held as `JsonNumber`, by its representation.
#[verifier::external_body]
fn number_of(n: &serde_json::Number) -> JsonNumber {
    match (n.as_u64(), n.as_i64()) {
        (Some(u), _) => JsonNumber::PosInt(u),
        (None, Some(i)) => JsonNumber::NegInt(i),
        (None, None) => JsonNumber::Float(n.to_string()),
    }
}

/// A `serde_json::Value` held as `Json`, one variant for one variant.
#[verifier::external_body]
fn json_of_value(v: &serde_json::Value) -> Json {
    match v {
        serde_json::Value::Null => Json::Null,
        serde_json::Value::Bool(b) => Json::Bool(*b),
        serde_json::Value::Number(n) => Json::Number(number_of(n)),
        serde_json::Value::String(s) => Json::String(s.clone()),
        serde_json::Value::Array(a) => Json::Array(a.iter().map(json_of_value).collect()),
        serde_json::Value::Object(m) => Json::Object(m.iter().map(|(k, x)| (k.clone(), json_of_value(x))).collect()),
    }
}

/// `serde_json::from_slice` into a `serde_json::Value`, held as `Json`.
#[verifier::external_body]
pub(crate) fn parse_json(bytes: &[u8]) -> (r: Option<Json>)
    ensures
        r == json_document(bytes@),
{
    serde_json::from_slice::<serde_json::Value>(bytes).ok().map(|v| json_of_value(&v))
}

/// `value[key]`: the field of an object, else null.
pub open spec fn get_key(j: Json, key: Seq<char>) -> Json {
    match j {
        Json::Object(fs) => field_value(fs@, key),
        _ => Json::Null,
    }
}

pub open spec fn field_value(fs: Seq<(String, Json)>, key: Seq<char>) -> Json
    decreases fs.len(),
{
    if fs.len() == 0 {
        Json::Null
    } else if fs[0].0@ == key {
        fs[0].1
    } else {
        field_value(fs.drop_first(), key)
    }
}

/// `value[i]`: the element of an array, else null.
pub open spec fn get_index(j: Json, i: int) -> Json {
    match j {
        Json::Array(v) => if 0 <= i < v@.len() { v@[i] } else { Json::Null },
        _ => Json::Null,
    }
}

pub open spec fn as_u64_spec(j: Json) -> Option<u64> {
    match j {
        Json::Number(JsonNumber::PosInt(n)) => Some(n),
        _ => None,
    }
}

pub open spec fn as_i64_spec(j: Json) -> Option<i64> {
    match j {
        Json::Number(JsonNumber::PosInt(n)) => if n <= i64::MAX { Some(n as i64) } else { None },
        Json::Number(JsonNumber::NegInt(n)) => Some(n),
        _ => None,
    }
}

pub open spec fn as_str_spec(j: Json) -> Option<Seq<char>> {
    match j {
        Json::String(s) => Some(s@),
        _ => None,
    }
}

/// A missing value reads as null.
pub open spec fn deref(o: Option<&Json>) -> Json {
    match o {
        Some(j) => *j,
        None => Json::Null,
    }
}

/// `value[key]`, `None` standing for null.
pub fn at_key<'a>(j: Option<&'a Json>, key: &str) -> (r: Option<&'a Json>)
    ensures
        deref(r) == get_key(deref(j), key@),
{
    let v = match j {
        Some(v) => v,
        None => return None,
    };
    assert(*v == deref(j));
    match v {
        Json::Object(fs) => {
            let k = chars_of(key);
            let mut i: usize = 0;
            proof {
                assert(fs@.subrange(0, fs@.len() as int) =~= fs@);
            }
            while i < fs.len()
                invariant
                    i <= fs@.len(),
                    k@ == key@,
                    get_key(deref(j), key@) == field_value(fs@, key@),
                    field_value(fs@, key@) == field_value(fs@.subrange(i as int, fs@.len() as int), key@),
                decreases fs@.len() - i,
            {
                proof {
                    assert(fs@.subrange(i as int, fs@.len() as int).drop_first() =~= fs@.subrange(i + 1, fs@.len() as int));
                }
                let name = chars_of(fs[i].0.as_str());
                if chars_eq(name.as_slice(), k.as_slice()) {
                    assert(fs@.subrange(i as int, fs@.len() as int)[0] == fs@[i as int]);
                    return Some(&fs[i].1);
                }
                i = i + 1;
            }
            None
        },
        _ => None,
    }
}

/// `value[i]`, `None` standing for null.
pub fn at_index<'a>(j: Option<&'a Json>, i: usize) -> (r: Option<&'a Json>)
    ensures
        deref(r) == get_index(deref(j), i as int),
{
    match j {
        Some(Json::Array(v)) => {
            if i < v.len() {
                Some(&v[i])
            } else {
                None
            }
        },
        _ => None,
    }
}

pub fn as_u64(j: Option<&Json>) -> (r: Option<u64>)
    ensures
        r == as_u64_spec(deref(j)),
{
    match j {
        Some(Json::Number(JsonNumber::PosInt(n))) => Some(*n),
        _ => None,
    }
}

pub fn as_i64(j: Option<&Json>) -> (r: Option<i64>)
    ensures
        r == as_i64_spec(deref(j)),
{
    match j {
        Some(Json::Number(JsonNumber::PosInt(n))) => if *n <= 9223372036854775807u64 {
            Some(*n as i64)
        } else {
            None
        },
        Some(Json::Number(JsonNumber::NegInt(n))) => Some(*n),
        _ => None,
    }
}

pub fn as_str<'a>(j: Option<&'a Json>) -> (r: Option<&'a str>)
    ensures
        match r {
            Some(s) => as_str_spec(deref(j)) == Some(s@),
            None => as_str_spec(deref(j)) is None,
        },
{
    match j {
        Some(Json::String(s)) => Some(s.as_str()),
        _ => None,
    }
}

/// The reference indices of a container's elements (`None` for an element
/// that is not an integer).
pub open spec fn child_refs(j: Json) -> Seq<Option<i64>> {
    match j {
        Json::Array(v) => v@.map_values(|c: Json| as_i64_spec(c)),
        Json::Object(fs) => fs@.map_values(|f: (String, Json)| as_i64_spec(f.1)),
        _ => Seq::empty(),
    }
}

/// Expansion is limited to this nesting depth.
pub open spec fn depth_limit() -> int {
    40
}

/// The budget left after expanding entry `index` of `table` at `depth`
/// (`None` when the expansion fails). Each expanded reference costs one unit;
/// `-1` is null; an object's or array's elements are references, expanded in order.
pub open spec fn expand_cost(table: Seq<Json>, index: int, depth: int, budget: nat) -> Option<nat>
    decreases depth_limit() - depth, 1int, 0int,
{
    if depth >= depth_limit() || budget == 0 {
        None
    } else if index == -1 {
        Some((budget - 1) as nat)
    } else if index < 0 || index >= table.len() {
        None
    } else {
        match table[index] {
            Json::Object(_) => children_cost(table, child_refs(table[index]), 0, depth + 1, (budget - 1) as nat),
            Json::Array(_) => children_cost(table, child_refs(table[index]), 0, depth + 1, (budget - 1) as nat),
            _ => Some((budget - 1) as nat),
        }
    }
}

/// The budget left after expanding references `k..` in order.
pub open spec fn children_cost(table: Seq<Json>, refs: Seq<Option<i64>>, k: int, depth: int, budget: nat) -> Option<nat>
    decreases depth_limit() - depth + 1, 0int, refs.len() - k,
{
    if depth > depth_limit() || k < 0 || k >= refs.len() {
        Some(budget)
    } else {
        match refs[k] {
            None => None,
            Some(i) => match expand_cost(table, i as int, depth, budget) {
                None => None,
                Some(b) => children_cost(table, refs, k + 1, depth, b),
            },
        }
    }
}

/// `r` is the expansion of entry `index` of `table` at `depth`.
pub open spec fn denotes(table: Seq<Json>, index: int, depth: int, r: Json) -> bool
    decreases depth_limit() - depth, 1int, 0int,
{
    if depth >= depth_limit() {
        false
    } else if index == -1 {
        r == Json::Null
    } else if index < 0 || index >= table.len() {
        false
    } else {
        match table[index] {
            Json::Object(fs) => match r {
                Json::Object(rs) => rs@.len() == fs@.len() && fields_denote(table, fs@, rs@, 0, depth + 1),
                _ => false,
            },
            Json::Array(v) => match r {
                Json::Array(rv) => rv@.len() == v@.len() && elements_denote(table, v@, rv@, 0, depth + 1),
                _ => false,
            },
            _ => r == table[index],
        }
    }
}

/// Fields `k..` of `rs` keep the keys of `fs` and expand its references.
pub open spec fn fields_denote(table: Seq<Json>, fs: Seq<(String, Json)>, rs: Seq<(String, Json)>, k: int, depth: int) -> bool
    decreases depth_limit() - depth + 1, 0int, fs.len() - k,
{
    if depth > depth_limit() || k < 0 || k >= fs.len() {
        true
    } else {
        &&& rs[k].0 == fs[k].0
        &&& as_i64_spec(fs[k].1) matches Some(i) && denotes(table, i as int, depth, rs[k].1)
        &&& fields_denote(table, fs, rs, k + 1, depth)
    }
}

/// Elements `k..` of `rv` expand the references of `v`.
pub open spec fn elements_denote(table: Seq<Json>, v: Seq<Json>, rv: Seq<Json>, k: int, depth: int) -> bool
    decreases depth_limit() - depth + 1, 0int, v.len() - k,
{
    if depth > depth_limit() || k < 0 || k >= v.len() {
        true
    } else {
        &&& element_expands(table, v[k], depth, rv[k])
        &&& elements_denote(table, v, rv, k + 1, depth)
    }
}

/// `r` expands the reference `c`.
pub open spec fn element_expands(table: Seq<Json>, c: Json, depth: int, r: Json) -> bool
    decreases depth_limit() - depth + 1, 0int, 0int,
{
    if depth > depth_limit() {
        false
    } else {
        match as_i64_spec(c) {
            Some(i) => denotes(table, i as int, depth, r),
            None => false,
        }
    }
}

/// A copy of a value that holds no other value.
fn copy_leaf(j: &Json) -> (r: Json)
    requires
        !(*j is Object) && !(*j is Array),
    ensures
        r == *j,
{
    match j {
        Json::Null => Json::Null,
        Json::Bool(b) => Json::Bool(*b),
        Json::Number(JsonNumber::PosInt(n)) => Json::Number(JsonNumber::PosInt(*n)),
        Json::Number(JsonNumber::NegInt(n)) => Json::Number(JsonNumber::NegInt(*n)),
        Json::Number(JsonNumber::Float(s)) => Json::Number(JsonNumber::Float(s.clone())),
        Json::String(s) => Json::String(s.clone()),
        _ => Json::Null,
    }
}

/// Expands entry `index` of a reference table into one value, resolving
/// references as data; nesting depth and the number of expanded references
/// (`budget`) are bounded, so cyclic or excessive input fails.
pub fn expand(table: &Vec<Json>, index: i64, depth: usize, budget: &mut usize) -> (r: Result<Json, ResearchError>)
    requires
        depth <= depth_limit(),
    ensures
        match expand_cost(table@, index as int, depth as int, *old(budget) as nat) {
            None => r == Err::<Json, ResearchError>(ResearchError::MalformedSource),
            Some(b) => r matches Ok(j) && denotes(table@, index as int, depth as int, j) && *final(budget) == b,
        },
    decreases depth_limit() - depth,
{
    if depth >= 40 || *budget == 0 {
        return Err(ResearchError::MalformedSource);
    }
    *budget = *budget - 1;
    if index == -1 {
        return Ok(Json::Null);
    }
    if index < 0 || index as u64 >= table.len() as u64 {
        return Err(ResearchError::MalformedSource);
    }
    let entry = &table[index as usize];
    let ghost refs = child_refs(*entry);
    let ghost b0 = *budget as nat;
    assert(b0 == *old(budget) - 1);
    match entry {
        Json::Object(fields) => {
            let mut out: Vec<(String, Json)> = Vec::new();
            let mut k: usize = 0;
            while k < fields.len()
                invariant
                    depth < depth_limit(),
                    k <= fields@.len(),
                    refs == fields@.map_values(|f: (String, Json)| as_i64_spec(f.1)),
                    out@.len() == k,
                    expand_cost(table@, index as int, depth as int, *old(budget) as nat)
                        == children_cost(table@, refs, 0, depth + 1, b0),
                    children_cost(table@, refs, 0, depth + 1, b0) == children_cost(table@, refs, k as int, depth + 1, *budget as nat),
                    forall|j: int| 0 <= j < k ==> {
                        &&& (#[trigger] out@[j]).0 == fields@[j].0
                        &&& as_i64_spec(fields@[j].1) matches Some(i) && denotes(table@, i as int, depth + 1, out@[j].1)
                    },
                decreases fields@.len() - k,
            {
                let child = as_i64(Some(&fields[k].1));
                assert(child == refs[k as int]);
                let i = match child {
                    Some(i) => i,
                    None => return Err(ResearchError::MalformedSource),
                };
                let value = expand(table, i, depth + 1, budget)?;
                out.push((fields[k].0.clone(), value));
                k = k + 1;
            }
            proof {
                lemma_fields_denote(table@, fields@, out@, 0, depth + 1);
            }
            Ok(Json::Object(out))
        },
        Json::Array(values) => {
            let mut out: Vec<Json> = Vec::new();
            let mut k: usize = 0;
            while k < values.len()
                invariant
                    depth < depth_limit(),
                    k <= values@.len(),
                    refs == values@.map_values(|c: Json| as_i64_spec(c)),
                    out@.len() == k,
                    expand_cost(table@, index as int, depth as int, *old(budget) as nat)
                        == children_cost(table@, refs, 0, depth + 1, b0),
                    children_cost(table@, refs, 0, depth + 1, b0) == children_cost(table@, refs, k as int, depth + 1, *budget as nat),
                    forall|j: int| 0 <= j < k ==> #[trigger] element_expands(table@, values@[j], depth + 1, out@[j]),
                decreases values@.len() - k,
            {
                let child = as_i64(Some(&values[k]));
                assert(child == refs[k as int]);
                let i = match child {
                    Some(i) => i,
                    None => return Err(ResearchError::MalformedSource),
                };
                let value = expand(table, i, depth + 1, budget)?;
                out.push(value);
                k = k + 1;
            }
            proof {
                lemma_elements_denote(table@, values@, out@, 0, depth + 1);
            }
            Ok(Json::Array(out))
        },
        _ => Ok(copy_leaf(entry)),
    }
}

/// Expansion spends at least one unit of budget and never more than it was
/// given, so the work on any page is bounded by its budget.
pub proof fn lemma_expand_spends(table: Seq<Json>, index: int, depth: int, budget: nat)
    ensures
        expand_cost(table, index, depth, budget) matches Some(left) ==> left < budget,
    decreases depth_limit() - depth, 1int, 0int,
{
    if depth < depth_limit() && budget > 0 && index != -1 && 0 <= index < table.len() {
        match table[index] {
            Json::Object(_) => lemma_children_spend(table, child_refs(table[index]), 0, depth + 1, (budget - 1) as nat),
            Json::Array(_) => lemma_children_spend(table, child_refs(table[index]), 0, depth + 1, (budget - 1) as nat),
            _ => {},
        }
    }
}

/// Expanding a list of references never spends more than the budget.
pub proof fn lemma_children_spend(table: Seq<Json>, refs: Seq<Option<i64>>, k: int, depth: int, budget: nat)
    ensures
        children_cost(table, refs, k, depth, budget) matches Some(left) ==> left <= budget,
    decreases depth_limit() - depth + 1, 0int, refs.len() - k,
{
    if depth <= depth_limit() && 0 <= k < refs.len() {
        match refs[k] {
            None => {},
            Some(i) => {
                lemma_expand_spends(table, i as int, depth, budget);
                match expand_cost(table, i as int, depth, budget) {
                    None => {},
                    Some(b) => lemma_children_spend(table, refs, k + 1, depth, b),
                }
            },
        }
    }
}

proof fn lemma_fields_denote(table: Seq<Json>, fs: Seq<(String, Json)>, rs: Seq<(String, Json)>, k: int, depth: int)
    requires
        0 <= k <= fs.len(),
        rs.len() == fs.len(),
        forall|j: int| k <= j < fs.len() ==> {
            &&& (#[trigger] rs[j]).0 == fs[j].0
            &&& as_i64_spec(fs[j].1) matches Some(i) && denotes(table, i as int, depth, rs[j].1)
        },
    ensures
        fields_denote(table, fs, rs, k, depth),
    decreases fs.len() - k,
{
    if k < fs.len() {
        assert(rs[k].0 == fs[k].0);
        lemma_fields_denote(table, fs, rs, k + 1, depth);
    }
}

proof fn lemma_elements_denote(table: Seq<Json>, v: Seq<Json>, rv: Seq<Json>, k: int, depth: int)
    requires
        0 <= k <= v.len(),
        rv.len() == v.len(),
        forall|j: int| k <= j < v.len() ==> #[trigger] element_expands(table, v[j], depth, rv[j]),
    ensures
        elements_denote(table, v, rv, k, depth),
    decreases v.len() - k,
{
    if k < v.len() {
        assert(element_expands(table, v[k], depth, rv[k]));
        lemma_elements_denote(table, v, rv, k + 1, depth);
    }
}

} // verus!
