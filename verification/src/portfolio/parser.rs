//! Positions export parsing. Numeric absence is explicit: malformed values
//! never silently become zero.
use crate::decimal::{decimal_parse_exact, parse_exact, Dec};
use crate::numtext::all_digits;
use crate::text::{
    chars_of, count_char, count_of, find_char, first_index_of, is_ascii_digit, lemma_first_index_bounds,
    remove_char, remove_chars, slice_chars, split_chars, split_on, string_of, trim, trim_bounds, trim_end,
    trim_start, utf8_char_len, utf8_len, utf8_len_order,
};
use vstd::prelude::*;

verus! {

/// Why a money cell was rejected.
#[derive(Debug, Clone, Copy, PartialEq, Eq, Structural)]
pub enum NumberError {
    InvalidSign,
    InvalidGrouping,
    InvalidDecimal,
    OutOfRange,
}

pub open spec fn number_error_text(e: NumberError) -> Seq<char> {
    match e {
        NumberError::InvalidSign => "invalid sign"@,
        NumberError::InvalidGrouping => "invalid thousands grouping"@,
        NumberError::InvalidDecimal => "invalid decimal"@,
        NumberError::OutOfRange => "invalid or out-of-range decimal"@,
    }
}

impl NumberError {
    pub fn text(&self) -> (r: String)
        ensures
            r@ == number_error_text(*self),
    {
        match self {
            NumberError::InvalidSign => "invalid sign".to_owned(),
            NumberError::InvalidGrouping => "invalid thousands grouping".to_owned(),
            NumberError::InvalidDecimal => "invalid decimal".to_owned(),
            NumberError::OutOfRange => "invalid or out-of-range decimal".to_owned(),
        }
    }
}

/// Cells that explicitly mean "no value".
pub open spec fn missing_marker(v: Seq<char>) -> bool {
    ||| v == Seq::<char>::empty()
    ||| v == seq!['-', '-']
    ||| v == seq!['N', '/', 'A']
    ||| v == seq!['n', 'u', 'l', 'l']
}

/// Sign from an accounting `(...)` wrapper or a leading `-`, and the rest.
pub open spec fn outer_sign(v: Seq<char>) -> (bool, Seq<char>) {
    if v.len() > 0 && v[0] == '(' && v.last() == ')' {
        (true, v.subrange(1, v.len() - 1))
    } else if v.len() > 0 && v[0] == '-' {
        (true, v.drop_first())
    } else {
        (false, v)
    }
}

/// Without one leading `$`.
pub open spec fn strip_dollar(v: Seq<char>) -> Seq<char> {
    if v.len() > 0 && v[0] == '$' {
        v.drop_first()
    } else {
        v
    }
}

/// Thousands groups: first 1-3 bytes, every later group exactly 3.
pub open spec fn grouping_ok(integer: Seq<char>) -> bool {
    let groups = split_on(integer, ',');
    &&& groups[0].len() > 0
    &&& utf8_len(groups[0]) <= 3
    &&& forall|i: int| 1 <= i < groups.len() ==> utf8_len(#[trigger] groups[i]) == 3
}

pub open spec fn number_char(c: char) -> bool {
    is_ascii_digit(c) || c == ',' || c == '.'
}

/// Digits, commas and dots only; at most one dot; no comma after the dot.
pub open spec fn decimal_shape_ok(w: Seq<char>) -> bool {
    &&& w.len() > 0
    &&& forall|i: int| 0 <= i < w.len() ==> number_char(#[trigger] w[i])
    &&& count_of(w, '.') <= 1
    &&& !(first_index_of(w, '.') < w.len()
        && count_of(w.subrange(first_index_of(w, '.') + 1, w.len() as int), ',') > 0)
}

/// The money/quantity cell grammar of a positions export, as a value: absent,
/// an exact decimal (signed by parentheses or minus, optional `$`, optional
/// thousands separators), or the reason for rejection.
pub open spec fn number_spec(value: Seq<char>) -> Result<Option<Dec>, NumberError> {
    let v = trim(value);
    if missing_marker(v) {
        Ok(None)
    } else {
        let (neg1, v1) = outer_sign(v);
        let v2 = strip_dollar(v1);
        if v2.len() > 0 && v2[0] == '-' && neg1 {
            Err(NumberError::InvalidSign)
        } else {
            let neg = neg1 || (v2.len() > 0 && v2[0] == '-');
            let w = if v2.len() > 0 && v2[0] == '-' { v2.drop_first() } else { v2 };
            let integer = w.subrange(0, first_index_of(w, '.'));
            if count_of(integer, ',') > 0 && !grouping_ok(integer) {
                Err(NumberError::InvalidGrouping)
            } else if !decimal_shape_ok(w) {
                Err(NumberError::InvalidDecimal)
            } else {
                match decimal_parse_exact(remove_char(w, ',')) {
                    None => Err(NumberError::OutOfRange),
                    Some(d) => Ok(Some(if neg { d.spec_neg() } else { d })),
                }
            }
        }
    }
}

fn is_missing_marker(v: &[char]) -> (r: bool)
    ensures
        r == missing_marker(v@),
{
    let n = v.len();
    let r = n == 0 || (n == 2 && v[0] == '-' && v[1] == '-') || (n == 3 && v[0] == 'N' && v[1] == '/' && v[2] == 'A')
        || (n == 4 && v[0] == 'n' && v[1] == 'u' && v[2] == 'l' && v[3] == 'l');
    proof {
        if n == 2 && v@[0] == '-' && v@[1] == '-' {
            assert(v@ =~= seq!['-', '-']);
        }
        if n == 3 && v@[0] == 'N' && v@[1] == '/' && v@[2] == 'A' {
            assert(v@ =~= seq!['N', '/', 'A']);
        }
        if n == 4 && v@[0] == 'n' && v@[1] == 'u' && v@[2] == 'l' && v@[3] == 'l' {
            assert(v@ =~= seq!['n', 'u', 'l', 'l']);
        }
        if n == 0 {
            assert(v@ =~= Seq::<char>::empty());
        }
    }
    r
}

fn grouping_valid(integer: &[char]) -> (r: bool)
    ensures
        r == grouping_ok(integer@),
{
    let groups = split_chars(integer, ',');
    let ghost gv = groups@.map_values(|p: Vec<char>| p@);
    proof {
        crate::text::lemma_split_nonempty(integer@, ',');
        assert(gv.len() >= 1);
        assert(gv[0] == groups@[0]@);
    }
    if groups[0].len() == 0 || utf8_len_order(groups[0].as_slice(), 3) > 0 {
        return false;
    }
    let mut i: usize = 1;
    while i < groups.len()
        invariant
            1 <= i <= groups@.len(),
            gv == groups@.map_values(|p: Vec<char>| p@),
            gv == split_on(integer@, ','),
            forall|k: int| 1 <= k < i ==> utf8_len(#[trigger] gv[k]) == 3,
        decreases groups@.len() - i,
    {
        proof {
            assert(gv[i as int] == groups@[i as int]@);
        }
        if utf8_len_order(groups[i].as_slice(), 3) != 0 {
            return false;
        }
        i = i + 1;
    }
    true
}

fn shape_valid(w: &[char]) -> (r: bool)
    ensures
        r == decimal_shape_ok(w@),
{
    if w.len() == 0 {
        return false;
    }
    let mut i: usize = 0;
    while i < w.len()
        invariant
            i <= w@.len(),
            forall|k: int| 0 <= k < i ==> number_char(#[trigger] w@[k]),
        decreases w@.len() - i,
    {
        let c = w[i];
        if !(('0' <= c && c <= '9') || c == ',' || c == '.') {
            return false;
        }
        i = i + 1;
    }
    if count_char(w, '.') > 1 {
        return false;
    }
    let d = find_char(w, '.');
    if d < w.len() {
        let after = slice_chars(w, d + 1, w.len());
        if count_char(after.as_slice(), ',') > 0 {
            return false;
        }
    }
    true
}

/// Parses one money or quantity cell.
pub fn number(value: &str) -> (r: Result<Option<Dec>, NumberError>)
    ensures
        r == number_spec(value@),
        r matches Ok(Some(d)) ==> d.wf(),
{
    let all = chars_of(value);
    let (a, b) = trim_bounds(all.as_slice());
    let v = slice_chars(all.as_slice(), a, b);
    if is_missing_marker(v.as_slice()) {
        return Ok(None);
    }
    let n = v.len();
    let (neg1, s1, e1): (bool, usize, usize) = if n > 0 && v[0] == '(' && v[n - 1] == ')' {
        (true, 1, n - 1)
    } else if n > 0 && v[0] == '-' {
        (true, 1, n)
    } else {
        (false, 0, n)
    };
    let v1 = slice_chars(v.as_slice(), s1, e1);
    proof {
        if n > 0 && v@[0] == '(' && v@[n - 1] == ')' {
            assert(v1@ == outer_sign(v@).1);
        } else if n > 0 && v@[0] == '-' {
            assert(v1@ =~= v@.drop_first());
        } else {
            assert(v1@ =~= v@);
        }
    }
    let s2: usize = if v1.len() > 0 && v1[0] == '$' { 1 } else { 0 };
    let v2 = slice_chars(v1.as_slice(), s2, v1.len());
    proof {
        if s2 == 1 {
            assert(v2@ =~= v1@.drop_first());
        } else {
            assert(v2@ =~= v1@);
        }
    }
    let inner_minus = v2.len() > 0 && v2[0] == '-';
    if inner_minus && neg1 {
        return Err(NumberError::InvalidSign);
    }
    let neg = neg1 || inner_minus;
    let s3: usize = if inner_minus { 1 } else { 0 };
    let w = slice_chars(v2.as_slice(), s3, v2.len());
    proof {
        if inner_minus {
            assert(w@ =~= v2@.drop_first());
        } else {
            assert(w@ =~= v2@);
        }
        lemma_first_index_bounds(w@, '.');
    }
    let d = find_char(w.as_slice(), '.');
    let integer = slice_chars(w.as_slice(), 0, d);
    if count_char(integer.as_slice(), ',') > 0 && !grouping_valid(integer.as_slice()) {
        return Err(NumberError::InvalidGrouping);
    }
    if !shape_valid(w.as_slice()) {
        return Err(NumberError::InvalidDecimal);
    }
    let cleaned = remove_chars(w.as_slice(), ',');
    let text = string_of(cleaned.as_slice());
    match parse_exact(text.as_str()) {
        None => Err(NumberError::OutOfRange),
        Some(dv) => {
            if neg {
                Ok(Some(dv.neg()))
            } else {
                Ok(Some(dv))
            }
        },
    }
}


/// Field state of the quoting check.
#[derive(Debug, Clone, Copy, PartialEq, Eq, Structural)]
pub enum QuoteState {
    Start,
    Bare,
    Quoted,
    Closed,
}

/// One step of the quoting check: a quote may only open a field or be doubled
/// inside a quoted field, and a closed quoted field must end at a delimiter.
/// (The check is stated on characters: the bytes of a multi-byte character are
/// all "other" bytes, and repeating an "other" byte never changes the outcome.)
pub open spec fn quote_step(st: QuoteState, c: char) -> Option<QuoteState> {
    let delimiter = c == ',' || c == '\n' || c == '\r';
    match st {
        QuoteState::Start => if c == '"' { Some(QuoteState::Quoted) } else if delimiter { Some(QuoteState::Start) } else { Some(QuoteState::Bare) },
        QuoteState::Quoted => if c == '"' { Some(QuoteState::Closed) } else { Some(QuoteState::Quoted) },
        QuoteState::Closed => if c == '"' { Some(QuoteState::Quoted) } else if delimiter { Some(QuoteState::Start) } else { None },
        QuoteState::Bare => if delimiter { Some(QuoteState::Start) } else if c == '"' { None } else { Some(QuoteState::Bare) },
    }
}

pub open spec fn quote_run(s: Seq<char>) -> Option<QuoteState>
    decreases s.len(),
{
    if s.len() == 0 {
        Some(QuoteState::Start)
    } else {
        match quote_run(s.drop_last()) {
            None => None,
            Some(st) => quote_step(st, s.last()),
        }
    }
}

#[derive(Debug, Clone, Copy, PartialEq, Eq, Structural)]
pub enum QuoteError {
    Malformed,
    Unterminated,
}

pub open spec fn quote_error_text(e: QuoteError) -> Seq<char> {
    match e {
        QuoteError::Malformed => "malformed CSV quoting"@,
        QuoteError::Unterminated => "unterminated quoted CSV field"@,
    }
}

impl QuoteError {
    pub fn text(&self) -> (r: String)
        ensures
            r@ == quote_error_text(*self),
    {
        match self {
            QuoteError::Malformed => "malformed CSV quoting".to_owned(),
            QuoteError::Unterminated => "unterminated quoted CSV field".to_owned(),
        }
    }
}

pub open spec fn quotes_spec(s: Seq<char>) -> Result<(), QuoteError> {
    match quote_run(s) {
        None => Err(QuoteError::Malformed),
        Some(QuoteState::Quoted) => Err(QuoteError::Unterminated),
        Some(_) => Ok(()),
    }
}

/// Rejects malformed quoting before CSV parsing, so a truncated quoted field
/// cannot become an apparently valid holding.
pub fn validate_quotes(content: &[char]) -> (r: Result<(), QuoteError>)
    ensures
        r == quotes_spec(content@),
{
    let mut st = QuoteState::Start;
    let mut i: usize = 0;
    while i < content.len()
        invariant
            i <= content@.len(),
            quote_run(content@.subrange(0, i as int)) == Some(st),
        decreases content@.len() - i,
    {
        let c = content[i];
        let delimiter = c == ',' || c == '\n' || c == '\r';
        let next = match st {
            QuoteState::Start => if c == '"' { Some(QuoteState::Quoted) } else if delimiter { Some(QuoteState::Start) } else { Some(QuoteState::Bare) },
            QuoteState::Quoted => if c == '"' { Some(QuoteState::Closed) } else { Some(QuoteState::Quoted) },
            QuoteState::Closed => if c == '"' { Some(QuoteState::Quoted) } else if delimiter { Some(QuoteState::Start) } else { None },
            QuoteState::Bare => if delimiter { Some(QuoteState::Start) } else if c == '"' { None } else { Some(QuoteState::Bare) },
        };
        proof {
            assert(content@.subrange(0, i + 1).drop_last() =~= content@.subrange(0, i as int));
        }
        match next {
            None => {
                proof {
                    lemma_quote_run_stuck(content@, i as int + 1);
                }
                return Err(QuoteError::Malformed);
            },
            Some(n) => {
                st = n;
            },
        }
        i = i + 1;
    }
    proof {
        assert(content@.subrange(0, content@.len() as int) =~= content@);
    }
    if st == QuoteState::Quoted {
        Err(QuoteError::Unterminated)
    } else {
        Ok(())
    }
}

/// Once the quoting check fails, it fails on every extension.
proof fn lemma_quote_run_stuck(s: Seq<char>, i: int)
    requires
        0 <= i <= s.len(),
        quote_run(s.subrange(0, i)) is None,
    ensures
        quote_run(s) is None,
    decreases s.len() - i,
{
    if i < s.len() {
        assert(s.subrange(0, i + 1).drop_last() =~= s.subrange(0, i));
        lemma_quote_run_stuck(s, i + 1);
    } else {
        assert(s.subrange(0, i) =~= s);
    }
}

/// Digits written with thousands separators: the first group, then a comma
/// before each later group.
pub open spec fn grouped(first: Seq<char>, rest: Seq<Seq<char>>) -> Seq<char>
    decreases rest.len(),
{
    if rest.len() == 0 {
        first
    } else {
        grouped(first, rest.drop_last()) + seq![','] + rest.last()
    }
}

/// The same digits without separators.
pub open spec fn ungrouped(first: Seq<char>, rest: Seq<Seq<char>>) -> Seq<char>
    decreases rest.len(),
{
    if rest.len() == 0 {
        first
    } else {
        ungrouped(first, rest.drop_last()) + rest.last()
    }
}

proof fn lemma_count_concat(a: Seq<char>, b: Seq<char>, c: char)
    ensures
        count_of(a + b, c) == count_of(a, c) + count_of(b, c),
    decreases b.len(),
{
    if b.len() == 0 {
        assert(a + b =~= a);
    } else {
        lemma_count_concat(a, b.drop_last(), c);
        assert((a + b).drop_last() =~= a + b.drop_last());
        assert((a + b).last() == b.last());
    }
}

proof fn lemma_remove_concat(a: Seq<char>, b: Seq<char>, c: char)
    ensures
        remove_char(a + b, c) == remove_char(a, c) + remove_char(b, c),
    decreases b.len(),
{
    if b.len() == 0 {
        assert(a + b =~= a);
        assert(remove_char(a, c) + remove_char(b, c) =~= remove_char(a, c));
    } else {
        lemma_remove_concat(a, b.drop_last(), c);
        assert((a + b).drop_last() =~= a + b.drop_last());
        assert((a + b).last() == b.last());
        if b.last() != c {
            assert(remove_char(a, c) + remove_char(b.drop_last(), c).push(b.last())
                =~= (remove_char(a, c) + remove_char(b.drop_last(), c)).push(b.last()));
        }
    }
}

/// Facts about a run of digits: no other character occurs in it, so it has
/// no comma or dot, loses nothing to a removal of one, and each character
/// is one UTF-8 byte.
proof fn lemma_digit_run(d: Seq<char>)
    requires
        all_digits(d),
    ensures
        count_of(d, ',') == 0,
        count_of(d, '.') == 0,
        remove_char(d, ',') == d,
        utf8_len(d) == d.len(),
        split_on(d, ',') == seq![d],
    decreases d.len(),
{
    if d.len() > 0 {
        let r = d.drop_last();
        assert(all_digits(r)) by {
            assert forall|k: int| 0 <= k < r.len() implies is_ascii_digit(#[trigger] r[k]) by {
                assert(r[k] == d[k]);
            }
        }
        lemma_digit_run(r);
        let x = d.last();
        assert(x == d[d.len() - 1]);
        assert(is_ascii_digit(x));
        assert((x as u32) < 0x80) by {
            assert('0' <= x && x <= '9');
        }
        assert(utf8_char_len(x) == 1);
        assert(r.push(x) =~= d);
        assert(split_on(d, ',') =~= seq![d]) by {
            assert(seq![r].update(0, r.push(x)) =~= seq![d]);
        }
    } else {
        assert(d =~= Seq::<char>::empty());
        assert(split_on(d, ',') =~= seq![d]);
    }
}

/// Appending a run without separators to text extends its last piece.
proof fn lemma_split_append(x: Seq<char>, b: Seq<char>)
    requires
        all_digits(b),
    ensures
        split_on(x + b, ',') == split_on(x, ',').update(split_on(x, ',').len() - 1, split_on(x, ',').last() + b),
    decreases b.len(),
{
    crate::text::lemma_split_nonempty(x, ',');
    if b.len() == 0 {
        assert(x + b =~= x);
        assert(split_on(x, ',').last() + b =~= split_on(x, ',').last());
        assert(split_on(x, ',').update(split_on(x, ',').len() - 1, split_on(x, ',').last()) =~= split_on(x, ','));
    } else {
        let bd = b.drop_last();
        assert(all_digits(bd)) by {
            assert forall|k: int| 0 <= k < bd.len() implies is_ascii_digit(#[trigger] bd[k]) by {
                assert(bd[k] == b[k]);
            }
        }
        lemma_split_append(x, bd);
        assert((x + b).drop_last() =~= x + bd);
        assert((x + b).last() == b.last());
        assert(b.last() == b[b.len() - 1]);
        assert(is_ascii_digit(b.last()));
        crate::text::lemma_split_nonempty(x + bd, ',');
        let s = split_on(x, ',');
        assert((s.last() + bd).push(b.last()) =~= s.last() + b);
        assert(split_on(x + b, ',') =~= s.update(s.len() - 1, s.last() + b));
    }
}

/// Grouped digits hold only digits and commas, one comma per later group,
/// split at the commas into the groups, and lose the commas to the digits
/// without separators.
proof fn lemma_grouped(first: Seq<char>, rest: Seq<Seq<char>>)
    requires
        all_digits(first),
        forall|k: int| 0 <= k < rest.len() ==> all_digits(#[trigger] rest[k]),
    ensures
        forall|i: int| 0 <= i < grouped(first, rest).len() ==> is_ascii_digit(#[trigger] grouped(first, rest)[i])
            || grouped(first, rest)[i] == ',',
        grouped(first, rest).len() >= first.len(),
        first.len() > 0 ==> grouped(first, rest)[0] == first[0],
        count_of(grouped(first, rest), ',') == rest.len(),
        count_of(grouped(first, rest), '.') == 0,
        split_on(grouped(first, rest), ',') == seq![first] + rest,
        remove_char(grouped(first, rest), ',') == ungrouped(first, rest),
        all_digits(ungrouped(first, rest)),
        ungrouped(first, rest).len() >= first.len(),
        first.len() > 0 ==> ungrouped(first, rest)[0] == first[0],
    decreases rest.len(),
{
    lemma_digit_run(first);
    if rest.len() == 0 {
        assert(seq![first] + rest =~= seq![first]);
    } else {
        let rd = rest.drop_last();
        let l = rest.last();
        assert(l == rest[rest.len() - 1]);
        assert(forall|k: int| 0 <= k < rd.len() ==> all_digits(#[trigger] rd[k])) by {
            assert forall|k: int| 0 <= k < rd.len() implies all_digits(#[trigger] rd[k]) by {
                assert(rd[k] == rest[k]);
            }
        }
        lemma_grouped(first, rd);
        lemma_digit_run(l);
        let g = grouped(first, rd);
        let u = ungrouped(first, rd);
        let gc = g + seq![','];
        assert(grouped(first, rest) == gc + l);
        assert(ungrouped(first, rest) == u + l);
        lemma_count_concat(gc, l, ',');
        lemma_count_concat(g, seq![','], ',');
        lemma_count_concat(gc, l, '.');
        lemma_count_concat(g, seq![','], '.');
        let comma = seq![','];
        assert(comma.drop_last() =~= Seq::<char>::empty());
        assert(count_of(comma.drop_last(), ',') == 0);
        assert(count_of(comma.drop_last(), '.') == 0);
        assert(comma.last() == ',');
        assert(count_of(comma, ',') == 1);
        assert(count_of(comma, '.') == 0);
        lemma_remove_concat(gc, l, ',');
        lemma_remove_concat(g, seq![','], ',');
        assert(remove_char(comma.drop_last(), ',') =~= Seq::<char>::empty());
        assert(remove_char(comma, ',') =~= Seq::<char>::empty());
        assert(remove_char(g, ',') + Seq::<char>::empty() =~= remove_char(g, ','));
        lemma_split_append(gc, l);
        assert(gc.drop_last() =~= g);
        crate::text::lemma_split_nonempty(g, ',');
        assert(split_on(gc, ',') == split_on(g, ',').push(Seq::<char>::empty()));
        assert(split_on(gc + l, ',') =~= seq![first] + rest) by {
            assert(split_on(g, ',').push(Seq::<char>::empty()).update(split_on(g, ',').len() as int, Seq::<char>::empty() + l)
                =~= split_on(g, ',').push(l));
            assert(Seq::<char>::empty() + l =~= l);
            assert((seq![first] + rd).push(l) =~= seq![first] + rest);
        }
        let all = grouped(first, rest);
        assert forall|i: int| 0 <= i < all.len() implies is_ascii_digit(#[trigger] all[i]) || all[i] == ',' by {
            if i < g.len() {
                assert(all[i] == g[i]);
            } else if i == g.len() {
                assert(all[i] == ',');
            } else {
                assert(all[i] == l[i - g.len() - 1]);
            }
        }
        assert(all_digits(u + l)) by {
            assert forall|k: int| 0 <= k < (u + l).len() implies is_ascii_digit(#[trigger] (u + l)[k]) by {
                if k < u.len() {
                    assert((u + l)[k] == u[k]);
                } else {
                    assert((u + l)[k] == l[k - u.len()]);
                }
            }
        }
        if first.len() > 0 {
            assert(all[0] == g[0]);
            assert((u + l)[0] == u[0]);
        }
    }
}

/// A character of an amount cell's text is not whitespace.
proof fn lemma_not_ws(c: char)
    requires
        is_ascii_digit(c) || c == ',' || c == '.' || c == '$' || c == '-' || c == '(' || c == ')',
    ensures
        !crate::text::is_ws(c),
{
}

/// Text that neither starts nor ends with whitespace is its own trim.
proof fn lemma_trim_unchanged(t: Seq<char>)
    requires
        t.len() > 0,
        !crate::text::is_ws(t[0]),
        !crate::text::is_ws(t.last()),
    ensures
        trim(t) == t,
{
    assert(trim_start(t) == t);
    assert(trim_end(t) == t);
}

proof fn lemma_count_positive(s: Seq<char>, c: char, k: int)
    requires
        0 <= k < s.len(),
        s[k] == c,
    ensures
        count_of(s, c) > 0,
    decreases s.len(),
{
    if k < s.len() - 1 {
        assert(s.drop_last()[k] == c);
        lemma_count_positive(s.drop_last(), c, k);
    }
}

/// The first occurrence of `c` is at `k` when `s[k]` is `c` (or `k` is the
/// length) and no earlier character is.
proof fn lemma_first_index_at(s: Seq<char>, c: char, k: int)
    requires
        0 <= k <= s.len(),
        k < s.len() ==> s[k] == c,
        forall|i: int| 0 <= i < k ==> s[i] != c,
    ensures
        first_index_of(s, c) == k,
{
    lemma_first_index_bounds(s, c);
}

/// The fraction part of an amount: nothing, or a dot and digits.
pub open spec fn fraction_text(frac: Option<Seq<char>>) -> Seq<char> {
    match frac {
        None => Seq::<char>::empty(),
        Some(f) => seq!['.'] + f,
    }
}

/// An amount's text: `$` if asked for, digits (maybe grouped), a fraction,
/// and no sign (`0`), a minus (`1`) or accounting parentheses (otherwise).
pub open spec fn amount_text(sign: u8, dollar: bool, digits: Seq<char>, frac: Option<Seq<char>>) -> Seq<char> {
    let body = (if dollar { seq!['$'] } else { Seq::<char>::empty() }) + digits + fraction_text(frac);
    if sign == 0 {
        body
    } else if sign == 1 {
        seq!['-'] + body
    } else {
        seq!['('] + body + seq![')']
    }
}

/// The digits and fraction of an amount have the decimal shape, their
/// integer part is the digits, and removing commas leaves the fraction.
proof fn lemma_amount_digits(w: Seq<char>, frac: Option<Seq<char>>)
    requires
        w.len() > 0,
        forall|i: int| 0 <= i < w.len() ==> is_ascii_digit(#[trigger] w[i]) || w[i] == ',',
        frac matches Some(f) ==> all_digits(f),
        frac is None ==> is_ascii_digit(w.last()),
        count_of(w, '.') == 0,
    ensures
        ({
            let wt = w + fraction_text(frac);
            &&& wt.len() > 0 && wt[0] == w[0]
            &&& !crate::text::is_ws(wt.last())
            &&& wt.subrange(0, first_index_of(wt, '.')) == w
            &&& decimal_shape_ok(wt)
            &&& remove_char(wt, ',') == remove_char(w, ',') + fraction_text(frac)
        }),
{
    let t = fraction_text(frac);
    let wt = w + t;
    assert forall|i: int| 0 <= i < t.len() implies is_ascii_digit(#[trigger] t[i]) || t[i] == '.' by {
        if let Some(f) = frac {
            if i > 0 {
                assert(t[i] == f[i - 1]);
            }
        }
    }
    assert forall|i: int| 0 <= i < wt.len() implies number_char(#[trigger] wt[i]) by {
        if i < w.len() {
            assert(wt[i] == w[i]);
        } else {
            assert(wt[i] == t[i - w.len()]);
        }
    }
    assert(wt[0] == w[0]);
    assert(!crate::text::is_ws(wt.last())) by {
        if t.len() > 0 {
            assert(wt.last() == t[t.len() - 1]);
            lemma_not_ws(t[t.len() - 1]);
        } else {
            assert(wt.last() == w.last());
            lemma_not_ws(w.last());
        }
    }
    assert forall|i: int| 0 <= i < w.len() implies w[i] != '.' by {
        if w[i] == '.' {
            lemma_count_positive(w, '.', i);
        }
    }
    lemma_count_concat(w, t, '.');
    lemma_remove_concat(w, t, ',');
    match frac {
        None => {
            assert(t =~= Seq::<char>::empty());
            assert(wt =~= w);
            lemma_first_index_at(wt, '.', w.len() as int);
            assert(remove_char(t, ',') =~= t);
        },
        Some(f) => {
            lemma_digit_run(f);
            let dot = seq!['.'];
            assert(dot.drop_last() =~= Seq::<char>::empty());
            assert(count_of(dot.drop_last(), '.') == 0);
            assert(count_of(dot, '.') == 1);
            assert(remove_char(dot.drop_last(), ',') =~= Seq::<char>::empty());
            assert(remove_char(dot, ',') =~= dot);
            lemma_count_concat(dot, f, '.');
            lemma_remove_concat(dot, f, ',');
            assert(wt[w.len() as int] == '.');
            assert forall|i: int| 0 <= i < w.len() implies wt[i] != '.' by {
                assert(wt[i] == w[i]);
            }
            lemma_first_index_at(wt, '.', w.len() as int);
            assert(wt.subrange(w.len() as int + 1, wt.len() as int) =~= f);
        },
    }
    assert(wt.subrange(0, first_index_of(wt, '.')) =~= w);
}

/// An amount's sign: the text is its own trim, no missing marker, and its
/// outer sign is the one written around `body`.
proof fn lemma_amount_sign(sign: u8, body: Seq<char>)
    requires
        body.len() > 0,
        body[0] == '$' || is_ascii_digit(body[0]),
        !crate::text::is_ws(body.last()),
    ensures
        ({
            let text = if sign == 0 { body } else if sign == 1 { seq!['-'] + body } else { seq!['('] + body + seq![')'] };
            &&& trim(text) == text
            &&& !missing_marker(text)
            &&& outer_sign(text) == (sign != 0, body)
        }),
{
    let text = if sign == 0 { body } else if sign == 1 { seq!['-'] + body } else { seq!['('] + body + seq![')'] };
    lemma_not_ws(body[0]);
    if sign == 0 {
        lemma_trim_unchanged(text);
    } else if sign == 1 {
        assert(text[0] == '-' && text.last() == body.last() && text[1] == body[0]);
        lemma_not_ws('-');
        lemma_trim_unchanged(text);
        assert(text.drop_first() =~= body);
    } else {
        assert(text[0] == '(' && text.last() == ')');
        lemma_not_ws('(');
        lemma_not_ws(')');
        lemma_trim_unchanged(text);
        assert(text.subrange(1, text.len() - 1) =~= body);
    }
    assert(!missing_marker(text)) by {
        if text =~= seq!['-', '-'] {
            assert(text[1] == '-');
        }
        if text =~= seq!['N', '/', 'A'] || text =~= seq!['n', 'u', 'l', 'l'] {
            assert(text[0] == 'N' || text[0] == 'n');
        }
    }
}

proof fn lemma_amount(sign: u8, dollar: bool, w: Seq<char>, frac: Option<Seq<char>>, commas: nat)
    requires
        w.len() > 0,
        is_ascii_digit(w[0]),
        forall|i: int| 0 <= i < w.len() ==> is_ascii_digit(#[trigger] w[i]) || w[i] == ',',
        frac matches Some(f) ==> all_digits(f),
        frac is None ==> is_ascii_digit(w.last()),
        count_of(w, ',') == commas,
        count_of(w, '.') == 0,
    ensures
        number_spec(amount_text(sign, dollar, w, frac)) == if commas > 0 && !grouping_ok(w) {
            Err::<Option<Dec>, NumberError>(NumberError::InvalidGrouping)
        } else {
            match decimal_parse_exact(remove_char(w, ',') + fraction_text(frac)) {
                None => Err::<Option<Dec>, NumberError>(NumberError::OutOfRange),
                Some(d) => Ok(Some(if sign != 0 { d.spec_neg() } else { d })),
            }
        },
{
    let p = if dollar { seq!['$'] } else { Seq::<char>::empty() };
    let t = fraction_text(frac);
    let wt = w + t;
    let body = p + wt;
    assert(p + w + t =~= body);
    lemma_amount_digits(w, frac);
    assert(body.last() == wt.last());
    if dollar {
        assert(body[0] == '$');
        assert(body.drop_first() =~= wt);
    } else {
        assert(body =~= wt);
    }
    assert(strip_dollar(body) =~= wt);
    lemma_amount_sign(sign, body);
    let text = amount_text(sign, dollar, w, frac);
    assert(text == (if sign == 0 { body } else if sign == 1 { seq!['-'] + body } else { seq!['('] + body + seq![')'] }));
}

/// Law: thousands separators do not change an amount. Digits grouped in
/// threes after a first group of one to three digits (as an export writes
/// amounts from ten thousand up), with or without `$`, a fraction, a minus
/// sign or accounting parentheses, read exactly as the same text without
/// separators; and that text is read as the decimal its digits denote
/// (negated for a minus or parentheses).
pub proof fn lemma_thousands_separators(
    first: Seq<char>,
    rest: Seq<Seq<char>>,
    frac: Option<Seq<char>>,
    sign: u8,
    dollar: bool,
)
    requires
        all_digits(first),
        1 <= first.len() <= 3,
        forall|k: int| 0 <= k < rest.len() ==> all_digits(#[trigger] rest[k]) && rest[k].len() == 3,
        frac matches Some(f) ==> all_digits(f),
    ensures
        number_spec(amount_text(sign, dollar, grouped(first, rest), frac))
            == number_spec(amount_text(sign, dollar, ungrouped(first, rest), frac)),
        number_spec(amount_text(sign, dollar, ungrouped(first, rest), frac))
            == match decimal_parse_exact(ungrouped(first, rest) + fraction_text(frac)) {
            None => Err::<Option<Dec>, NumberError>(NumberError::OutOfRange),
            Some(d) => Ok(Some(if sign != 0 { d.spec_neg() } else { d })),
        },
{
    assert(forall|k: int| 0 <= k < rest.len() ==> all_digits(#[trigger] rest[k]));
    lemma_grouped(first, rest);
    let g = grouped(first, rest);
    let u = ungrouped(first, rest);
    lemma_digit_run(u);
    assert(is_ascii_digit(first[0]));
    let gs = split_on(g, ',');
    assert(gs == seq![first] + rest);
    assert(gs[0] == first);
    lemma_digit_run(first);
    assert forall|i: int| 1 <= i < gs.len() implies utf8_len(#[trigger] gs[i]) == 3 by {
        assert(gs[i] == rest[i - 1]);
        lemma_digit_run(rest[i - 1]);
    }
    assert(grouping_ok(g));
    assert(is_ascii_digit(g.last())) by {
        if rest.len() == 0 {
            assert(g.last() == first[first.len() - 1]);
        } else {
            let gd = grouped(first, rest.drop_last());
            assert(g == gd + seq![','] + rest.last());
            assert(rest.last() == rest[rest.len() - 1]);
            assert(g.last() == rest.last()[2]);
        }
    }
    assert(is_ascii_digit(u.last())) by {
        assert(u.last() == u[u.len() - 1]);
    }
    lemma_amount(sign, dollar, g, frac, rest.len());
    assert forall|i: int| 0 <= i < u.len() implies is_ascii_digit(#[trigger] u[i]) || u[i] == ',' by {}
    lemma_amount(sign, dollar, u, frac, 0);
}

/// Law: a separator in the wrong place rejects the amount as badly grouped:
/// a first group of four or more digits, or a later group of other than
/// three, whatever the sign, `$` and fraction around it.
pub proof fn lemma_bad_grouping(first: Seq<char>, rest: Seq<Seq<char>>, frac: Option<Seq<char>>, sign: u8, dollar: bool)
    requires
        all_digits(first),
        first.len() >= 1,
        rest.len() >= 1,
        forall|k: int| 0 <= k < rest.len() ==> all_digits(#[trigger] rest[k]) && rest[k].len() >= 1,
        frac matches Some(f) ==> all_digits(f),
        first.len() > 3 || exists|k: int| 0 <= k < rest.len() && (#[trigger] rest[k]).len() != 3,
    ensures
        number_spec(amount_text(sign, dollar, grouped(first, rest), frac))
            == Err::<Option<Dec>, NumberError>(NumberError::InvalidGrouping),
{
    assert(forall|k: int| 0 <= k < rest.len() ==> all_digits(#[trigger] rest[k]));
    lemma_grouped(first, rest);
    let g = grouped(first, rest);
    lemma_digit_run(first);
    assert(is_ascii_digit(first[0]));
    let gs = split_on(g, ',');
    assert(gs == seq![first] + rest);
    assert(!grouping_ok(g)) by {
        if first.len() <= 3 {
            let k = choose|k: int| 0 <= k < rest.len() && (#[trigger] rest[k]).len() != 3;
            assert(gs[k + 1] == rest[k]);
            lemma_digit_run(rest[k]);
        }
    }
    assert(is_ascii_digit(g.last())) by {
        let gd = grouped(first, rest.drop_last());
        assert(g == gd + seq![','] + rest.last());
        assert(rest.last() == rest[rest.len() - 1]);
        assert(all_digits(rest.last()));
        assert(g.last() == rest.last()[rest.last().len() - 1]);
    }
    lemma_amount(sign, dollar, g, frac, rest.len());
}

/// Law: a cell that is blank, or holds only `--`, `N/A` or `null` (with any
/// spaces around), has no value rather than an error or a zero.
pub proof fn lemma_missing_values(value: Seq<char>)
    requires
        trim(value) == ""@ || trim(value) == "--"@ || trim(value) == "N/A"@ || trim(value) == "null"@,
    ensures
        number_spec(value) == Ok::<Option<Dec>, NumberError>(None),
{
    reveal_strlit("");
    reveal_strlit("--");
    reveal_strlit("N/A");
    reveal_strlit("null");
    let v = trim(value);
    assert(missing_marker(v)) by {
        if v == "--"@ {
            assert(v =~= seq!['-', '-']);
        } else if v == "N/A"@ {
            assert(v =~= seq!['N', '/', 'A']);
        } else if v == "null"@ {
            assert(v =~= seq!['n', 'u', 'l', 'l']);
        } else {
            assert(v =~= Seq::<char>::empty());
        }
    }
}

} // verus!
