//! From a positions export to a portfolio: header detection, row checks,
//! exact market-value totals and cross-checking the exported total.
use crate::decimal::{checked_add, decimal_add, same_value, Dec};
use crate::numtext::{nat_digits, nat_to_text};
use crate::portfolio::parser::{number, number_error_text, number_spec, NumberError, quote_error_text, quotes_spec, validate_quotes};
use crate::portfolio::{chars_are, LoadError, Portfolio, PortfolioSummary, Position};
use crate::review::calculations::sum_spec;
use crate::text::{chars_eq, chars_of, lower, lower_seq, slice_chars, string_of, trim, trim_bounds, trim_chars};
use vstd::prelude::*;

verus! {

/// Cells of one CSV record, with the line it started on.
pub struct CsvRow {
    pub line: u64,
    pub fields: Vec<String>,
}

/// The records read before the first CSV error, and that error if any.
pub struct CsvRead {
    pub rows: Vec<CsvRow>,
    pub error: Option<String>,
}

pub open spec fn csv_row_view(r: CsvRow) -> (u64, Seq<Seq<char>>) {
    (r.line, r.fields@.map_values(|f: String| f@))
}

pub open spec fn csv_read_view(r: CsvRead) -> (Seq<(u64, Seq<Seq<char>>)>, Option<Seq<char>>) {
    (
        r.rows@.map_values(|row: CsvRow| csv_row_view(row)),
        match r.error {
            Some(e) => Some(e@),
            None => None,
        },
    )
}

/// What the `csv` crate reads from a text (no header row, records of any
/// width): the records before the first error, and that error's text.
pub uninterp spec fn csv_records(content: Seq<char>) -> (Seq<(u64, Seq<Seq<char>>)>, Option<Seq<char>>);

/// `csv::ReaderBuilder` (no headers, flexible widths) reading every record of
/// `content`, each with its starting line, stopping at the first error. The
/// contract names the result; the crate's CSV dialect is not restated.
#[verifier::external_body]
pub(crate) fn read_csv(content: &str) -> (r: CsvRead)
    ensures
        csv_read_view(r) == csv_records(content@),
{
    let mut reader = csv::ReaderBuilder::new().has_headers(false).flexible(true).from_reader(content.as_bytes());
    let mut rows = Vec::new();
    for record in reader.records() {
        match record {
            Ok(row) => rows.push(CsvRow { line: row.position().map(|p| p.line()).unwrap_or(0), fields: row.iter().map(|s| s.to_string()).collect() }),
            Err(e) => return CsvRead { rows, error: Some(e.to_string()) },
        }
    }
    CsvRead { rows, error: None }
}

pub struct PositionView {
    pub symbol: Seq<char>,
    pub description: Seq<char>,
    pub quantity: Option<Dec>,
    pub price: Option<Dec>,
    pub market_value: Dec,
    pub cost_basis: Option<Dec>,
    pub asset_type: Seq<char>,
}

pub open spec fn position_view(p: Position) -> PositionView {
    PositionView {
        symbol: p.symbol@,
        description: p.description@,
        quantity: p.quantity,
        price: p.price,
        market_value: p.market_value,
        cost_basis: p.cost_basis,
        asset_type: p.asset_type@,
    }
}

/// Reading state after some rows: the header (once found), the accepted
/// holdings, their running total and the exported total row's value.
pub struct RowsState {
    pub headers: Option<Seq<Seq<char>>>,
    pub positions: Seq<PositionView>,
    pub total: Dec,
    pub reported: Option<Dec>,
}

pub open spec fn initial_rows_state() -> RowsState {
    RowsState { headers: None, positions: Seq::empty(), total: Dec { mantissa: 0, scale: 0, negative: false }, reported: None }
}

/// The text before the first `" ("` (a unit suffix such as `"Mkt Val (Market Value)"`).
pub open spec fn before_paren(t: Seq<char>) -> Seq<char>
    decreases t.len(),
{
    if t.len() < 2 {
        t
    } else if t[0] == ' ' && t[1] == '(' {
        Seq::empty()
    } else {
        seq![t[0]] + before_paren(t.drop_first())
    }
}

pub open spec fn header_cell(c: Seq<char>) -> Seq<char> {
    before_paren(trim(c))
}

pub open spec fn count_name(hs: Seq<Seq<char>>, name: Seq<char>) -> nat
    decreases hs.len(),
{
    if hs.len() == 0 {
        0
    } else {
        count_name(hs.drop_last(), name) + if hs.last() == name { 1nat } else { 0nat }
    }
}

/// The first required column that is missing or duplicated, in the order
/// Symbol, Description, Qty, Price, Mkt Val.
pub open spec fn header_problem(hs: Seq<Seq<char>>) -> Option<Seq<char>> {
    if count_name(hs, "Symbol"@) != 1 {
        Some("Symbol"@)
    } else if count_name(hs, "Description"@) != 1 {
        Some("Description"@)
    } else if count_name(hs, "Qty"@) != 1 {
        Some("Qty"@)
    } else if count_name(hs, "Price"@) != 1 {
        Some("Price"@)
    } else if count_name(hs, "Mkt Val"@) != 1 {
        Some("Mkt Val"@)
    } else {
        None
    }
}

/// Index of the first header equal to `name`.
pub open spec fn col_index(hs: Seq<Seq<char>>, name: Seq<char>) -> Option<int>
    decreases hs.len(),
{
    if hs.len() == 0 {
        None
    } else if hs[0] == name {
        Some(0)
    } else {
        match col_index(hs.drop_first(), name) {
            Some(i) => Some(i + 1),
            None => None,
        }
    }
}

/// The trimmed cell under column `name`, empty when absent.
pub open spec fn cell_text(hs: Seq<Seq<char>>, row: Seq<Seq<char>>, name: Seq<char>) -> Seq<char> {
    match col_index(hs, name) {
        Some(i) => if i < row.len() { trim(row[i]) } else { Seq::empty() },
        None => Seq::empty(),
    }
}

pub open spec fn row_prefix(line: u64) -> Seq<char> {
    "row "@ + nat_digits(line as nat)
}

/// A numeric cell, or the message locating the bad value.
pub open spec fn numeric_cell(hs: Seq<Seq<char>>, row: Seq<Seq<char>>, name: Seq<char>, line: u64) -> Result<Option<Dec>, Seq<char>> {
    match number_spec(cell_text(hs, row, name)) {
        Ok(v) => Ok(v),
        Err(e) => Err(row_prefix(line) + ", "@ + name + ": "@ + number_error_text(e)),
    }
}

pub open spec fn blank_row(row: Seq<Seq<char>>) -> bool {
    forall|i: int| 0 <= i < row.len() ==> trim(#[trigger] row[i]).len() == 0
}

pub open spec fn contains_text(s: Seq<char>, pat: Seq<char>) -> bool {
    exists|i: int| 0 <= i && i + pat.len() <= s.len() && #[trigger] s.subrange(i, i + pat.len()) == pat
}

/// Width of a record ignoring trailing blank cells.
pub open spec fn effective_len(r: Seq<Seq<char>>) -> nat
    decreases r.len(),
{
    if r.len() == 0 {
        0
    } else if trim(r.last()).len() == 0 {
        effective_len(r.drop_last())
    } else {
        r.len()
    }
}

pub open spec fn first_cell(row: Seq<Seq<char>>) -> Seq<char> {
    if row.len() > 0 {
        trim(row[0])
    } else {
        Seq::empty()
    }
}

pub open spec fn has_symbol(ps: Seq<PositionView>, s: Seq<char>) -> bool {
    exists|i: int| 0 <= i < ps.len() && (#[trigger] ps[i]).symbol == s
}

pub open spec fn is_cash_symbol(s: Seq<char>) -> bool {
    lower_seq(s) == lower_seq("Cash & Cash Investments"@) || lower_seq(s) == lower_seq("Cash"@)
}

/// One data row after the header: a holding, the exported total, a blank row,
/// or the reason the file is rejected.
#[verifier::opaque]
pub open spec fn data_row_step(st: RowsState, hs: Seq<Seq<char>>, line: u64, row: Seq<Seq<char>>) -> Result<RowsState, Seq<char>> {
    let first = first_cell(row);
    if blank_row(row) {
        Ok(st)
    } else if contains_text(first, "Positions Total"@) || contains_text(first, "Account Total"@) {
        match numeric_cell(hs, row, "Mkt Val"@, line) {
            Err(m) => Err(m),
            Ok(Some(v)) => Ok(RowsState { reported: Some(v), ..st }),
            Ok(None) => Ok(st),
        }
    } else if effective_len(row) > hs.len() || row.len() < effective_len(hs) {
        Err(row_prefix(line) + ": column count does not match header"@)
    } else if first.len() == 0 || first == "Symbol"@ || has_symbol(st.positions, first) {
        Err(row_prefix(line) + ": missing or duplicate symbol"@)
    } else {
        match numeric_cell(hs, row, "Qty"@, line) {
            Err(m) => Err(m),
            Ok(quantity) => match numeric_cell(hs, row, "Price"@, line) {
                Err(m) => Err(m),
                Ok(price) => if !is_cash_symbol(first) && (quantity is None || price is None) {
                    Err(row_prefix(line) + ": quantity and price are required for non-cash positions"@)
                } else {
                    match numeric_cell(hs, row, "Mkt Val"@, line) {
                        Err(m) => Err(m),
                        Ok(None) => Err(row_prefix(line) + ": market value is required"@),
                        Ok(Some(mv)) => match decimal_add(st.total, mv) {
                            None => Err("market-value sum overflowed"@),
                            Some(total) => match numeric_cell(hs, row, "Cost Basis"@, line) {
                                Err(m) => Err(m),
                                Ok(cost_basis) => Ok(RowsState {
                                    positions: st.positions.push(PositionView {
                                        symbol: first,
                                        description: cell_text(hs, row, "Description"@),
                                        quantity,
                                        price,
                                        market_value: mv,
                                        cost_basis,
                                        asset_type: cell_text(hs, row, "Asset Type"@),
                                    }),
                                    total,
                                    ..st
                                }),
                            },
                        },
                    }
                },
            },
        }
    }
}

/// One CSV record. Before the header, only a row starting with `Symbol` matters.
pub open spec fn row_step(st: RowsState, line: u64, row: Seq<Seq<char>>) -> Result<RowsState, Seq<char>> {
    match st.headers {
        None => if first_cell(row) == "Symbol"@ {
            let hs = row.map_values(|c: Seq<char>| header_cell(c));
            match header_problem(hs) {
                Some(name) => Err("missing or duplicate required column: "@ + name),
                None => Ok(RowsState { headers: Some(hs), ..st }),
            }
        } else {
            Ok(st)
        },
        Some(hs) => data_row_step(st, hs, line, row),
    }
}

pub open spec fn fold_rows(rows: Seq<(u64, Seq<Seq<char>>)>) -> Result<RowsState, Seq<char>>
    decreases rows.len(),
{
    if rows.len() == 0 {
        Ok(initial_rows_state())
    } else {
        match fold_rows(rows.drop_last()) {
            Err(m) => Err(m),
            Ok(st) => row_step(st, rows.last().0, rows.last().1),
        }
    }
}

/// Leading byte-order marks removed.
pub open spec fn strip_bom(s: Seq<char>) -> Seq<char>
    decreases s.len(),
{
    if s.len() > 0 && s[0] == '\u{feff}' {
        strip_bom(s.drop_first())
    } else {
        s
    }
}

pub struct PortfolioView {
    pub positions: Seq<PositionView>,
    pub position_count: nat,
    pub total_market_value: Dec,
    pub source_file: Seq<char>,
}

pub open spec fn portfolio_view(p: Portfolio) -> PortfolioView {
    PortfolioView {
        positions: p.positions@.map_values(|x: Position| position_view(x)),
        position_count: p.summary.position_count as nat,
        total_market_value: p.summary.total_market_value,
        source_file: p.source_file@,
    }
}

/// Whole-file checks after the last record.
pub open spec fn finish_rows(st: RowsState) -> Result<RowsState, Seq<char>> {
    if st.headers is None {
        Err("missing Symbol header"@)
    } else if st.positions.len() == 0 {
        Err("no holdings found"@)
    } else if st.reported matches Some(r) && !r.same_value(st.total) {
        Err("exported total does not match the sum of holding market values"@)
    } else {
        Ok(st)
    }
}

/// The reason the records read from a positions file reject it, before the
/// `file: ` prefix: a rejected row, a CSV error after the rows read, or a
/// whole-file check.
pub open spec fn records_outcome(read: (Seq<(u64, Seq<Seq<char>>)>, Option<Seq<char>>)) -> Result<RowsState, Seq<char>> {
    match fold_rows(read.0) {
        Err(m) => Err(m),
        Ok(st) => match read.1 {
            Some(e) => Err("malformed CSV: "@ + e),
            None => finish_rows(st),
        },
    }
}

/// The reason a positions file is rejected, before the `file: ` prefix.
pub open spec fn positions_outcome(content: Seq<char>) -> Result<RowsState, Seq<char>> {
    if trim(content).len() == 0 {
        Err("positions file is empty"@)
    } else {
        let c = strip_bom(content);
        match quotes_spec(c) {
            Err(q) => Err(quote_error_text(q)),
            Ok(_) => {
                records_outcome(csv_records(c))
            },
        }
    }
}


pub open spec fn texts(v: Seq<Vec<char>>) -> Seq<Seq<char>> {
    v.map_values(|x: Vec<char>| x@)
}

fn header_cell_of(c: &[char]) -> (r: Vec<char>)
    ensures
        r@ == header_cell(c@),
{
    let t = trim_chars(c);
    let mut i: usize = 0;
    proof {
        assert(t@.subrange(0, 0) + t@.subrange(0, t@.len() as int) =~= t@);
        assert(t@.subrange(0, t@.len() as int) =~= t@);
    }
    while i < t.len() && i + 1 < t.len() && !(t[i] == ' ' && t[i + 1] == '(')
        invariant
            i <= t@.len(),
            before_paren(t@) == t@.subrange(0, i as int) + before_paren(t@.subrange(i as int, t@.len() as int)),
        decreases t@.len() - i,
    {
        proof {
            let rest = t@.subrange(i as int, t@.len() as int);
            assert(rest.drop_first() =~= t@.subrange(i + 1, t@.len() as int));
            assert(t@.subrange(0, i + 1) =~= t@.subrange(0, i as int) + seq![t@[i as int]]);
        }
        i = i + 1;
    }
    proof {
        let rest = t@.subrange(i as int, t@.len() as int);
        if i < t@.len() && i + 1 < t@.len() {
            assert(before_paren(rest) =~= Seq::<char>::empty());
        } else {
            assert(before_paren(rest) == rest);
            assert(t@.subrange(0, i as int) + rest =~= t@);
        }
    }
    if i < t.len() && i + 1 < t.len() {
        proof {
            assert(t@.subrange(0, i as int) + Seq::<char>::empty() =~= t@.subrange(0, i as int));
        }
        slice_chars(t.as_slice(), 0, i)
    } else {
        t
    }
}

fn count_header(hs: &Vec<Vec<char>>, name: &str) -> (r: usize)
    ensures
        r == count_name(texts(hs@), name@),
{
    let nc = chars_of(name);
    let mut n: usize = 0;
    let mut i: usize = 0;
    while i < hs.len()
        invariant
            i <= hs@.len(),
            nc@ == name@,
            n == count_name(texts(hs@).subrange(0, i as int), name@),
            n <= i,
        decreases hs@.len() - i,
    {
        proof {
            assert(texts(hs@).subrange(0, i + 1).drop_last() =~= texts(hs@).subrange(0, i as int));
        }
        if chars_eq(hs[i].as_slice(), nc.as_slice()) {
            n = n + 1;
        }
        i = i + 1;
    }
    proof {
        assert(texts(hs@).subrange(0, hs@.len() as int) =~= texts(hs@));
    }
    n
}

fn header_problem_of(hs: &Vec<Vec<char>>) -> (r: Option<&'static str>)
    ensures
        match header_problem(texts(hs@)) {
            Some(name) => r matches Some(s) && s@ == name,
            None => r is None,
        },
{
    if count_header(hs, "Symbol") != 1 {
        Some("Symbol")
    } else if count_header(hs, "Description") != 1 {
        Some("Description")
    } else if count_header(hs, "Qty") != 1 {
        Some("Qty")
    } else if count_header(hs, "Price") != 1 {
        Some("Price")
    } else if count_header(hs, "Mkt Val") != 1 {
        Some("Mkt Val")
    } else {
        None
    }
}

proof fn lemma_col_index(hs: Seq<Seq<char>>, name: Seq<char>, i: int)
    requires
        0 <= i <= hs.len(),
        forall|k: int| 0 <= k < i ==> hs[k] != name,
        i < hs.len() ==> hs[i] == name,
    ensures
        col_index(hs, name) == (if i < hs.len() { Some(i) } else { None::<int> }),
    decreases hs.len(),
{
    if hs.len() > 0 && i > 0 {
        assert forall|k: int| 0 <= k < i - 1 implies hs.drop_first()[k] != name by {
            assert(hs.drop_first()[k] == hs[k + 1]);
        }
        lemma_col_index(hs.drop_first(), name, i - 1);
    }
}

fn cell_of(hs: &Vec<Vec<char>>, row: &Vec<Vec<char>>, name: &str) -> (r: Vec<char>)
    ensures
        r@ == cell_text(texts(hs@), texts(row@), name@),
{
    let nc = chars_of(name);
    let mut i: usize = 0;
    while i < hs.len() && !chars_eq(hs[i].as_slice(), nc.as_slice())
        invariant
            i <= hs@.len(),
            nc@ == name@,
            forall|k: int| 0 <= k < i ==> texts(hs@)[k] != name@,
        decreases hs@.len() - i,
    {
        i = i + 1;
    }
    proof {
        lemma_col_index(texts(hs@), name@, i as int);
    }
    if i < hs.len() && i < row.len() {
        proof {
            assert(texts(row@)[i as int] == row@[i as int]@);
        }
        trim_chars(row[i].as_slice())
    } else {
        Vec::new()
    }
}

fn row_prefix_text(line: u64) -> (r: String)
    ensures
        r@ == row_prefix(line),
{
    let mut s = "row ".to_owned();
    let digits = nat_to_text(line);
    s.append(digits.as_str());
    s
}

fn numeric_of(hs: &Vec<Vec<char>>, row: &Vec<Vec<char>>, name: &str, line: u64) -> (r: Result<Option<Dec>, String>)
    ensures
        match numeric_cell(texts(hs@), texts(row@), name@, line) {
            Ok(v) => r == Ok::<Option<Dec>, String>(v),
            Err(m) => r matches Err(e) && e@ == m,
        },
        r matches Ok(Some(d)) ==> d.wf(),
{
    let cell = cell_of(hs, row, name);
    let text = string_of(cell.as_slice());
    match number(text.as_str()) {
        Ok(v) => Ok(v),
        Err(e) => {
            let mut m = row_prefix_text(line);
            m.append(", ");
            m.append(name);
            m.append(": ");
            let reason = e.text();
            m.append(reason.as_str());
            Err(m)
        },
    }
}

fn blank(row: &Vec<Vec<char>>) -> (r: bool)
    ensures
        r == blank_row(texts(row@)),
{
    let mut i: usize = 0;
    while i < row.len()
        invariant
            i <= row@.len(),
            forall|k: int| 0 <= k < i ==> trim(#[trigger] texts(row@)[k]).len() == 0,
        decreases row@.len() - i,
    {
        let t = trim_chars(row[i].as_slice());
        if t.len() != 0 {
            proof {
                assert(texts(row@)[i as int] == row@[i as int]@);
            }
            return false;
        }
        i = i + 1;
    }
    true
}

pub(crate) fn contains_pattern(s: &[char], pat: &str) -> (r: bool)
    ensures
        r == contains_text(s@, pat@),
{
    let p = chars_of(pat);
    if p.len() > s.len() {
        return false;
    }
    let plen = p.len();
    let last = s.len() - plen;
    let mut i: usize = 0;
    loop
        invariant
            plen == p@.len(),
            s@.len() == s.len(),
            p@ == pat@,
            p@.len() <= s@.len(),
            last == s@.len() - p@.len(),
            i <= last,
            forall|k: int| 0 <= k < i ==> #[trigger] s@.subrange(k, k + p@.len()) != p@,
        ensures
            forall|k: int| 0 <= k <= last ==> #[trigger] s@.subrange(k, k + p@.len()) != p@,
        decreases last - i,
    {
        assert(i + p@.len() <= s@.len());
        let piece = slice_chars(s, i, i + plen);
        if chars_eq(piece.as_slice(), p.as_slice()) {
            return true;
        }
        if i == last {
            break;
        }
        i = i + 1;
    }
    proof {
        assert forall|k: int| 0 <= k && k + p@.len() <= s@.len() implies #[trigger] s@.subrange(k, k + p@.len()) != p@ by {
        }
    }
    false
}

fn effective_width(r: &Vec<Vec<char>>) -> (w: usize)
    ensures
        w == effective_len(texts(r@)),
        w <= r@.len(),
{
    let mut n: usize = r.len();
    proof {
        assert(texts(r@).subrange(0, n as int) =~= texts(r@));
    }
    while n > 0 && trim_chars(r[n - 1].as_slice()).len() == 0
        invariant
            n <= r@.len(),
            effective_len(texts(r@)) == effective_len(texts(r@).subrange(0, n as int)),
        decreases n,
    {
        proof {
            let t = texts(r@).subrange(0, n as int);
            assert(t.last() == r@[n - 1]@);
            assert(t.drop_last() =~= texts(r@).subrange(0, n - 1));
        }
        n = n - 1;
    }
    proof {
        let t = texts(r@).subrange(0, n as int);
        if n > 0 {
            assert(t.last() == r@[n - 1]@);
        }
    }
    n
}

fn has_symbol_in(ps: &Vec<Position>, s: &[char]) -> (r: bool)
    ensures
        r == has_symbol(ps@.map_values(|x: Position| position_view(x)), s@),
{
    let ghost views = ps@.map_values(|x: Position| position_view(x));
    let mut i: usize = 0;
    while i < ps.len()
        invariant
            i <= ps@.len(),
            views == ps@.map_values(|x: Position| position_view(x)),
            forall|k: int| 0 <= k < i ==> (#[trigger] views[k]).symbol != s@,
        decreases ps@.len() - i,
    {
        let c = chars_of(ps[i].symbol.as_str());
        if chars_eq(c.as_slice(), s) {
            proof {
                assert(views[i as int].symbol == s@);
            }
            return true;
        }
        i = i + 1;
    }
    false
}

fn lower_all(s: &[char]) -> (r: Vec<char>)
    ensures
        r@ == lower_seq(s@),
{
    let mut r: Vec<char> = Vec::new();
    let mut k: usize = 0;
    while k < s.len()
        invariant
            k <= s@.len(),
            r@ == lower_seq(s@.subrange(0, k as int)),
        decreases s@.len() - k,
    {
        r.push(crate::text::to_lower(s[k]));
        proof {
            assert(lower_seq(s@.subrange(0, k + 1)) =~= lower_seq(s@.subrange(0, k as int)).push(lower(s@[k as int])));
        }
        k = k + 1;
    }
    proof {
        assert(s@.subrange(0, s@.len() as int) =~= s@);
    }
    r
}

fn is_cash(s: &[char]) -> (r: bool)
    ensures
        r == is_cash_symbol(s@),
{
    let l = lower_all(s);
    let a = chars_of("Cash & Cash Investments");
    let b = chars_of("Cash");
    let la = lower_all(a.as_slice());
    let lb = lower_all(b.as_slice());
    chars_eq(l.as_slice(), la.as_slice()) || chars_eq(l.as_slice(), lb.as_slice())
}


pub open spec fn position_views(ps: Seq<Position>) -> Seq<PositionView> {
    ps.map_values(|x: Position| position_view(x))
}

fn first_of(row: &Vec<Vec<char>>) -> (r: Vec<char>)
    ensures
        r@ == first_cell(texts(row@)),
{
    if row.len() > 0 {
        proof {
            assert(texts(row@)[0] == row@[0]@);
        }
        trim_chars(row[0].as_slice())
    } else {
        Vec::new()
    }
}

fn with_row_prefix(line: u64, tail: &str) -> (r: String)
    ensures
        r@ == row_prefix(line) + tail@,
{
    let mut m = row_prefix_text(line);
    m.append(tail);
    m
}

/// One data row after the header (see `data_row_step`).
fn data_step(
    positions: Vec<Position>,
    total: Dec,
    reported: Option<Dec>,
    hs: &Vec<Vec<char>>,
    line: u64,
    row: &Vec<Vec<char>>,
) -> (r: Result<(Vec<Position>, Dec, Option<Dec>), String>)
    requires
        total.wf(),
        reported matches Some(v) ==> v.wf(),
    ensures
        match data_row_step(
            RowsState { headers: Some(texts(hs@)), positions: position_views(positions@), total, reported },
            texts(hs@),
            line,
            texts(row@),
        ) {
            Ok(st) => r matches Ok((p, t, rp)) && st.headers == Some(texts(hs@)) && position_views(p@) == st.positions && t == st.total
                && rp == st.reported && t.wf() && (rp matches Some(v) ==> v.wf()),
            Err(m) => r matches Err(e) && e@ == m,
        },
{
    proof {
        reveal(data_row_step);
    }
    let first = first_of(row);
    if blank(row) {
        return Ok((positions, total, reported));
    }
    if contains_pattern(first.as_slice(), "Positions Total") || contains_pattern(first.as_slice(), "Account Total") {
        return match numeric_of(hs, row, "Mkt Val", line) {
            Err(m) => Err(m),
            Ok(Some(v)) => Ok((positions, total, Some(v))),
            Ok(None) => Ok((positions, total, reported)),
        };
    }
    if effective_width(row) > hs.len() || row.len() < effective_width(hs) {
        return Err(with_row_prefix(line, ": column count does not match header"));
    }
    if first.len() == 0 || chars_are(first.as_slice(), "Symbol") || has_symbol_in(&positions, first.as_slice()) {
        return Err(with_row_prefix(line, ": missing or duplicate symbol"));
    }
    let quantity = match numeric_of(hs, row, "Qty", line) {
        Err(m) => {
            return Err(m);
        },
        Ok(q) => q,
    };
    let price = match numeric_of(hs, row, "Price", line) {
        Err(m) => {
            return Err(m);
        },
        Ok(p) => p,
    };
    if !is_cash(first.as_slice()) && (quantity.is_none() || price.is_none()) {
        return Err(with_row_prefix(line, ": quantity and price are required for non-cash positions"));
    }
    let market_value = match numeric_of(hs, row, "Mkt Val", line) {
        Err(m) => {
            return Err(m);
        },
        Ok(None) => {
            return Err(with_row_prefix(line, ": market value is required"));
        },
        Ok(Some(v)) => v,
    };
    let new_total = match checked_add(&total, &market_value) {
        None => {
            return Err("market-value sum overflowed".to_owned());
        },
        Some(t) => t,
    };
    let cost_basis = match numeric_of(hs, row, "Cost Basis", line) {
        Err(m) => {
            return Err(m);
        },
        Ok(c) => c,
    };
    let description = cell_of(hs, row, "Description");
    let asset_type = cell_of(hs, row, "Asset Type");
    let mut positions = positions;
    let ghost before = positions@;
    positions.push(Position {
        symbol: string_of(first.as_slice()),
        description: string_of(description.as_slice()),
        quantity,
        price,
        market_value,
        cost_basis,
        asset_type: string_of(asset_type.as_slice()),
    });
    proof {
        assert(position_views(positions@) =~= position_views(before).push(position_view(positions@.last())));
    }
    Ok((positions, new_total, reported))
}

/// Reading state with executable values.
struct Rows {
    headers: Option<Vec<Vec<char>>>,
    positions: Vec<Position>,
    total: Dec,
    reported: Option<Dec>,
}

spec fn rows_view(r: Rows) -> RowsState {
    RowsState {
        headers: match r.headers {
            Some(h) => Some(texts(h@)),
            None => None,
        },
        positions: position_views(r.positions@),
        total: r.total,
        reported: r.reported,
    }
}

spec fn rows_wf(r: Rows) -> bool {
    r.total.wf() && (r.reported matches Some(v) ==> v.wf())
}

fn header_cells(row: &Vec<Vec<char>>) -> (r: Vec<Vec<char>>)
    ensures
        texts(r@) == texts(row@).map_values(|c: Seq<char>| header_cell(c)),
{
    let mut r: Vec<Vec<char>> = Vec::new();
    let mut i: usize = 0;
    while i < row.len()
        invariant
            i <= row@.len(),
            texts(r@) == texts(row@).subrange(0, i as int).map_values(|c: Seq<char>| header_cell(c)),
        decreases row@.len() - i,
    {
        let ghost before = r@;
        r.push(header_cell_of(row[i].as_slice()));
        proof {
            assert(texts(row@).subrange(0, i + 1) =~= texts(row@).subrange(0, i as int).push(row@[i as int]@));
            assert(texts(r@) =~= texts(before).push(header_cell(row@[i as int]@)));
        }
        i = i + 1;
    }
    proof {
        assert(texts(row@).subrange(0, row@.len() as int) =~= texts(row@));
    }
    r
}

fn row_step_exec(st: Rows, line: u64, row: &Vec<Vec<char>>) -> (r: Result<Rows, String>)
    requires
        rows_wf(st),
    ensures
        match row_step(rows_view(st), line, texts(row@)) {
            Ok(next) => r matches Ok(n) && rows_view(n) == next && rows_wf(n),
            Err(m) => r matches Err(e) && e@ == m,
        },
{
    let ghost old = rows_view(st);
    match st.headers {
        None => {
            let first = first_of(row);
            if chars_are(first.as_slice(), "Symbol") {
                let hs = header_cells(row);
                proof {
                    assert(texts(hs@) =~= texts(row@).map_values(|c: Seq<char>| header_cell(c)));
                }
                match header_problem_of(&hs) {
                    Some(name) => {
                        let mut m = "missing or duplicate required column: ".to_owned();
                        m.append(name);
                        Err(m)
                    },
                    None => Ok(Rows { headers: Some(hs), positions: st.positions, total: st.total, reported: st.reported }),
                }
            } else {
                Ok(Rows { headers: None, positions: st.positions, total: st.total, reported: st.reported })
            }
        },
        Some(hs) => {
            proof {
                assert(old == RowsState { headers: Some(texts(hs@)), positions: position_views(st.positions@), total: st.total, reported: st.reported });
                assert(row_step(old, line, texts(row@)) == data_row_step(old, texts(hs@), line, texts(row@)));
            }
            match data_step(st.positions, st.total, st.reported, &hs, line, row) {
                Err(m) => Err(m),
                Ok((positions, total, reported)) => Ok(Rows { headers: Some(hs), positions, total, reported }),
            }
        },
    }
}

fn fields_chars(fields: &Vec<String>) -> (r: Vec<Vec<char>>)
    ensures
        texts(r@) == fields@.map_values(|f: String| f@),
{
    let mut r: Vec<Vec<char>> = Vec::new();
    let mut i: usize = 0;
    while i < fields.len()
        invariant
            i <= fields@.len(),
            texts(r@) == fields@.subrange(0, i as int).map_values(|f: String| f@),
        decreases fields@.len() - i,
    {
        let ghost before = r@;
        r.push(chars_of(fields[i].as_str()));
        proof {
            assert(fields@.subrange(0, i + 1).map_values(|f: String| f@) =~= fields@.subrange(0, i as int).map_values(|f: String| f@).push(fields@[i as int]@));
            assert(texts(r@) =~= texts(before).push(fields@[i as int]@));
        }
        i = i + 1;
    }
    proof {
        assert(fields@.subrange(0, fields@.len() as int) =~= fields@);
    }
    r
}

fn strip_boms(s: &[char]) -> (r: Vec<char>)
    ensures
        r@ == strip_bom(s@),
{
    let mut i: usize = 0;
    proof {
        assert(s@.subrange(0, s@.len() as int) =~= s@);
    }
    while i < s.len() && s[i] == '\u{feff}'
        invariant
            i <= s@.len(),
            strip_bom(s@) == strip_bom(s@.subrange(i as int, s@.len() as int)),
        decreases s@.len() - i,
    {
        proof {
            assert(s@.subrange(i as int, s@.len() as int).drop_first() =~= s@.subrange(i + 1, s@.len() as int));
        }
        i = i + 1;
    }
    proof {
        if i == 0 {
            assert(s@.subrange(0, s@.len() as int) =~= s@);
        }
    }
    slice_chars(s, i, s.len())
}

fn fail_positions(source_file: &str, message: String) -> (r: LoadError)
    ensures
        r.code@ == "positions_invalid"@,
        r.message@ == source_file@ + ": "@ + message@,
{
    let mut m = source_file.to_owned();
    m.append(": ");
    m.append(message.as_str());
    LoadError::new("positions_invalid", m)
}

pub open spec fn positions_result_matches(content: Seq<char>, source_file: Seq<char>, r: Result<Portfolio, LoadError>) -> bool {
    outcome_matches(positions_outcome(content), source_file, r)
}

/// The portfolio of an accepted outcome, or the `positions_invalid` error
/// naming the file and the reason.
pub open spec fn outcome_matches(outcome: Result<RowsState, Seq<char>>, source_file: Seq<char>, r: Result<Portfolio, LoadError>) -> bool {
    match outcome {
        Ok(st) => r matches Ok(p) && portfolio_view(p) == (PortfolioView {
            positions: st.positions,
            position_count: st.positions.len(),
            total_market_value: st.total,
            source_file,
        }),
        Err(m) => r matches Err(e) && e.code@ == "positions_invalid"@ && e.message@ == source_file + ": "@ + m,
    }
}

/// Parses a positions export into a portfolio: the positions of every data row
/// in order, their count, and their exact signed total, which must equal the
/// export's own total row when present. Any malformed row rejects the file
/// with code `positions_invalid` and a message naming the file and the row.
pub fn parse_positions(content: &str, source_file: &str) -> (r: Result<Portfolio, LoadError>)
    ensures
        positions_result_matches(content@, source_file@, r),
{
    let all = chars_of(content);
    let (a, b) = trim_bounds(all.as_slice());
    if a == b {
        return Err(fail_positions(source_file, "positions file is empty".to_owned()));
    }
    let c = strip_boms(all.as_slice());
    match validate_quotes(c.as_slice()) {
        Err(q) => {
            return Err(fail_positions(source_file, q.text()));
        },
        Ok(_) => {},
    }
    let text = string_of(c.as_slice());
    let read = read_csv(text.as_str());
    positions_from_records(&read, source_file)
}

/// Builds the portfolio from the records read from a positions export (see
/// `parse_positions`): every row in order, then a CSV error if reading
/// stopped at one, then the whole-file checks.
pub fn positions_from_records(read: &CsvRead, source_file: &str) -> (r: Result<Portfolio, LoadError>)
    ensures
        outcome_matches(records_outcome(csv_read_view(*read)), source_file@, r),
{
    let ghost rows = csv_read_view(*read).0;
    let mut st = Rows { headers: None, positions: Vec::new(), total: Dec::zero(), reported: None };
    proof {
        assert(position_views(st.positions@) =~= Seq::<PositionView>::empty());
        assert(rows_view(st) == initial_rows_state());
    }
    let mut k: usize = 0;
    while k < read.rows.len()
        invariant
            k <= read.rows@.len(),
            rows == read.rows@.map_values(|row: CsvRow| csv_row_view(row)),
            fold_rows(rows.subrange(0, k as int)) == Ok::<RowsState, Seq<char>>(rows_view(st)),
            rows_wf(st),
        decreases read.rows@.len() - k,
    {
        let cells = fields_chars(&read.rows[k].fields);
        let line = read.rows[k].line;
        proof {
            lemma_fold_step(rows, k as int);
            assert(rows[k as int] == csv_row_view(read.rows@[k as int]));
        }
        match row_step_exec(st, line, &cells) {
            Err(m) => {
                proof {
                    lemma_fold_stops(rows, k as int + 1);
                }
                return Err(fail_positions(source_file, m));
            },
            Ok(next) => {
                st = next;
            },
        }
        k = k + 1;
    }
    proof {
        assert(rows.subrange(0, rows.len() as int) =~= rows);
    }
    match &read.error {
        Some(e) => {
            let mut m = "malformed CSV: ".to_owned();
            m.append(e.as_str());
            return Err(fail_positions(source_file, m));
        },
        None => {},
    }
    if st.headers.is_none() {
        return Err(fail_positions(source_file, "missing Symbol header".to_owned()));
    }
    if st.positions.len() == 0 {
        return Err(fail_positions(source_file, "no holdings found".to_owned()));
    }
    match st.reported {
        Some(reported) => {
            if !same_value(&reported, &st.total) {
                return Err(fail_positions(source_file, "exported total does not match the sum of holding market values".to_owned()));
            }
        },
        None => {},
    }
    let count = st.positions.len();
    Ok(Portfolio {
        positions: st.positions,
        summary: PortfolioSummary { position_count: count, total_market_value: st.total },
        source_file: source_file.to_owned(),
    })
}

proof fn lemma_fold_step(rows: Seq<(u64, Seq<Seq<char>>)>, k: int)
    requires
        0 <= k < rows.len(),
    ensures
        fold_rows(rows.subrange(0, k + 1)) == (match fold_rows(rows.subrange(0, k)) {
            Err(m) => Err(m),
            Ok(st) => row_step(st, rows[k].0, rows[k].1),
        }),
{
    assert(rows.subrange(0, k + 1).drop_last() =~= rows.subrange(0, k));
    assert(rows.subrange(0, k + 1).last() == rows[k]);
}

/// After a row is rejected, later rows never matter.
proof fn lemma_fold_stops(rows: Seq<(u64, Seq<Seq<char>>)>, i: int)
    requires
        0 <= i <= rows.len(),
        fold_rows(rows.subrange(0, i)) is Err,
    ensures
        fold_rows(rows) == fold_rows(rows.subrange(0, i)),
    decreases rows.len() - i,
{
    if i < rows.len() {
        assert(rows.subrange(0, i + 1).drop_last() =~= rows.subrange(0, i));
        lemma_fold_stops(rows, i + 1);
    } else {
        assert(rows.subrange(0, i) =~= rows);
    }
}


/// The market values of positions, in order.
pub open spec fn market_values_of(ps: Seq<PositionView>) -> Seq<Dec> {
    ps.map_values(|p: PositionView| p.market_value)
}

/// What every accepted holding satisfies: a non-empty symbol that no other
/// holding has, and a quantity and a price unless it is cash.
pub open spec fn holdings_ok(ps: Seq<PositionView>) -> bool {
    &&& forall|i: int| 0 <= i < ps.len() ==> (#[trigger] ps[i]).symbol.len() > 0
    &&& forall|i: int, j: int| 0 <= i < ps.len() && 0 <= j < ps.len() && i != j ==> (#[trigger] ps[i]).symbol != (#[trigger] ps[j]).symbol
    &&& forall|i: int| 0 <= i < ps.len() && !is_cash_symbol((#[trigger] ps[i]).symbol) ==> ps[i].quantity is Some && ps[i].price is Some
}

/// The reading state keeps its total equal to the checked sum of the
/// holdings' market values, in order.
pub open spec fn rows_inv(st: RowsState) -> bool {
    &&& sum_spec(market_values_of(st.positions)) == Some(st.total)
    &&& holdings_ok(st.positions)
}

proof fn lemma_row_step_keeps(st: RowsState, line: u64, row: Seq<Seq<char>>)
    requires
        rows_inv(st),
        row_step(st, line, row) is Ok,
    ensures
        rows_inv(row_step(st, line, row)->Ok_0),
{
    reveal(data_row_step);
    let next = row_step(st, line, row)->Ok_0;
    if next.positions != st.positions {
        let ps = st.positions;
        let q = next.positions;
        let p = q.last();
        assert(q == ps.push(p));
        assert(market_values_of(q).drop_last() =~= market_values_of(ps));
        assert(market_values_of(q).last() == p.market_value);
        assert(!has_symbol(ps, p.symbol));
        assert forall|i: int, j: int| 0 <= i < q.len() && 0 <= j < q.len() && i != j implies (#[trigger] q[i]).symbol != (#[trigger] q[j]).symbol by {
            if i < ps.len() && j < ps.len() {
                assert(q[i] == ps[i] && q[j] == ps[j]);
            } else if i < ps.len() {
                assert(q[i] == ps[i]);
            } else {
                assert(q[j] == ps[j]);
            }
        }
        assert forall|i: int| 0 <= i < q.len() implies (#[trigger] q[i]).symbol.len() > 0
            && (!is_cash_symbol(q[i].symbol) ==> q[i].quantity is Some && q[i].price is Some) by {
            if i < ps.len() {
                assert(q[i] == ps[i]);
            }
        }
    }
}

proof fn lemma_fold_keeps(rows: Seq<(u64, Seq<Seq<char>>)>)
    requires
        fold_rows(rows) is Ok,
    ensures
        rows_inv(fold_rows(rows)->Ok_0),
    decreases rows.len(),
{
    if rows.len() == 0 {
        assert(market_values_of(Seq::<PositionView>::empty()) =~= Seq::<Dec>::empty());
    } else {
        lemma_fold_keeps(rows.drop_last());
        lemma_row_step_keeps(fold_rows(rows.drop_last())->Ok_0, rows.last().0, rows.last().1);
    }
}

/// Law: an accepted export has at least one holding; its count is the
/// number of holdings; its total is the checked sum of their market values
/// in file order (so it is exact whenever no partial sum overflows); the
/// symbols are non-empty and distinct; every holding but cash has a quantity
/// and a price; and the portfolio names the file it was read from.
pub proof fn lemma_accepted_export(content: Seq<char>, source_file: Seq<char>, p: Portfolio)
    requires
        positions_result_matches(content, source_file, Ok(p)),
    ensures
        portfolio_view(p).positions.len() >= 1,
        portfolio_view(p).position_count == portfolio_view(p).positions.len(),
        sum_spec(market_values_of(portfolio_view(p).positions)) == Some(portfolio_view(p).total_market_value),
        holdings_ok(portfolio_view(p).positions),
        portfolio_view(p).source_file == source_file,
{
    let c = strip_bom(content);
    let rows = csv_records(c).0;
    lemma_fold_keeps(rows);
}

/// Law: a row accepted as a holding adds one position after the earlier
/// ones, built from the row's own cells: its symbol is the first cell, its
/// quantity, price, market value and cost basis are the values of the cells
/// under the Qty, Price, Mkt Val and Cost Basis columns, and its description
/// and asset type the texts under theirs; the running total grows by exactly
/// that market value.
pub proof fn lemma_holding_from_its_cells(st: RowsState, hs: Seq<Seq<char>>, line: u64, row: Seq<Seq<char>>)
    requires
        data_row_step(st, hs, line, row) is Ok,
        data_row_step(st, hs, line, row)->Ok_0.positions.len() == st.positions.len() + 1,
    ensures
        ({
            let next = data_row_step(st, hs, line, row)->Ok_0;
            let p = next.positions.last();
            &&& next.positions.drop_last() == st.positions
            &&& p.symbol == first_cell(row)
            &&& number_spec(cell_text(hs, row, "Qty"@)) == Ok::<Option<Dec>, NumberError>(p.quantity)
            &&& number_spec(cell_text(hs, row, "Price"@)) == Ok::<Option<Dec>, NumberError>(p.price)
            &&& number_spec(cell_text(hs, row, "Mkt Val"@)) == Ok::<Option<Dec>, NumberError>(Some(p.market_value))
            &&& number_spec(cell_text(hs, row, "Cost Basis"@)) == Ok::<Option<Dec>, NumberError>(p.cost_basis)
            &&& p.description == cell_text(hs, row, "Description"@)
            &&& p.asset_type == cell_text(hs, row, "Asset Type"@)
            &&& decimal_add(st.total, p.market_value) == Some(next.total)
        }),
{
    reveal(data_row_step);
    let next = data_row_step(st, hs, line, row)->Ok_0;
    assert(next.positions.drop_last() =~= st.positions);
}

/// A holding built from a row's cells under the header `hs` (see
/// `lemma_holding_from_its_cells`).
pub open spec fn holding_of_row(hs: Seq<Seq<char>>, row: Seq<Seq<char>>, p: PositionView) -> bool {
    &&& p.symbol == first_cell(row)
    &&& number_spec(cell_text(hs, row, "Qty"@)) == Ok::<Option<Dec>, NumberError>(p.quantity)
    &&& number_spec(cell_text(hs, row, "Price"@)) == Ok::<Option<Dec>, NumberError>(p.price)
    &&& number_spec(cell_text(hs, row, "Mkt Val"@)) == Ok::<Option<Dec>, NumberError>(Some(p.market_value))
    &&& number_spec(cell_text(hs, row, "Cost Basis"@)) == Ok::<Option<Dec>, NumberError>(p.cost_basis)
    &&& p.description == cell_text(hs, row, "Description"@)
    &&& p.asset_type == cell_text(hs, row, "Asset Type"@)
}

proof fn lemma_row_step_shape(st: RowsState, line: u64, row: Seq<Seq<char>>)
    requires
        row_step(st, line, row) is Ok,
    ensures
        ({
            let next = row_step(st, line, row)->Ok_0;
            &&& st.headers is Some ==> next.headers == st.headers
            &&& st.headers is None ==> next.positions == st.positions
            &&& next.positions == st.positions || (st.headers is Some
                && next.positions.len() == st.positions.len() + 1
                && next.positions.drop_last() == st.positions
                && holding_of_row(st.headers->0, row, next.positions.last()))
        }),
{
    reveal(data_row_step);
    if st.headers is Some {
        let next = row_step(st, line, row)->Ok_0;
        if next.positions != st.positions {
            lemma_holding_from_its_cells(st, st.headers->0, line, row);
        }
    }
}

/// `p` is built from one of the `rows` under the header `hs`.
pub open spec fn from_some_row(hs: Seq<Seq<char>>, rows: Seq<(u64, Seq<Seq<char>>)>, p: PositionView) -> bool {
    exists|j: int| 0 <= j < rows.len() && #[trigger] holding_of_row(hs, rows[j].1, p)
}

proof fn lemma_fold_sources(rows: Seq<(u64, Seq<Seq<char>>)>)
    requires
        fold_rows(rows) is Ok,
    ensures
        ({
            let st = fold_rows(rows)->Ok_0;
            &&& st.positions.len() > 0 ==> st.headers is Some
            &&& forall|i: int| 0 <= i < st.positions.len() ==> #[trigger] from_some_row(st.headers->0, rows, st.positions[i])
        }),
    decreases rows.len(),
{
    if rows.len() > 0 {
        let before = rows.drop_last();
        lemma_fold_sources(before);
        let st0 = fold_rows(before)->Ok_0;
        let n = rows.len() - 1;
        assert(rows.last() == rows[n]);
        lemma_row_step_shape(st0, rows[n].0, rows[n].1);
        let st = fold_rows(rows)->Ok_0;
        assert forall|i: int| 0 <= i < st.positions.len() implies #[trigger] from_some_row(st.headers->0, rows, st.positions[i]) by {
            if i < st0.positions.len() {
                assert(st.positions[i] == st0.positions[i]);
                assert(from_some_row(st0.headers->0, before, st0.positions[i]));
                let j = choose|j: int| 0 <= j < before.len() && #[trigger] holding_of_row(st0.headers->0, before[j].1, st0.positions[i]);
                assert(before[j] == rows[j]);
                assert(holding_of_row(st.headers->0, rows[j].1, st.positions[i]));
            } else {
                assert(holding_of_row(st.headers->0, rows[n].1, st.positions[i]));
            }
        }
    }
}

/// Every one of the positions is built from one of the `rows` under `hs`.
pub open spec fn all_from_rows(hs: Seq<Seq<char>>, rows: Seq<(u64, Seq<Seq<char>>)>, ps: Seq<PositionView>) -> bool {
    forall|i: int| 0 <= i < ps.len() ==> #[trigger] from_some_row(hs, rows, ps[i])
}

/// Law: every holding of an accepted export is built from one record of the
/// file, read under the file's header row: its symbol from the first cell and
/// each value from the cell under its own column (Qty, Price, Mkt Val, Cost
/// Basis, Description, Asset Type).
pub proof fn lemma_export_holdings_from_records(content: Seq<char>, source_file: Seq<char>, p: Portfolio)
    requires
        positions_result_matches(content, source_file, Ok(p)),
    ensures
        exists|hs: Seq<Seq<char>>| #[trigger] all_from_rows(hs, csv_records(strip_bom(content)).0, portfolio_view(p).positions),
{
    let rows = csv_records(strip_bom(content)).0;
    lemma_fold_sources(rows);
    let st = fold_rows(rows)->Ok_0;
    let hs = st.headers->0;
    assert(portfolio_view(p).positions == st.positions);
    assert(all_from_rows(hs, rows, portfolio_view(p).positions));
}

/// Law: after the header, every accepted row is blank and changes nothing,
/// or is the exported total row and records the value under its Mkt Val
/// column (holdings unchanged), or is a holding and adds exactly one
/// position; no holding row is skipped.
pub proof fn lemma_rows_after_header(st: RowsState, hs: Seq<Seq<char>>, line: u64, row: Seq<Seq<char>>)
    requires
        data_row_step(st, hs, line, row) is Ok,
    ensures
        ({
            let next = data_row_step(st, hs, line, row)->Ok_0;
            let first = first_cell(row);
            let total_row = contains_text(first, "Positions Total"@) || contains_text(first, "Account Total"@);
            &&& blank_row(row) ==> next == st
            &&& !blank_row(row) && total_row ==> (next.positions == st.positions && next.total == st.total
                && (number_spec(cell_text(hs, row, "Mkt Val"@)) matches Ok(v)
                && next.reported == (if v is Some { v } else { st.reported })))
            &&& !blank_row(row) && !total_row ==> next.positions.len() == st.positions.len() + 1
        }),
{
    reveal(data_row_step);
}

} // verus!
