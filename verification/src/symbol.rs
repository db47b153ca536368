//! Small shared identity: an ordinary stock symbol in canonical form.
use crate::text::{chars_of, is_ascii_upper, is_ws, lemma_trim_end, lemma_trim_start, string_of, trim, trim_chars, upper_chars, upper_seq};
use vstd::prelude::*;

verus! {

pub open spec fn is_sep(c: char) -> bool {
    c == '.' || c == '-'
}

/// An ordinary stock symbol: 1 to 16 ASCII capitals, optionally split once by
/// a dot or dash share-class separator with letters on both sides.
pub open spec fn valid_symbol(v: Seq<char>) -> bool {
    &&& 0 < v.len() <= 16
    &&& forall|i: int| 0 <= i < v.len() ==> is_ascii_upper(#[trigger] v[i]) || is_sep(v[i])
    &&& !is_sep(v[0])
    &&& !is_sep(v[v.len() - 1])
    &&& forall|i: int, j: int| 0 <= i < j < v.len() && #[trigger] is_sep(v[i]) ==> !#[trigger] is_sep(v[j])
}

/// Surrounding whitespace removed, ASCII letters upper-cased.
pub open spec fn normalize_symbol(raw: Seq<char>) -> Seq<char> {
    upper_seq(trim(raw))
}

pub open spec fn symbol_error_text() -> Seq<char> {
    "Expected an ordinary stock symbol (letters, optionally a dot or dash share class)."@
}

#[derive(Debug, PartialEq, Eq, Hash)]
pub struct StockSymbol(String);

impl View for StockSymbol {
    type V = Seq<char>;

    closed spec fn view(&self) -> Seq<char> {
        self.0@
    }
}

impl StockSymbol {
    #[verifier::type_invariant]
    closed spec fn inv(self) -> bool {
        valid_symbol(self.0@)
    }

    /// Normalizes (trim, ASCII upper-case) and accepts only ordinary stock symbols.
    /// No aliasing: the symbol is exactly the normalized text.
    pub fn parse(value: &str) -> (r: Result<StockSymbol, String>)
        ensures
            match r {
                Ok(s) => valid_symbol(normalize_symbol(value@)) && s@ == normalize_symbol(value@),
                Err(e) => !valid_symbol(normalize_symbol(value@)) && e@ == symbol_error_text(),
            },
    {
        let raw = chars_of(value);
        let trimmed = trim_chars(raw.as_slice());
        let v = upper_chars(trimmed.as_slice());
        let n = v.len();
        let mut ok = n > 0 && n <= 16 && v[0] != '.' && v[0] != '-' && v[n - 1] != '.' && v[n - 1] != '-';
        let mut seen_sep = false;
        let mut k: usize = 0;
        while k < n
            invariant
                n == v@.len(),
                k <= n,
                ok ==> forall|i: int| 0 <= i < k ==> is_ascii_upper(#[trigger] v@[i]) || is_sep(v@[i]),
                ok ==> (seen_sep <==> exists|i: int| 0 <= i < k && #[trigger] is_sep(v@[i])),
                ok ==> forall|i: int, j: int| 0 <= i < j < k && #[trigger] is_sep(v@[i]) ==> !#[trigger] is_sep(v@[j]),
                !ok ==> !valid_symbol(v@),
                ok ==> 0 < n <= 16 && !is_sep(v@[0]) && !is_sep(v@[n - 1]),
            decreases n - k,
        {
            let c = v[k];
            if c == '.' || c == '-' {
                if seen_sep {
                    proof {
                        if ok {
                            let i = choose|i: int| 0 <= i < k && #[trigger] is_sep(v@[i]);
                            assert(is_sep(v@[i]) && is_sep(v@[k as int]));
                        }
                    }
                    ok = false;
                }
                seen_sep = true;
            } else if !('A' <= c && c <= 'Z') {
                ok = false;
            }
            k = k + 1;
        }
        if ok {
            proof {
                assert(v@ == normalize_symbol(value@));
            }
            Ok(StockSymbol(string_of(v.as_slice())))
        } else {
            Err("Expected an ordinary stock symbol (letters, optionally a dot or dash share class).".to_owned())
        }
    }

    pub fn as_str(&self) -> (r: &str)
        ensures
            r@ == self@,
            valid_symbol(self@),
    {
        proof {
            use_type_invariant(self);
        }
        self.0.as_str()
    }

    /// The symbol's text, for display.
    pub fn to_string(&self) -> (r: String)
        ensures
            r@ == self@,
    {
        self.0.clone()
    }

    /// Symbol identity: equal text.
    pub fn same(&self, other: &StockSymbol) -> (r: bool)
        ensures
            r == (self@ == other@),
    {
        self.0 == other.0
    }
}

impl Clone for StockSymbol {
    fn clone(&self) -> (r: Self)
        ensures
            r@ == self@,
    {
        proof {
            use_type_invariant(self);
        }
        StockSymbol(self.0.clone())
    }
}

/// A valid symbol is its own normal form, so re-parsing a symbol's text
/// yields the same symbol.
pub proof fn lemma_symbol_reparse(s: Seq<char>)
    requires
        valid_symbol(s),
    ensures
        normalize_symbol(s) == s,
{
    assert(!is_ws(s[0]));
    assert(!is_ws(s[s.len() - 1]));
    lemma_trim_start(s, 0);
    assert(s.subrange(0, s.len() as int) =~= s);
    lemma_trim_end(s, s.len() as int);
    assert(upper_seq(s) =~= s);
}

/// Round trip: whenever `parse` accepts a text, it accepts the parsed
/// symbol's own text and gives back the same symbol.
pub proof fn lemma_parse_round_trip(value: Seq<char>)
    requires
        valid_symbol(normalize_symbol(value)),
    ensures
        valid_symbol(normalize_symbol(normalize_symbol(value))),
        normalize_symbol(normalize_symbol(value)) == normalize_symbol(value),
{
    lemma_symbol_reparse(normalize_symbol(value));
}

} // verus!
