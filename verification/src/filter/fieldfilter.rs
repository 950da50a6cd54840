//! A predicate on one field: a field name, an operator and a right-hand side.
//!
//! An expression is written `NAME OP RHS`, with white space on both sides of
//! the operator: `NAME` is a run of word characters, `OP` is one of `=`,
//! `!=`, `~`, `!~`, `<`, `>`, and `RHS` goes to the end of the expression.
//! The expression is searched from the left for the first place where it can
//! be read so.

use vstd::prelude::*;
use vstd::string::*;
use crate::error::{ErrorView, RbfError};
use crate::pattern::{is_valid_pattern, regex_compiles};
use crate::text::{is_whitespace, is_word, slice, str_eq, to_chars, trim, trimmed, white_space, word_char};

verus! {

#[derive(Debug, Clone, Copy, PartialEq, Eq, Structural)]
pub enum FieldFilterOp {
    OpEqual,
    OpNotEqual,
    OpSimilar,
    OpNotSimilar,
    OpLessThan,
    OpGreaterThan,
}

impl FieldFilterOp {
    /// The operator that `text` writes, if it writes one.
    pub open spec fn denoted(text: Seq<char>) -> Option<FieldFilterOp> {
        if text == "="@ {
            Some(FieldFilterOp::OpEqual)
        } else if text == "!="@ {
            Some(FieldFilterOp::OpNotEqual)
        } else if text == "~"@ {
            Some(FieldFilterOp::OpSimilar)
        } else if text == "!~"@ {
            Some(FieldFilterOp::OpNotSimilar)
        } else if text == "<"@ {
            Some(FieldFilterOp::OpLessThan)
        } else if text == ">"@ {
            Some(FieldFilterOp::OpGreaterThan)
        } else {
            None
        }
    }

    /// Whether the right-hand side of the operator is a regular expression.
    pub open spec fn takes_pattern(self) -> bool {
        self == FieldFilterOp::OpSimilar || self == FieldFilterOp::OpNotSimilar
    }

    /// Reads an operator; `None` for any other text.
    pub fn from(op: &str) -> (r: Option<FieldFilterOp>)
        ensures
            r == FieldFilterOp::denoted(op@),
    {
        if str_eq(op, "=") {
            Some(FieldFilterOp::OpEqual)
        } else if str_eq(op, "!=") {
            Some(FieldFilterOp::OpNotEqual)
        } else if str_eq(op, "~") {
            Some(FieldFilterOp::OpSimilar)
        } else if str_eq(op, "!~") {
            Some(FieldFilterOp::OpNotSimilar)
        } else if str_eq(op, "<") {
            Some(FieldFilterOp::OpLessThan)
        } else if str_eq(op, ">") {
            Some(FieldFilterOp::OpGreaterThan)
        } else {
            None
        }
    }
}

#[derive(Debug)]
pub struct FieldFilter {
    /// field name
    pub fname: String,
    /// operator as a string
    pub op_string: String,
    /// operator as an enum variant
    pub op: FieldFilterOp,
    /// regex to match, or value to compare with
    pub freg_or_value: String,
}

/// The mathematical content of a field filter.
pub struct FieldFilterView {
    pub fname: Seq<char>,
    pub op_string: Seq<char>,
    pub op: FieldFilterOp,
    pub freg_or_value: Seq<char>,
}

impl View for FieldFilter {
    type V = FieldFilterView;

    open spec fn view(&self) -> FieldFilterView {
        FieldFilterView {
            fname: self.fname@,
            op_string: self.op_string@,
            op: self.op,
            freg_or_value: self.freg_or_value@,
        }
    }
}

/// The three parts of an expression, as they stand in it.
pub struct Reading {
    pub name: Seq<char>,
    pub symbol: Seq<char>,
    pub rest: Seq<char>,
}

/// Where the run of word characters (`word`) or of white space (otherwise)
/// that starts at `i` ends.
pub open spec fn run_end(e: Seq<char>, i: int, word: bool) -> int
    decreases e.len() - i,
{
    if 0 <= i < e.len() && (if word {
        word_char(e[i])
    } else {
        white_space(e[i])
    }) {
        run_end(e, i + 1, word)
    } else {
        i
    }
}

/// The length of the operator that stands at `k`; zero if none stands there.
pub open spec fn symbol_length(e: Seq<char>, k: int) -> nat {
    if 0 <= k < e.len() && (e[k] == '=' || e[k] == '~' || e[k] == '<' || e[k] == '>') {
        1
    } else if 0 <= k && k + 1 < e.len() && e[k] == '!' && (e[k + 1] == '=' || e[k + 1] == '~') {
        2
    } else {
        0
    }
}

/// Whether a right-hand side follows `m`: white space up to some place `s`,
/// then one character at least and no line feed up to the end.
pub open spec fn has_rhs(e: Seq<char>, m: int) -> bool {
    exists|s: int| #[trigger] rhs_starts(e, m, s)
}

/// Whether the right-hand side that follows `m` can start at `s`.
pub open spec fn rhs_starts(e: Seq<char>, m: int, s: int) -> bool {
    &&& m < s < e.len()
    &&& forall|x: int| m <= x < s ==> white_space(#[trigger] e[x])
    &&& forall|x: int| s <= x < e.len() ==> #[trigger] e[x] != '\n'
}

/// The expression read with its name starting at `i`, if it can be read so.
pub open spec fn reading_at(e: Seq<char>, i: int) -> Option<Reading> {
    let j = run_end(e, i, true);
    let k = run_end(e, j, false);
    let m = k + symbol_length(e, k);
    if i < j && j < k && k < m && has_rhs(e, m) {
        Some(Reading { name: e.subrange(i, j), symbol: e.subrange(k, m), rest: e.skip(m) })
    } else {
        None
    }
}

/// The first reading of the expression, looking from `i` on.
pub open spec fn first_reading(e: Seq<char>, i: int) -> Option<Reading>
    decreases e.len() - i,
{
    if i < 0 || i >= e.len() {
        None
    } else if reading_at(e, i) is Some {
        reading_at(e, i)
    } else {
        first_reading(e, i + 1)
    }
}

impl FieldFilterView {
    /// The filter made of the three parts, each without the white space
    /// around it. The operator must be one of the six, and the right-hand
    /// side of `~` and `!~` a regular expression.
    pub open spec fn made(fname: Seq<char>, op_str: Seq<char>, fvalue: Seq<char>) -> Result<
        FieldFilterView,
        ErrorView,
    > {
        let symbol = trimmed(op_str);
        let value = trimmed(fvalue);
        match FieldFilterOp::denoted(symbol) {
            None => Err(ErrorView::InvalidFilter(symbol)),
            Some(op) => if op.takes_pattern() && !regex_compiles(value) {
                Err(ErrorView::InvalidFilter(value))
            } else {
                Ok(
                    FieldFilterView {
                        fname: trimmed(fname),
                        op_string: symbol,
                        op,
                        freg_or_value: value,
                    },
                )
            },
        }
    }

    /// The filter that the expression writes.
    pub open spec fn parsed(expr: Seq<char>) -> Result<FieldFilterView, ErrorView> {
        match first_reading(expr, 0) {
            Some(r) => FieldFilterView::made(r.name, r.symbol, r.rest),
            None => Err(ErrorView::InvalidFilter(expr)),
        }
    }
}

/// The view of a filter or of the error in its place.
pub open spec fn filter_result(r: Result<FieldFilter, RbfError>) -> Result<
    FieldFilterView,
    ErrorView,
> {
    match r {
        Ok(f) => Ok(f@),
        Err(e) => Err(e@),
    }
}

/// A run ends within the text; it holds characters of its class only, and
/// the character after it is of another class.
pub proof fn lemma_run_end(e: Seq<char>, i: int, word: bool)
    requires
        0 <= i <= e.len(),
    ensures
        i <= run_end(e, i, word) <= e.len(),
        forall|x: int|
            i <= x < run_end(e, i, word) ==> if word {
                word_char(#[trigger] e[x])
            } else {
                white_space(#[trigger] e[x])
            },
        run_end(e, i, word) < e.len() ==> !(if word {
            word_char(e[run_end(e, i, word)])
        } else {
            white_space(e[run_end(e, i, word)])
        }),
    decreases e.len() - i,
{
    if i < e.len() && (if word {
        word_char(e[i])
    } else {
        white_space(e[i])
    }) {
        lemma_run_end(e, i + 1, word);
    }
}

/// Finds where the run that starts at `i` ends.
fn find_run_end(v: &Vec<char>, i: usize, word: bool) -> (j: usize)
    requires
        i <= v.len(),
    ensures
        j == run_end(v@, i as int, word),
        i <= j <= v.len(),
{
    let mut j: usize = i;
    while j < v.len()
        invariant
            i <= j <= v.len(),
            run_end(v@, i as int, word) == run_end(v@, j as int, word),
        decreases v.len() - j,
    {
        let inside = if word {
            is_word(v[j])
        } else {
            is_whitespace(v[j])
        };
        if !inside {
            return j;
        }
        j += 1;
    }
    j
}

/// Measures the operator that stands at `k`.
fn find_symbol_length(v: &Vec<char>, k: usize) -> (n: usize)
    requires
        k <= v.len(),
    ensures
        n == symbol_length(v@, k as int),
        k + n <= v.len(),
{
    if k < v.len() && (v[k] == '=' || v[k] == '~' || v[k] == '<' || v[k] == '>') {
        1
    } else if k < v.len() && v.len() - k > 1 && v[k] == '!' && (v[k + 1] == '=' || v[k + 1]
        == '~') {
        2
    } else {
        0
    }
}

/// Tests whether a right-hand side follows `m`.
fn find_rhs(v: &Vec<char>, m: usize) -> (b: bool)
    requires
        m <= v.len(),
    ensures
        b == has_rhs(v@, m as int),
{
    if m >= v.len() {
        assert forall|s: int| !#[trigger] rhs_starts(v@, m as int, s) by {}
        return false;
    }
    let t = find_run_end(v, m, false);
    // the place after the last line feed, or after `m` if there is none
    let mut lo: usize = m + 1;
    let mut x: usize = m;
    while x < v.len()
        invariant
            m <= x <= v.len(),
            m < lo <= x + 1,
            lo <= v.len(),
            forall|y: int| lo <= y < x ==> #[trigger] v@[y] != '\n',
            lo > m + 1 ==> v@[lo - 1] == '\n',
        decreases v.len() - x,
    {
        if v[x] == '\n' {
            lo = x + 1;
        }
        x += 1;
    }
    let b = lo <= t && lo < v.len();
    proof {
        lemma_run_end(v@, m as int, false);
        if b {
            assert(rhs_starts(v@, m as int, lo as int));
        } else {
            assert forall|s: int| !#[trigger] rhs_starts(v@, m as int, s) by {
                if rhs_starts(v@, m as int, s) {
                    if s > t {
                        assert(white_space(v@[t as int]));
                        assert(false);
                    }
                    if lo > s {
                        assert(v@[lo - 1] == '\n');
                        assert(false);
                    }
                    assert(lo <= t && lo < v.len());
                }
            }
        }
    }
    b
}

impl FieldFilter {
    /// Creates a new field filter from a field name, an operator and a
    /// right-hand side, each taken without the white space around it.
    pub fn new(fname: &str, op_str: &str, fvalue: &str) -> (r: Result<FieldFilter, RbfError>)
        ensures
            filter_result(r) == FieldFilterView::made(fname@, op_str@, fvalue@),
    {
        let symbol = trim(op_str);
        let value = trim(fvalue);
        match FieldFilterOp::from(symbol) {
            None => Err(RbfError::InvalidFilter(symbol.to_owned())),
            Some(op) => {
                let takes_pattern = match op {
                    FieldFilterOp::OpSimilar => true,
                    FieldFilterOp::OpNotSimilar => true,
                    _ => false,
                };
                if takes_pattern && !is_valid_pattern(value) {
                    Err(RbfError::InvalidFilter(value.to_owned()))
                } else {
                    Ok(
                        FieldFilter {
                            fname: trim(fname).to_owned(),
                            op_string: symbol.to_owned(),
                            op,
                            freg_or_value: value.to_owned(),
                        },
                    )
                }
            },
        }
    }

    /// Reads a filter from an expression such as `FIELD1 != FOO`.
    pub fn from(expr: &str) -> (r: Result<FieldFilter, RbfError>)
        ensures
            filter_result(r) == FieldFilterView::parsed(expr@),
    {
        let v = to_chars(expr);
        let mut i: usize = 0;
        while i < v.len()
            invariant
                i <= v.len(),
                v@ == expr@,
                first_reading(expr@, 0) == first_reading(expr@, i as int),
            decreases v.len() - i,
        {
            let j = find_run_end(&v, i, true);
            if i < j {
                let k = find_run_end(&v, j, false);
                if j < k {
                    let n = find_symbol_length(&v, k);
                    if n > 0 && find_rhs(&v, k + n) {
                        let name = slice(expr, i, j, false);
                        let symbol = slice(expr, k, k + n, false);
                        let rest = slice(expr, k + n, v.len(), false);
                        return FieldFilter::new(name, symbol, rest);
                    }
                }
            }
            i += 1;
        }
        Err(RbfError::InvalidFilter(expr.to_owned()))
    }

    /// The filter written without blanks, as `NAME` `OP` `RHS`.
    pub fn to_string(&self) -> (r: String)
        ensures
            r@ == self@.fname + self@.op_string + self@.freg_or_value,
    {
        let mut s = self.fname.clone();
        s.append(self.op_string.as_str());
        s.append(self.freg_or_value.as_str());
        s
    }
}

} // verus!
