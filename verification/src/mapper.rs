//! Maps each line of a file to the name of the record that describes it.

use vstd::prelude::*;
use vstd::string::*;
use crate::number::{digits_number, parse_digits};
use crate::text::{clipped, is_digit, slice, str_eq, to_chars, trim, trimmed, width};

verus! {

/// The ways to tell the record name from a line.
#[derive(Debug)]
pub enum RecordHasher {
    /// The line itself is the name.
    Identity,
    /// Every line belongs to the one record of this name.
    Constant(String),
    /// The name stands in the line from the first position up to, and
    /// without, the second; positions are counted from zero, in codepoints,
    /// which in ASCII lines are bytes.
    Range(usize, usize),
}

#[derive(Debug)]
pub struct RecordMapper {
    pub func: RecordHasher,
}

/// The mathematical content of a mapper.
pub enum MapperView {
    Identity,
    Constant(Seq<char>),
    Range(nat, nat),
}

impl View for RecordMapper {
    type V = MapperView;

    open spec fn view(&self) -> MapperView {
        match self.func {
            RecordHasher::Identity => MapperView::Identity,
            RecordHasher::Constant(k) => MapperView::Constant(k@),
            RecordHasher::Range(a, b) => MapperView::Range(a as nat, b as nat),
        }
    }
}

/// Where the run of ASCII digits that starts at `i` ends.
pub open spec fn digits_end(s: Seq<char>, i: int) -> int
    decreases s.len() - i,
{
    if 0 <= i < s.len() && is_digit(s[i]) {
        digits_end(s, i + 1)
    } else {
        i
    }
}

/// The bounds that `domain` writes as `a..b`, white space around it set aside.
pub open spec fn parsed_range(domain: Seq<char>) -> Option<(usize, usize)> {
    let s = trimmed(domain);
    let j = digits_end(s, 0);
    if j + 2 <= s.len() && s[j] == '.' && s[j + 1] == '.' {
        match (
            digits_number(s.subrange(0, j), usize::MAX as nat),
            digits_number(s.subrange(j + 2, s.len() as int), usize::MAX as nat),
        ) {
            (Some(a), Some(b)) => Some((a as usize, b as usize)),
            _ => None,
        }
    } else {
        None
    }
}

impl MapperView {
    /// The mapper that a layout configures with a type and a domain: a
    /// `constant` mapper gives the domain for every line, a `range` mapper
    /// cuts the range that the domain writes out of each line.
    pub open spec fn configured(mtype: Seq<char>, domain: Seq<char>) -> Option<MapperView> {
        if mtype == "constant"@ {
            Some(MapperView::Constant(domain))
        } else if mtype == "range"@ {
            match parsed_range(domain) {
                Some(r) => Some(MapperView::Range(r.0 as nat, r.1 as nat)),
                None => None,
            }
        } else {
            None
        }
    }

    /// The record name of `line`. A range is clipped to the line, so that
    /// every line has a name.
    pub open spec fn map(self, line: Seq<char>) -> Seq<char> {
        match self {
            MapperView::Identity => line,
            MapperView::Constant(k) => k,
            MapperView::Range(a, b) => clipped(line, a, b),
        }
    }
}

/// Default closure is the identity function
impl Default for RecordMapper {
    fn default() -> (r: RecordMapper)
        ensures
            r@ == MapperView::Identity,
    {
        RecordMapper { func: RecordHasher::Identity }
    }
}

/// Reads the bounds of a range.
pub fn parse_range(domain: &str) -> (r: Option<(usize, usize)>)
    ensures
        r == parsed_range(domain@),
{
    let v = to_chars(trim(domain));
    let mut j: usize = 0;
    while j < v.len() && v[j] >= '0' && v[j] <= '9'
        invariant
            j <= v.len(),
            digits_end(v@, 0) == digits_end(v@, j as int),
        decreases v.len() - j,
    {
        j += 1;
    }
    if v.len() - j < 2 || v[j] != '.' || v[j + 1] != '.' {
        return None;
    }
    let a = parse_digits(&v, 0, j, usize::MAX as u64);
    let b = parse_digits(&v, j + 2, v.len(), usize::MAX as u64);
    match (a, b) {
        (Some(a), Some(b)) => Some((a as usize, b as usize)),
        _ => None,
    }
}

impl RecordMapper {
    /// Builds the mapper of type `mtype` (`constant` or `range`) on `domain`;
    /// `None` for another type or for a domain that writes no range.
    pub fn new(mtype: &str, domain: &str) -> (r: Option<RecordMapper>)
        ensures
            match r {
                Some(m) => MapperView::configured(mtype@, domain@) == Some(m@),
                None => MapperView::configured(mtype@, domain@) is None,
            },
    {
        if str_eq(mtype, "constant") {
            Some(RecordMapper { func: RecordHasher::Constant(domain.to_owned()) })
        } else if str_eq(mtype, "range") {
            match parse_range(domain) {
                Some(r) => Some(RecordMapper { func: RecordHasher::Range(r.0, r.1) }),
                None => None,
            }
        } else {
            None
        }
    }

    /// The record name of `line`.
    pub fn call(&self, line: &str) -> (r: String)
        ensures
            r@ == self@.map(line@),
    {
        match &self.func {
            RecordHasher::Identity => line.to_owned(),
            RecordHasher::Constant(k) => k.clone(),
            RecordHasher::Range(a, b) => {
                let ascii = line.is_ascii();
                let w = width(line, ascii);
                let hi = if *b < w {
                    *b
                } else {
                    w
                };
                let lo = if *a < hi {
                    *a
                } else {
                    hi
                };
                slice(line, lo, hi, ascii).to_owned()
            },
        }
    }
}

} // verus!
