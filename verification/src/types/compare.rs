//! Comparison of values that are given as text: both operands are read as
//! numbers of one kind and the numbers are compared.

use std::marker::PhantomData;
use vstd::prelude::*;
use crate::error::{ErrorView, RbfError};

verus! {

/// Ten to the power `n`.
pub open spec fn pow10(n: nat) -> nat
    decreases n,
{
    if n == 0 {
        1
    } else {
        10 * pow10((n - 1) as nat)
    }
}

/// A decimal number: `units` divided by ten to the power `scale`.
pub struct Numeral {
    pub units: int,
    pub scale: nat,
}

impl Numeral {
    /// The larger of the two scales.
    pub open spec fn common_scale(self, other: Numeral) -> nat {
        if self.scale < other.scale {
            other.scale
        } else {
            self.scale
        }
    }

    /// The units of this number once it is written with `scale` decimals.
    pub open spec fn units_at(self, scale: nat) -> int {
        self.units * pow10((scale - self.scale) as nat)
    }

    /// Whether this number is smaller than `other`.
    pub open spec fn less(self, other: Numeral) -> bool {
        self.units_at(self.common_scale(other)) < other.units_at(self.common_scale(other))
    }

    /// Whether this number equals `other`.
    pub open spec fn same(self, other: Numeral) -> bool {
        self.units_at(self.common_scale(other)) == other.units_at(self.common_scale(other))
    }
}

/// The relations that a comparison can test.
#[derive(Debug, Clone, Copy, PartialEq, Eq, Structural)]
pub enum Relation {
    Equal,
    Less,
    Greater,
}

impl Relation {
    /// Whether the relation holds from `lhs` to `rhs`.
    pub open spec fn holds(self, lhs: Numeral, rhs: Numeral) -> bool {
        match self {
            Relation::Equal => lhs.same(rhs),
            Relation::Less => lhs.less(rhs),
            Relation::Greater => rhs.less(lhs),
        }
    }
}

/// Numbers without decimals compare as their units do.
pub proof fn lemma_whole_numbers(a: int, b: int)
    ensures
        (Numeral { units: a, scale: 0 }).less(Numeral { units: b, scale: 0 }) == (a < b),
        (Numeral { units: a, scale: 0 }).same(Numeral { units: b, scale: 0 }) == (a == b),
{
    let p = pow10(0);
    assert(p == 1);
    assert(a * p == a && b * p == b) by (nonlinear_arith)
        requires
            p == 1,
    ;
}

/// A kind of number that can be read from text and compared.
pub trait Comparable: Sized {
    /// The name of the kind, as layouts write it.
    spec fn kind() -> Seq<char>;

    /// The number that `text` writes, if it writes one of this kind.
    spec fn read(text: Seq<char>) -> Option<Numeral>;

    /// The number that this value stands for.
    spec fn numeral(&self) -> Numeral;

    fn name() -> (r: &'static str)
        ensures
            r@ == Self::kind(),
    ;

    fn parse(value: &str) -> (r: Option<Self>)
        ensures
            match r {
                Some(v) => Self::read(value@) == Some(v.numeral()),
                None => Self::read(value@) is None,
            },
    ;

    fn less(&self, other: &Self) -> (b: bool)
        ensures
            b == self.numeral().less(other.numeral()),
    ;

    fn same(&self, other: &Self) -> (b: bool)
        ensures
            b == self.numeral().same(other.numeral()),
    ;
}

/// What comparing `lhs` and `rhs` gives, where `read` says which number a
/// text writes: the answer, or the first operand that writes none.
pub open spec fn compared(
    kind: Seq<char>,
    lhs: Seq<char>,
    rhs: Seq<char>,
    left: Option<Numeral>,
    right: Option<Numeral>,
    relation: Relation,
) -> Result<bool, ErrorView> {
    if left is None {
        Err(ErrorView::TypedCompareFailed(lhs, kind))
    } else if right is None {
        Err(ErrorView::TypedCompareFailed(rhs, kind))
    } else {
        Ok(relation.holds(left->0, right->0))
    }
}

/// The view of the outcome of a comparison.
pub open spec fn outcome(r: Result<bool, RbfError>) -> Result<bool, ErrorView> {
    match r {
        Ok(b) => Ok(b),
        Err(e) => Err(e@),
    }
}

/// The comparisons on values of kind `T` that are given as text.
pub struct Compare<T> {
    pub system_type: PhantomData<T>,
}

impl<T: Comparable> Compare<T> {
    /// Converts a string to type T.
    pub fn to_t(value: &str) -> (r: Result<T, RbfError>)
        ensures
            match r {
                Ok(v) => T::read(value@) == Some(v.numeral()),
                Err(e) => T::read(value@) is None && e@ == ErrorView::TypedCompareFailed(
                    value@,
                    T::kind(),
                ),
            },
    {
        match T::parse(value) {
            Some(v) => Ok(v),
            None => Err(RbfError::TypedCompareFailed(value.to_owned(), T::name().to_owned())),
        }
    }

    /// Reads both operands, the left one first, and tests the relation.
    pub fn compare(lhs: &str, rhs: &str, relation: Relation) -> (r: Result<bool, RbfError>)
        ensures
            outcome(r) == compared(T::kind(), lhs@, rhs@, T::read(lhs@), T::read(rhs@), relation),
    {
        let l = match Self::to_t(lhs) {
            Ok(v) => v,
            Err(e) => { return Err(e); },
        };
        let r = match Self::to_t(rhs) {
            Ok(v) => v,
            Err(e) => { return Err(e); },
        };
        let answer = match relation {
            Relation::Equal => l.same(&r),
            Relation::Less => l.less(&r),
            Relation::Greater => r.less(&l),
        };
        Ok(answer)
    }

    /// Converts strings before comparing for equality.
    pub fn eq(lhs: &str, rhs: &str) -> (r: Result<bool, RbfError>)
        ensures
            outcome(r) == compared(
                T::kind(),
                lhs@,
                rhs@,
                T::read(lhs@),
                T::read(rhs@),
                Relation::Equal,
            ),
    {
        Self::compare(lhs, rhs, Relation::Equal)
    }

    /// Converts strings before comparing for less than.
    pub fn lt(lhs: &str, rhs: &str) -> (r: Result<bool, RbfError>)
        ensures
            outcome(r) == compared(
                T::kind(),
                lhs@,
                rhs@,
                T::read(lhs@),
                T::read(rhs@),
                Relation::Less,
            ),
    {
        Self::compare(lhs, rhs, Relation::Less)
    }

    /// Converts strings before comparing for greater than.
    pub fn gt(lhs: &str, rhs: &str) -> (r: Result<bool, RbfError>)
        ensures
            outcome(r) == compared(
                T::kind(),
                lhs@,
                rhs@,
                T::read(lhs@),
                T::read(rhs@),
                Relation::Greater,
            ),
    {
        Self::compare(lhs, rhs, Relation::Greater)
    }
}

} // verus!
