use vstd::prelude::*;
use crate::error::RbfError;
use crate::number::{parse_i64, signed_number};
use crate::types::base::{BaseType, Kind};
use crate::types::compare::{lemma_whole_numbers, Comparable, Compare, Numeral};
use crate::types::root::RootType;

verus! {

pub type SignedInteger = i64;

pub type SignedIntegerType = RootType<SignedInteger>;

impl Comparable for i64 {
    open spec fn kind() -> Seq<char> {
        Kind::Int.label()
    }

    open spec fn read(text: Seq<char>) -> Option<Numeral> {
        match signed_number(text) {
            Some(n) => Some(Numeral { units: n, scale: 0 }),
            None => None,
        }
    }

    open spec fn numeral(&self) -> Numeral {
        Numeral { units: *self as int, scale: 0 }
    }

    fn name() -> (r: &'static str) {
        Kind::Int.name()
    }

    fn parse(value: &str) -> (r: Option<Self>) {
        parse_i64(value)
    }

    fn less(&self, other: &Self) -> (b: bool) {
        proof {
            lemma_whole_numbers(*self as int, *other as int);
        }
        *self < *other
    }

    fn same(&self, other: &Self) -> (b: bool) {
        proof {
            lemma_whole_numbers(*self as int, *other as int);
        }
        *self == *other
    }
}

impl BaseType for SignedIntegerType {
    open spec fn kind(&self) -> Kind {
        Kind::Int
    }

    open spec fn format_text(&self) -> Seq<char> {
        self.format@
    }

    fn get_name(&self) -> (r: &'static str) {
        assert(self.kind() == Kind::Int);
        Kind::Int.name()
    }

    fn set_format(&mut self, fmt: &str) {
        self.format = fmt.to_owned();
    }

    fn get_format(&self) -> (r: &str) {
        self.format.as_str()
    }

    fn eq(&self, lhs: &str, rhs: &str) -> (r: Result<bool, RbfError>) {
        Compare::<SignedInteger>::eq(lhs, rhs)
    }

    fn lt(&self, lhs: &str, rhs: &str) -> (r: Result<bool, RbfError>) {
        Compare::<SignedInteger>::lt(lhs, rhs)
    }

    fn gt(&self, lhs: &str, rhs: &str) -> (r: Result<bool, RbfError>) {
        Compare::<SignedInteger>::gt(lhs, rhs)
    }
}

} // verus!
