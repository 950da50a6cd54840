//! The base datatypes: what each is called, and how each compares two
//! values that are given as text.

use vstd::prelude::*;
use vstd::string::*;
use vstd::utf8::encode_utf8;
use crate::error::{ErrorView, RbfError};
use crate::text::{bytes_less, str_eq};
use crate::types::compare::{compared, outcome, Comparable, Numeral, Relation};
use crate::types::datetime::{date_numeral, time_numeral, DateType, TimeType};
use crate::types::decimal::{Decimal, DecimalType};
use crate::types::signed::SignedIntegerType;
use crate::types::string::StringType;
use crate::types::unsigned::UnsignedIntegerType;

verus! {

/// The closed family of base datatypes.
#[derive(Debug, Clone, Copy, PartialEq, Eq, Structural)]
pub enum Kind {
    Text,
    Decimal,
    Int,
    UInt,
    Date,
    Time,
}

impl Kind {
    /// The name of the datatype, as layouts write it.
    pub open spec fn label(self) -> Seq<char> {
        match self {
            Kind::Text => "string"@,
            Kind::Decimal => "decimal"@,
            Kind::Int => "int"@,
            Kind::UInt => "uint"@,
            Kind::Date => "date"@,
            Kind::Time => "time"@,
        }
    }

    /// The datatype that `name` names, if any.
    pub open spec fn named(name: Seq<char>) -> Option<Kind> {
        if name == "string"@ {
            Some(Kind::Text)
        } else if name == "decimal"@ {
            Some(Kind::Decimal)
        } else if name == "int"@ {
            Some(Kind::Int)
        } else if name == "uint"@ {
            Some(Kind::UInt)
        } else if name == "date"@ {
            Some(Kind::Date)
        } else if name == "time"@ {
            Some(Kind::Time)
        } else {
            None
        }
    }

    pub fn name(self) -> (r: &'static str)
        ensures
            r@ == self.label(),
    {
        match self {
            Kind::Text => "string",
            Kind::Decimal => "decimal",
            Kind::Int => "int",
            Kind::UInt => "uint",
            Kind::Date => "date",
            Kind::Time => "time",
        }
    }

    pub fn from_name(name: &str) -> (r: Option<Kind>)
        ensures
            r == Kind::named(name@),
    {
        if str_eq(name, "string") {
            Some(Kind::Text)
        } else if str_eq(name, "decimal") {
            Some(Kind::Decimal)
        } else if str_eq(name, "int") {
            Some(Kind::Int)
        } else if str_eq(name, "uint") {
            Some(Kind::UInt)
        } else if str_eq(name, "date") {
            Some(Kind::Date)
        } else if str_eq(name, "time") {
            Some(Kind::Time)
        } else {
            None
        }
    }
}

/// Whether `relation` holds from `lhs` to `rhs` as strings: equality of the
/// texts, and the lexicographic order of their UTF-8 bytes.
pub open spec fn text_holds(relation: Relation, lhs: Seq<char>, rhs: Seq<char>) -> bool {
    match relation {
        Relation::Equal => lhs == rhs,
        Relation::Less => bytes_less(encode_utf8(lhs), encode_utf8(rhs)),
        Relation::Greater => bytes_less(encode_utf8(rhs), encode_utf8(lhs)),
    }
}

/// The number that `text` writes as a value of datatype `kind`; strings write none.
pub open spec fn read_as(kind: Kind, format: Seq<char>, text: Seq<char>) -> Option<Numeral> {
    match kind {
        Kind::Text => None,
        Kind::Decimal => <Decimal as Comparable>::read(text),
        Kind::Int => <i64 as Comparable>::read(text),
        Kind::UInt => <u64 as Comparable>::read(text),
        Kind::Date => date_numeral(text, format),
        Kind::Time => time_numeral(text, format),
    }
}

/// What comparing `lhs` and `rhs` as values of datatype `kind` gives: the
/// answer, or the first operand that cannot be read.
pub open spec fn typed_compare(
    kind: Kind,
    format: Seq<char>,
    lhs: Seq<char>,
    rhs: Seq<char>,
    relation: Relation,
) -> Result<bool, ErrorView> {
    if kind == Kind::Text {
        Ok(text_holds(relation, lhs, rhs))
    } else {
        compared(
            kind.label(),
            lhs,
            rhs,
            read_as(kind, format, lhs),
            read_as(kind, format, rhs),
            relation,
        )
    }
}

/// A base datatype with its comparator.
pub trait BaseType {
    /// Which datatype this is.
    spec fn kind(&self) -> Kind;

    /// The format that reading a value takes; only dates and times use it.
    spec fn format_text(&self) -> Seq<char>;

    fn get_name(&self) -> (r: &'static str)
        ensures
            r@ == self.kind().label(),
    ;

    fn set_format(&mut self, fmt: &str)
        ensures
            final(self).kind() == old(self).kind(),
            final(self).format_text() == fmt@,
    ;

    fn get_format(&self) -> (r: &str)
        ensures
            r@ == self.format_text(),
    ;

    fn eq(&self, lhs: &str, rhs: &str) -> (r: Result<bool, RbfError>)
        ensures
            outcome(r) == typed_compare(self.kind(), self.format_text(), lhs@, rhs@, Relation::Equal),
    ;

    fn lt(&self, lhs: &str, rhs: &str) -> (r: Result<bool, RbfError>)
        ensures
            outcome(r) == typed_compare(self.kind(), self.format_text(), lhs@, rhs@, Relation::Less),
    ;

    fn gt(&self, lhs: &str, rhs: &str) -> (r: Result<bool, RbfError>)
        ensures
            outcome(r) == typed_compare(self.kind(), self.format_text(), lhs@, rhs@, Relation::Greater),
    ;
}

/// One of the base datatypes.
#[derive(Debug)]
pub enum DataType {
    Text(StringType),
    Decimal(DecimalType),
    Int(SignedIntegerType),
    UInt(UnsignedIntegerType),
    Date(DateType),
    Time(TimeType),
}

impl BaseType for DataType {
    open spec fn kind(&self) -> Kind {
        match self {
            DataType::Text(_) => Kind::Text,
            DataType::Decimal(_) => Kind::Decimal,
            DataType::Int(_) => Kind::Int,
            DataType::UInt(_) => Kind::UInt,
            DataType::Date(_) => Kind::Date,
            DataType::Time(_) => Kind::Time,
        }
    }

    open spec fn format_text(&self) -> Seq<char> {
        match self {
            DataType::Text(t) => t.format@,
            DataType::Decimal(t) => t.format@,
            DataType::Int(t) => t.format@,
            DataType::UInt(t) => t.format@,
            DataType::Date(t) => t.format@,
            DataType::Time(t) => t.format@,
        }
    }

    fn get_name(&self) -> (r: &'static str) {
        match self {
            DataType::Text(t) => t.get_name(),
            DataType::Decimal(t) => t.get_name(),
            DataType::Int(t) => t.get_name(),
            DataType::UInt(t) => t.get_name(),
            DataType::Date(t) => t.get_name(),
            DataType::Time(t) => t.get_name(),
        }
    }

    fn set_format(&mut self, fmt: &str) {
        match self {
            DataType::Text(t) => t.format = fmt.to_owned(),
            DataType::Decimal(t) => t.format = fmt.to_owned(),
            DataType::Int(t) => t.format = fmt.to_owned(),
            DataType::UInt(t) => t.format = fmt.to_owned(),
            DataType::Date(t) => t.format = fmt.to_owned(),
            DataType::Time(t) => t.format = fmt.to_owned(),
        }
    }

    fn get_format(&self) -> (r: &str) {
        match self {
            DataType::Text(t) => t.format.as_str(),
            DataType::Decimal(t) => t.format.as_str(),
            DataType::Int(t) => t.format.as_str(),
            DataType::UInt(t) => t.format.as_str(),
            DataType::Date(t) => t.format.as_str(),
            DataType::Time(t) => t.format.as_str(),
        }
    }

    fn eq(&self, lhs: &str, rhs: &str) -> (r: Result<bool, RbfError>) {
        match self {
            DataType::Text(t) => t.eq(lhs, rhs),
            DataType::Decimal(t) => t.eq(lhs, rhs),
            DataType::Int(t) => t.eq(lhs, rhs),
            DataType::UInt(t) => t.eq(lhs, rhs),
            DataType::Date(t) => t.eq(lhs, rhs),
            DataType::Time(t) => t.eq(lhs, rhs),
        }
    }

    fn lt(&self, lhs: &str, rhs: &str) -> (r: Result<bool, RbfError>) {
        match self {
            DataType::Text(t) => t.lt(lhs, rhs),
            DataType::Decimal(t) => t.lt(lhs, rhs),
            DataType::Int(t) => t.lt(lhs, rhs),
            DataType::UInt(t) => t.lt(lhs, rhs),
            DataType::Date(t) => t.lt(lhs, rhs),
            DataType::Time(t) => t.lt(lhs, rhs),
        }
    }

    fn gt(&self, lhs: &str, rhs: &str) -> (r: Result<bool, RbfError>) {
        match self {
            DataType::Text(t) => t.gt(lhs, rhs),
            DataType::Decimal(t) => t.gt(lhs, rhs),
            DataType::Int(t) => t.gt(lhs, rhs),
            DataType::UInt(t) => t.gt(lhs, rhs),
            DataType::Date(t) => t.gt(lhs, rhs),
            DataType::Time(t) => t.gt(lhs, rhs),
        }
    }
}

impl DataType {
    /// The datatype of the given kind, with an empty format.
    pub fn of(kind: Kind) -> (r: DataType)
        ensures
            r.kind() == kind,
            r.format_text() == Seq::<char>::empty(),
    {
        proof {
            reveal_strlit("");
        }
        match kind {
            Kind::Text => DataType::Text(StringType::new("")),
            Kind::Decimal => DataType::Decimal(DecimalType::new("")),
            Kind::Int => DataType::Int(SignedIntegerType::new("")),
            Kind::UInt => DataType::UInt(UnsignedIntegerType::new("")),
            Kind::Date => DataType::Date(DateType::new("")),
            Kind::Time => DataType::Time(TimeType::new("")),
        }
    }
}

/// The datatype that `name` names, with an empty format; `None` for an unknown name.
pub fn base_type_from(name: &str) -> (r: Option<DataType>)
    ensures
        match r {
            Some(b) => Kind::named(name@) == Some(b.kind()) && b.format_text() == Seq::<char>::empty(),
            None => Kind::named(name@) is None,
        },
{
    match Kind::from_name(name) {
        Some(kind) => Some(DataType::of(kind)),
        None => None,
    }
}

} // verus!
