//! The errors that loading a layout, reading a file and evaluating a filter can report.

use vstd::prelude::*;
use vstd::string::*;
use crate::text::{decimal, push_decimal};

verus! {

#[derive(Debug)]
pub enum RbfError {
    /// The field type specified in layout is not existing.
    NoFieldTypeFound,
    /// The layout file could not be opened: file name and cause.
    ErrorOpeningLayoutFile(String, String),
    /// The layout file is malformed: file name and cause.
    ErrorReadingLayoutFile(String, String),
    /// A field refers to a field type that the layout does not define: file name, field name, type name.
    ErrorLayoutNoFieldType(String, String, String),
    /// A line maps to a record name that the layout does not hold: line number, record name.
    UnknownRecord(usize, String),
    /// A filter expression that does not follow the grammar.
    InvalidFilter(String),
    /// A typed comparison met an operand that cannot be read: operand, type name.
    TypedCompareFailed(String, String),
    /// A record whose length differs from the expected one: record name, expected, actual.
    LayoutInvalid(String, usize, usize),
}

/// The mathematical content of an error.
pub enum ErrorView {
    NoFieldTypeFound,
    ErrorOpeningLayoutFile(Seq<char>, Seq<char>),
    ErrorReadingLayoutFile(Seq<char>, Seq<char>),
    ErrorLayoutNoFieldType(Seq<char>, Seq<char>, Seq<char>),
    UnknownRecord(nat, Seq<char>),
    InvalidFilter(Seq<char>),
    TypedCompareFailed(Seq<char>, Seq<char>),
    LayoutInvalid(Seq<char>, nat, nat),
}

impl View for RbfError {
    type V = ErrorView;

    open spec fn view(&self) -> ErrorView {
        match self {
            RbfError::NoFieldTypeFound => ErrorView::NoFieldTypeFound,
            RbfError::ErrorOpeningLayoutFile(f, c) => ErrorView::ErrorOpeningLayoutFile(f@, c@),
            RbfError::ErrorReadingLayoutFile(f, c) => ErrorView::ErrorReadingLayoutFile(f@, c@),
            RbfError::ErrorLayoutNoFieldType(f, n, t) => ErrorView::ErrorLayoutNoFieldType(
                f@,
                n@,
                t@,
            ),
            RbfError::UnknownRecord(l, n) => ErrorView::UnknownRecord(*l as nat, n@),
            RbfError::InvalidFilter(e) => ErrorView::InvalidFilter(e@),
            RbfError::TypedCompareFailed(v, t) => ErrorView::TypedCompareFailed(v@, t@),
            RbfError::LayoutInvalid(r, e, a) => ErrorView::LayoutInvalid(r@, *e as nat, *a as nat),
        }
    }
}

impl ErrorView {
    /// The short, fixed description of the kind of error.
    pub open spec fn description(self) -> Seq<char> {
        match self {
            ErrorView::NoFieldTypeFound => "The field type specified in layout is not existing"@,
            ErrorView::ErrorOpeningLayoutFile(_, _) => "the layout file could not be opened"@,
            ErrorView::ErrorReadingLayoutFile(_, _) => "an error occured when reading the layout file"@,
            ErrorView::ErrorLayoutNoFieldType(_, _, _) => "an error occured when reading the layout file"@,
            ErrorView::UnknownRecord(_, _) => "a line belongs to no record of the layout"@,
            ErrorView::InvalidFilter(_) => "a filter expression is malformed"@,
            ErrorView::TypedCompareFailed(_, _) => "a value cannot be read as its field type"@,
            ErrorView::LayoutInvalid(_, _, _) => "a record has not the expected length"@,
        }
    }

    /// The full message, with the particulars of the error.
    pub open spec fn message(self) -> Seq<char> {
        match self {
            ErrorView::NoFieldTypeFound => Seq::empty(),
            ErrorView::ErrorOpeningLayoutFile(file, cause) => "the layout file <"@ + file
                + "> could not be opened, io error="@ + cause,
            ErrorView::ErrorReadingLayoutFile(file, cause) =>
                "an error occured when reading the layout file <"@ + file + ">, xml error="@
                + cause,
            ErrorView::ErrorLayoutNoFieldType(file, name, ty) => "no field type <"@ + ty
                + "> for field name <"@ + name + "> found in layout file <"@ + file + ">"@,
            ErrorView::UnknownRecord(line, name) => "line "@ + decimal(line)
                + ": no record named <"@ + name + "> in the layout"@,
            ErrorView::InvalidFilter(expr) => "unable to find a suitable operator for filter \""@
                + expr + "\""@,
            ErrorView::TypedCompareFailed(value, ty) => "unable to convert string value "@ + value
                + " to type <"@ + ty + ">"@,
            ErrorView::LayoutInvalid(name, expected, actual) => "record <"@ + name
                + "> should have length "@ + decimal(expected) + " but has length "@ + decimal(
                actual,
            ),
        }
    }
}

impl RbfError {
    /// The short, fixed description of the kind of error.
    pub fn description(&self) -> (r: &'static str)
        ensures
            r@ == self@.description(),
    {
        match self {
            RbfError::NoFieldTypeFound => "The field type specified in layout is not existing",
            RbfError::ErrorOpeningLayoutFile(_, _) => "the layout file could not be opened",
            RbfError::ErrorReadingLayoutFile(_, _) => "an error occured when reading the layout file",
            RbfError::ErrorLayoutNoFieldType(_, _, _) => "an error occured when reading the layout file",
            RbfError::UnknownRecord(_, _) => "a line belongs to no record of the layout",
            RbfError::InvalidFilter(_) => "a filter expression is malformed",
            RbfError::TypedCompareFailed(_, _) => "a value cannot be read as its field type",
            RbfError::LayoutInvalid(_, _, _) => "a record has not the expected length",
        }
    }

    /// The full message, with the particulars of the error.
    pub fn to_string(&self) -> (r: String)
        ensures
            r@ == self@.message(),
    {
        let mut s = String::new();
        match self {
            RbfError::NoFieldTypeFound => {},
            RbfError::ErrorOpeningLayoutFile(file, cause) => {
                s.append("the layout file <");
                s.append(file.as_str());
                s.append("> could not be opened, io error=");
                s.append(cause.as_str());
            },
            RbfError::ErrorReadingLayoutFile(file, cause) => {
                s.append("an error occured when reading the layout file <");
                s.append(file.as_str());
                s.append(">, xml error=");
                s.append(cause.as_str());
            },
            RbfError::ErrorLayoutNoFieldType(file, name, ty) => {
                s.append("no field type <");
                s.append(ty.as_str());
                s.append("> for field name <");
                s.append(name.as_str());
                s.append("> found in layout file <");
                s.append(file.as_str());
                s.append(">");
            },
            RbfError::UnknownRecord(line, name) => {
                s.append("line ");
                push_decimal(&mut s, *line);
                s.append(": no record named <");
                s.append(name.as_str());
                s.append("> in the layout");
            },
            RbfError::InvalidFilter(expr) => {
                s.append("unable to find a suitable operator for filter \"");
                s.append(expr.as_str());
                s.append("\"");
            },
            RbfError::TypedCompareFailed(value, ty) => {
                s.append("unable to convert string value ");
                s.append(value.as_str());
                s.append(" to type <");
                s.append(ty.as_str());
                s.append(">");
            },
            RbfError::LayoutInvalid(name, expected, actual) => {
                s.append("record <");
                s.append(name.as_str());
                s.append("> should have length ");
                push_decimal(&mut s, *expected);
                s.append(" but has length ");
                push_decimal(&mut s, *actual);
            },
        }
        assert(s@ =~= self@.message());
        s
    }
}

} // verus!
