//! Dates and times of day, read with a format of strftime conversions.
//!
//! A date is stood for by its day number and a time by its second of the
//! day and the nanoseconds within that second, which order them as the
//! calendar and the clock do.

use vstd::prelude::*;
use crate::error::RbfError;
use crate::types::base::{BaseType, Kind};
use crate::types::compare::{lemma_whole_numbers, Numeral, Relation};
use crate::types::root::RootType;

verus! {

/// Marker for calendar dates.
#[derive(Debug)]
pub struct Date;

/// Marker for times of day.
#[derive(Debug)]
pub struct Time;

pub type DateType = RootType<Date>;

pub type TimeType = RootType<Time>;

/// The day number, counted from the first of January of year 1, of the date
/// that `chrono::NaiveDate::parse_from_str` reads from `text` with `format`;
/// `None` where the parse fails.
pub uninterp spec fn date_number(text: Seq<char>, format: Seq<char>) -> Option<i32>;

/// The second of the day and the nanosecond of the time that
/// `chrono::NaiveTime::parse_from_str` reads from `text` with `format`;
/// `None` where the parse fails.
pub uninterp spec fn time_number(text: Seq<char>, format: Seq<char>) -> Option<(u32, u32)>;

/// The date that `text` writes, as a number.
pub open spec fn date_numeral(text: Seq<char>, format: Seq<char>) -> Option<Numeral> {
    match date_number(text, format) {
        Some(d) => Some(Numeral { units: d as int, scale: 0 }),
        None => None,
    }
}

/// The time that `text` writes, as a number: seconds first, nanoseconds second.
pub open spec fn time_numeral(text: Seq<char>, format: Seq<char>) -> Option<Numeral> {
    match time_number(text, format) {
        Some(t) => Some(Numeral { units: t.0 as int * 0x1_0000_0000 + t.1 as int, scale: 0 }),
        None => None,
    }
}

/// Parses a date with `chrono::NaiveDate::parse_from_str` and takes its day
/// number with `Datelike::num_days_from_ce`, which grows with the date.
#[verifier::external_body]
fn to_date(value: &str, fmt: &str) -> (r: Option<i32>)
    ensures
        r == date_number(value@, fmt@),
{
    match chrono::NaiveDate::parse_from_str(value, fmt) {
        Ok(d) => Some(chrono::Datelike::num_days_from_ce(&d)),
        Err(_) => None,
    }
}

/// Parses a time with `chrono::NaiveTime::parse_from_str` and takes
/// `Timelike::num_seconds_from_midnight` and `Timelike::nanosecond`, the two
/// numbers by which times are ordered.
#[verifier::external_body]
fn to_time(value: &str, fmt: &str) -> (r: Option<(u32, u32)>)
    ensures
        r == time_number(value@, fmt@),
{
    match chrono::NaiveTime::parse_from_str(value, fmt) {
        Ok(t) => Some(
            (chrono::Timelike::num_seconds_from_midnight(&t), chrono::Timelike::nanosecond(&t)),
        ),
        Err(_) => None,
    }
}

/// Tests `relation` between two numbers.
pub fn holds_between(relation: Relation, l: i128, r: i128) -> (b: bool)
    ensures
        b == relation.holds(
            Numeral { units: l as int, scale: 0 },
            Numeral { units: r as int, scale: 0 },
        ),
{
    proof {
        lemma_whole_numbers(l as int, r as int);
        lemma_whole_numbers(r as int, l as int);
    }
    match relation {
        Relation::Equal => l == r,
        Relation::Less => l < r,
        Relation::Greater => r < l,
    }
}

/// Compares two dates written with the format `fmt`.
pub fn compare_dates(lhs: &str, rhs: &str, fmt: &str, relation: Relation) -> (r: Result<
    bool,
    RbfError,
>)
    ensures
        crate::types::compare::outcome(r) == crate::types::base::typed_compare(
            Kind::Date,
            fmt@,
            lhs@,
            rhs@,
            relation,
        ),
{
    let l = match to_date(lhs, fmt) {
        Some(d) => d,
        None => {
            return Err(RbfError::TypedCompareFailed(lhs.to_owned(), Kind::Date.name().to_owned()));
        },
    };
    let r = match to_date(rhs, fmt) {
        Some(d) => d,
        None => {
            return Err(RbfError::TypedCompareFailed(rhs.to_owned(), Kind::Date.name().to_owned()));
        },
    };
    Ok(holds_between(relation, l as i128, r as i128))
}

/// Compares two times of day written with the format `fmt`.
pub fn compare_times(lhs: &str, rhs: &str, fmt: &str, relation: Relation) -> (r: Result<
    bool,
    RbfError,
>)
    ensures
        crate::types::compare::outcome(r) == crate::types::base::typed_compare(
            Kind::Time,
            fmt@,
            lhs@,
            rhs@,
            relation,
        ),
{
    let l = match to_time(lhs, fmt) {
        Some(t) => t,
        None => {
            return Err(RbfError::TypedCompareFailed(lhs.to_owned(), Kind::Time.name().to_owned()));
        },
    };
    let r = match to_time(rhs, fmt) {
        Some(t) => t,
        None => {
            return Err(RbfError::TypedCompareFailed(rhs.to_owned(), Kind::Time.name().to_owned()));
        },
    };
    let x: i128 = l.0 as i128 * 0x1_0000_0000 + l.1 as i128;
    let y: i128 = r.0 as i128 * 0x1_0000_0000 + r.1 as i128;
    Ok(holds_between(relation, x, y))
}

impl BaseType for DateType {
    open spec fn kind(&self) -> Kind {
        Kind::Date
    }

    open spec fn format_text(&self) -> Seq<char> {
        self.format@
    }

    fn get_name(&self) -> (r: &'static str) {
        Kind::Date.name()
    }

    fn set_format(&mut self, fmt: &str) {
        self.format = fmt.to_owned();
    }

    fn get_format(&self) -> (r: &str) {
        self.format.as_str()
    }

    fn eq(&self, lhs: &str, rhs: &str) -> (r: Result<bool, RbfError>) {
        compare_dates(lhs, rhs, self.format.as_str(), Relation::Equal)
    }

    fn lt(&self, lhs: &str, rhs: &str) -> (r: Result<bool, RbfError>) {
        compare_dates(lhs, rhs, self.format.as_str(), Relation::Less)
    }

    fn gt(&self, lhs: &str, rhs: &str) -> (r: Result<bool, RbfError>) {
        compare_dates(lhs, rhs, self.format.as_str(), Relation::Greater)
    }
}

impl BaseType for TimeType {
    open spec fn kind(&self) -> Kind {
        Kind::Time
    }

    open spec fn format_text(&self) -> Seq<char> {
        self.format@
    }

    fn get_name(&self) -> (r: &'static str) {
        Kind::Time.name()
    }

    fn set_format(&mut self, fmt: &str) {
        self.format = fmt.to_owned();
    }

    fn get_format(&self) -> (r: &str) {
        self.format.as_str()
    }

    fn eq(&self, lhs: &str, rhs: &str) -> (r: Result<bool, RbfError>) {
        compare_times(lhs, rhs, self.format.as_str(), Relation::Equal)
    }

    fn lt(&self, lhs: &str, rhs: &str) -> (r: Result<bool, RbfError>) {
        compare_times(lhs, rhs, self.format.as_str(), Relation::Less)
    }

    fn gt(&self, lhs: &str, rhs: &str) -> (r: Result<bool, RbfError>) {
        compare_times(lhs, rhs, self.format.as_str(), Relation::Greater)
    }
}

} // verus!
