//! Field types: the base datatypes with their comparators, and the named
//! field types that a layout registers.

pub mod base;
pub mod compare;
pub mod datetime;
pub mod decimal;
pub mod fieldtype;
pub mod root;
pub mod signed;
pub mod string;
pub mod unsigned;
