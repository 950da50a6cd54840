//! A layout engine for record-based flat files: text files of which every
//! line is one record, and every record a run of fixed-width fields.
//!
//! A [`layout::Layout`] describes such a file: the kinds of record it holds,
//! the fields of each with their types, and the way to tell the record of a
//! line. It is loaded from an XML document ([`schema`]). A
//! [`reader::Reader`] takes the lines of the file one by one, finds the
//! record of each ([`mapper`]) and hands out a copy of it whose fields are
//! filled from the line ([`record`], [`field`]). Records and fields can be
//! tested against filters ([`filter`]), by the datatype of the field
//! ([`types`]) or by regular expressions ([`pattern`]).
//!
//! Every function states what it returns over the mathematical content of
//! its arguments, their views; [`laws`] holds what follows for records and
//! lines in general.

pub mod error;
pub mod exportable;
pub mod field;
pub mod filter;
pub mod laws;
pub mod layout;
pub mod mapper;
pub mod number;
pub mod pattern;
pub mod reader;
pub mod record;
pub mod schema;
pub mod setup;
pub mod text;
pub mod types;
pub mod util;
