//! Represents a data field by its name, description, type and length.
//!
//! If a record can be mapped to a line of text within a file, then a field is
//! a substring from that line, with a fixed length. Each field holds the
//! substring as it was cut (`raw_value`) and without surrounding blanks
//! (`str_value`).

use std::rc::Rc;
use vstd::prelude::*;
use vstd::string::*;
use crate::error::{ErrorView, RbfError};
use crate::filter::fieldfilter::{FieldFilter, FieldFilterOp, FieldFilterView};
use crate::pattern::{is_match, matched};
use crate::text::{trim, trimmed};
use crate::types::base::{typed_compare, BaseType};
use crate::types::compare::{outcome, Relation};
use crate::types::fieldtype::{FieldType, FieldTypeView};

verus! {

/// Holds the way a **Field** is defined: by giving its length or its offsets
#[derive(Debug, Clone, Copy, PartialEq, Eq, Structural)]
pub enum FieldCreationType {
    ByLength,
    ByOffset,
}

#[derive(Debug)]
pub struct Field {
    /// field name
    pub name: String,
    /// field description
    pub description: String,
    /// field length in chars
    pub length: usize,
    /// field type of this field
    pub ftype: Rc<FieldType>,
    /// field value, copied as-is
    pub raw_value: String,
    /// blank-stripped field value
    pub str_value: String,
    /// offset in chars of this field within its parent record
    pub offset_from_origin: usize,
    /// index of this field within its record
    pub index: usize,
    /// first position (in chars) from the beginning of the record
    pub lower_offset: usize,
    /// last position (in chars) of the field within its record
    pub upper_offset: usize,
    /// in case of a record having the same field name several times, this tracks down the field number
    pub multiplicity: usize,
    /// for display purpose (= maximum of field name size and length)
    pub cell_size: usize,
    /// holds the way a Field is created: by length or by offset
    pub creation_type: FieldCreationType,
    /// unique name associated to the field: in case of field duplication, this name is unique
    pub id: String,
}

/// The mathematical content of a field.
pub struct FieldView {
    pub name: Seq<char>,
    pub description: Seq<char>,
    pub length: nat,
    pub ftype: FieldTypeView,
    pub raw_value: Seq<char>,
    pub str_value: Seq<char>,
    pub offset_from_origin: nat,
    pub index: nat,
    pub lower_offset: nat,
    pub upper_offset: nat,
    pub multiplicity: nat,
    pub cell_size: nat,
    pub creation_type: FieldCreationType,
    pub id: Seq<char>,
}

impl View for Field {
    type V = FieldView;

    open spec fn view(&self) -> FieldView {
        FieldView {
            name: self.name@,
            description: self.description@,
            length: self.length as nat,
            ftype: self.ftype@,
            raw_value: self.raw_value@,
            str_value: self.str_value@,
            offset_from_origin: self.offset_from_origin as nat,
            index: self.index as nat,
            lower_offset: self.lower_offset as nat,
            upper_offset: self.upper_offset as nat,
            multiplicity: self.multiplicity as nat,
            cell_size: self.cell_size as nat,
            creation_type: self.creation_type,
            id: self.id@,
        }
    }
}

/// The larger of two numbers.
pub open spec fn larger(a: nat, b: nat) -> nat {
    if a < b {
        b
    } else {
        a
    }
}

impl FieldView {
    /// A field as it is created: named, typed and sized, without a place or a value.
    pub open spec fn created(
        name: Seq<char>,
        description: Seq<char>,
        ftype: FieldTypeView,
        length: nat,
        lower_offset: nat,
        upper_offset: nat,
        cell_size: nat,
        creation_type: FieldCreationType,
    ) -> FieldView {
        FieldView {
            name,
            description,
            length,
            ftype,
            raw_value: Seq::empty(),
            str_value: Seq::empty(),
            offset_from_origin: 0,
            index: 0,
            lower_offset,
            upper_offset,
            multiplicity: 0,
            cell_size,
            creation_type,
            id: Seq::empty(),
        }
    }

    /// What every field keeps: a name, a length of one at least, and, where
    /// the field was created by offset, bounds that agree with its length.
    pub open spec fn wf(self) -> bool {
        &&& self.name.len() > 0
        &&& self.length >= 1
        &&& self.creation_type == FieldCreationType::ByOffset ==> self.spans()
    }

    /// Whether the trimmed value is the raw value without the white space
    /// around it, as it is in a new field and after every `set_value`.
    pub open spec fn trims(self) -> bool {
        self.str_value == trimmed(self.raw_value)
    }

    /// Whether the bounds are in order and as far apart as the length says.
    pub open spec fn spans(self) -> bool {
        self.lower_offset <= self.upper_offset && self.length == self.upper_offset
            - self.lower_offset + 1
    }

    /// The field with `value` as its raw value.
    pub open spec fn with_value(self, value: Seq<char>) -> FieldView {
        FieldView { raw_value: value, str_value: trimmed(value), ..self }
    }

    /// Whether the raw value matches the pattern of the field type; a pattern
    /// that is no regular expression matches nothing.
    pub open spec fn pattern_matched(self) -> bool {
        matched(self.ftype.pattern, self.raw_value) == Some(true)
    }

    /// What the filter gives on this field. `=`, `!=`, `<` and `>` compare the
    /// trimmed value with the right-hand side by the field's datatype; `~` and
    /// `!~` search the trimmed value for the right-hand side, a regular expression.
    pub open spec fn filter_outcome(self, filter: FieldFilterView) -> Result<bool, ErrorView> {
        let kind = self.ftype.kind;
        let format = self.ftype.format;
        let value = self.str_value;
        let rhs = filter.freg_or_value;
        match filter.op {
            FieldFilterOp::OpEqual => typed_compare(kind, format, value, rhs, Relation::Equal),
            FieldFilterOp::OpNotEqual => negated(
                typed_compare(kind, format, value, rhs, Relation::Equal),
            ),
            FieldFilterOp::OpSimilar => searched(rhs, value),
            FieldFilterOp::OpNotSimilar => negated(searched(rhs, value)),
            FieldFilterOp::OpLessThan => typed_compare(kind, format, value, rhs, Relation::Less),
            FieldFilterOp::OpGreaterThan => typed_compare(
                kind,
                format,
                value,
                rhs,
                Relation::Greater,
            ),
        }
    }
}

/// The outcome with its answer turned round; an error stays.
pub open spec fn negated(r: Result<bool, ErrorView>) -> Result<bool, ErrorView> {
    match r {
        Ok(b) => Ok(!b),
        Err(e) => Err(e),
    }
}

/// Whether `text` holds a match of `pattern`; a pattern that is no regular
/// expression is reported as an invalid filter.
pub open spec fn searched(pattern: Seq<char>, text: Seq<char>) -> Result<bool, ErrorView> {
    match matched(pattern, text) {
        Some(b) => Ok(b),
        None => Err(ErrorView::InvalidFilter(pattern)),
    }
}

/// Turns the answer of a comparison round.
fn negate(r: Result<bool, RbfError>) -> (n: Result<bool, RbfError>)
    ensures
        outcome(n) == negated(outcome(r)),
{
    match r {
        Ok(b) => Ok(!b),
        Err(e) => Err(e),
    }
}

/// Searches `text` for `pattern`.
fn search(pattern: &str, text: &str) -> (r: Result<bool, RbfError>)
    ensures
        outcome(r) == searched(pattern@, text@),
{
    match is_match(pattern, text) {
        Some(b) => Ok(b),
        None => Err(RbfError::InvalidFilter(pattern.to_owned())),
    }
}

impl Field {
    /// Creates a new field with length.
    ///
    /// The caller gives a name that is not empty and a length that is not zero.
    pub fn from_length(name: &str, description: &str, ftype: &Rc<FieldType>, length: usize) -> (r:
        Field)
        requires
            name@.len() > 0,
            length > 0,
        ensures
            r@ == FieldView::created(
                name@,
                description@,
                ftype@,
                length as nat,
                0,
                0,
                larger(length as nat, name.spec_bytes().len()),
                FieldCreationType::ByLength,
            ),
            r@.wf(),
            r@.trims(),
    {
        let size = name.as_bytes().len();
        let r = Field {
            name: name.to_owned(),
            description: description.to_owned(),
            length: length,
            ftype: ftype.clone(),
            raw_value: String::new(),
            str_value: String::new(),
            offset_from_origin: 0,
            index: 0,
            lower_offset: 0,
            upper_offset: 0,
            multiplicity: 0,
            cell_size: if length < size {
                size
            } else {
                length
            },
            creation_type: FieldCreationType::ByLength,
            id: String::new(),
        };
        proof {
            assert(trimmed(Seq::<char>::empty()) =~= Seq::<char>::empty());
        }
        r
    }

    /// Creates a new field with lower & upper bounds, both counted from 1 and
    /// both part of the field.
    ///
    /// The caller gives a name that is not empty and bounds in order.
    pub fn from_offset(
        name: &str,
        description: &str,
        ftype: &Rc<FieldType>,
        lower_offset: usize,
        upper_offset: usize,
    ) -> (r: Field)
        requires
            name@.len() > 0,
            1 <= lower_offset <= upper_offset,
        ensures
            r@ == FieldView::created(
                name@,
                description@,
                ftype@,
                (upper_offset - lower_offset + 1) as nat,
                (lower_offset - 1) as nat,
                (upper_offset - 1) as nat,
                larger((upper_offset - lower_offset + 1) as nat, name.spec_bytes().len()),
                FieldCreationType::ByOffset,
            ),
            r@.wf(),
            r@.trims(),
    {
        let size = name.as_bytes().len();
        let length = upper_offset - lower_offset + 1;
        let r = Field {
            name: name.to_owned(),
            description: description.to_owned(),
            length: length,
            ftype: ftype.clone(),
            raw_value: String::new(),
            str_value: String::new(),
            offset_from_origin: 0,
            index: 0,
            lower_offset: lower_offset - 1,
            upper_offset: upper_offset - 1,
            multiplicity: 0,
            cell_size: if length < size {
                size
            } else {
                length
            },
            creation_type: FieldCreationType::ByOffset,
            id: String::new(),
        };
        proof {
            assert(trimmed(Seq::<char>::empty()) =~= Seq::<char>::empty());
        }
        r
    }

    /// Sets the value which is blank-stripped and also kept asis in the **raw_value** struct field.
    pub fn set_value(&mut self, val: &str)
        ensures
            final(self)@ == old(self)@.with_value(val@),
            final(self)@.trims(),
    {
        self.str_value = trim(val).to_owned();
        self.raw_value = val.to_owned();
    }

    /// Returns the field value.
    pub fn value(&self) -> (r: &String)
        ensures
            r@ == self@.str_value,
    {
        &self.str_value
    }

    /// Returns the total number of chars in the fields.
    pub fn len(&self) -> (r: usize)
        ensures
            r == self@.length,
    {
        self.length
    }

    /// Verifies if the field value is matching the field type pattern.
    pub fn is_pattern_matched(&self) -> (r: bool)
        ensures
            r == self@.pattern_matched(),
    {
        match is_match(self.ftype.pattern.as_str(), self.raw_value.as_str()) {
            Some(b) => b,
            None => false,
        }
    }

    /// Checks if the field value matches the field filter
    pub fn is_filter_matched(&self, filter: &FieldFilter) -> (r: Result<bool, RbfError>)
        ensures
            outcome(r) == self@.filter_outcome(filter@),
    {
        let value = self.str_value.as_str();
        let rhs = filter.freg_or_value.as_str();
        match filter.op {
            FieldFilterOp::OpEqual => self.ftype.base_type.eq(value, rhs),
            FieldFilterOp::OpNotEqual => negate(self.ftype.base_type.eq(value, rhs)),
            FieldFilterOp::OpSimilar => search(rhs, value),
            FieldFilterOp::OpNotSimilar => negate(search(rhs, value)),
            FieldFilterOp::OpLessThan => self.ftype.base_type.lt(value, rhs),
            FieldFilterOp::OpGreaterThan => self.ftype.base_type.gt(value, rhs),
        }
    }

    /// Tells whether the field is well formed.
    pub fn is_sound(&self) -> (b: bool)
        ensures
            b == self@.wf(),
    {
        let by_offset = match self.creation_type {
            FieldCreationType::ByOffset => true,
            FieldCreationType::ByLength => false,
        };
        !self.name.as_str().is_empty() && self.length >= 1 && (!by_offset || self.spans())
    }

    /// Tells whether the bounds are in order and as far apart as the length says.
    pub fn spans(&self) -> (b: bool)
        ensures
            b == self@.spans(),
    {
        self.lower_offset <= self.upper_offset && self.length >= 1 && self.length - 1
            == self.upper_offset - self.lower_offset
    }

    /// The field's name followed by its value between quotes, as `NAME='value'`.
    pub fn to_string(&self) -> (r: String)
        ensures
            r@ == self@.name + "='"@ + self@.str_value + "'"@,
    {
        let mut s = self.name.clone();
        s.append("='");
        s.append(self.str_value.as_str());
        s.append("'");
        s
    }
}

impl Clone for Field {
    fn clone(&self) -> (r: Field)
        ensures
            r@ == self@,
    {
        Field {
            name: self.name.clone(),
            description: self.description.clone(),
            length: self.length,
            ftype: self.ftype.clone(),
            raw_value: self.raw_value.clone(),
            str_value: self.str_value.clone(),
            offset_from_origin: self.offset_from_origin,
            index: self.index,
            lower_offset: self.lower_offset,
            upper_offset: self.upper_offset,
            multiplicity: self.multiplicity,
            cell_size: self.cell_size,
            creation_type: self.creation_type,
            id: self.id.clone(),
        }
    }
}

} // verus!
