//! Represents a basic type used by fields. Each field can be associated with a standard type,
//! which defines the type data it holds.

use vstd::prelude::*;
use vstd::string::*;
use crate::pattern::{is_valid_pattern, regex_compiles};
use crate::types::base::{BaseType, DataType, Kind};

verus! {

#[derive(Debug)]
pub struct FieldType {
    /// Nickname for the field type
    pub id: String,
    /// Name of the type as a string
    pub type_as_string: String,
    /// Base type (which is only limited to a set a values)
    pub base_type: DataType,
    /// Optional pattern which describes field format; the empty pattern matches any value
    pub pattern: String,
}

/// The mathematical content of a field type.
pub struct FieldTypeView {
    pub id: Seq<char>,
    pub type_as_string: Seq<char>,
    pub kind: Kind,
    pub format: Seq<char>,
    pub pattern: Seq<char>,
}

impl View for FieldType {
    type V = FieldTypeView;

    open spec fn view(&self) -> FieldTypeView {
        FieldTypeView {
            id: self.id@,
            type_as_string: self.type_as_string@,
            kind: self.base_type.kind(),
            format: self.base_type.format_text(),
            pattern: self.pattern@,
        }
    }
}

impl FieldType {
    /// Creates a new `FieldType` with an ID (a kind of nickname to refer to) and
    /// a type which should in the list: string, decimal, int, uint, date or time.
    pub fn new(id: &str, type_as_string: &str) -> (r: FieldType)
        requires
            id@.len() > 0,
            Kind::named(type_as_string@) is Some,
        ensures
            r@ == (FieldTypeView {
                id: id@,
                type_as_string: type_as_string@,
                kind: Kind::named(type_as_string@)->0,
                format: Seq::empty(),
                pattern: Seq::empty(),
            }),
    {
        let kind = Kind::from_name(type_as_string).unwrap();
        FieldType {
            id: id.to_owned(),
            type_as_string: type_as_string.to_owned(),
            base_type: DataType::of(kind),
            pattern: String::new(),
        }
    }

    /// Creates the field type if `id` is not empty and `type_as_string` names a base datatype.
    pub fn try_new(id: &str, type_as_string: &str) -> (r: Option<FieldType>)
        ensures
            r is Some <==> id@.len() > 0 && Kind::named(type_as_string@) is Some,
            r is Some ==> r->0@ == (FieldTypeView {
                id: id@,
                type_as_string: type_as_string@,
                kind: Kind::named(type_as_string@)->0,
                format: Seq::empty(),
                pattern: Seq::empty(),
            }),
    {
        if id.is_empty() {
            return None;
        }
        match Kind::from_name(type_as_string) {
            Some(_) => Some(FieldType::new(id, type_as_string)),
            None => None,
        }
    }

    /// Sets the regex pattern for the field type, if `pattern` is a regular
    /// expression; says whether it is.
    pub fn set_pattern(&mut self, pattern: &str) -> (ok: bool)
        ensures
            ok == regex_compiles(pattern@),
            ok ==> final(self)@ == (FieldTypeView { pattern: pattern@, ..old(self)@ }),
            !ok ==> final(self)@ == old(self)@,
    {
        if is_valid_pattern(pattern) {
            self.pattern = pattern.to_owned();
            true
        } else {
            false
        }
    }

    /// The field type written as `id=<..> type_as_string=<..> pattern=<..> format=<..>`.
    pub fn to_string(&self) -> (r: String)
        ensures
            r@ == "id=<"@ + self@.id + "> type_as_string=<"@ + self@.type_as_string
                + "> pattern=<"@ + self@.pattern + "> format=<"@ + self@.format + ">"@,
    {
        let mut s = String::new();
        s.append("id=<");
        s.append(self.id.as_str());
        s.append("> type_as_string=<");
        s.append(self.type_as_string.as_str());
        s.append("> pattern=<");
        s.append(self.pattern.as_str());
        s.append("> format=<");
        s.append(self.base_type.get_format());
        s.append(">");
        assert(s@ =~= "id=<"@ + self@.id + "> type_as_string=<"@ + self@.type_as_string
            + "> pattern=<"@ + self@.pattern + "> format=<"@ + self@.format + ">"@);
        s
    }

    /// The format with which values of this type are read.
    pub fn base_type_format(&self) -> (r: &str)
        ensures
            r@ == self@.format,
    {
        self.base_type.get_format()
    }

    /// Sets the format with which values of this type are read.
    pub fn set_format(&mut self, fmt: &str)
        ensures
            final(self)@ == (FieldTypeView { format: fmt@, ..old(self)@ }),
    {
        self.base_type.set_format(fmt);
    }
}

} // verus!
