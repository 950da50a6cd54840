//! Loading a layout from its layout file, an XML document.
//!
//! The document is read by the `xml` crate into a run of events. Only the
//! start tags count: `meta` describes the layout as a whole, `map` gives the way
//! to tell the record of a line, `fieldtype` defines a field type, `record`
//! opens a record and `field` appends a field to the record opened last.

use std::rc::Rc;
use vstd::prelude::*;
use vstd::string::*;
use crate::error::{ErrorView, RbfError};
use crate::field::{larger, Field, FieldCreationType, FieldView};
use crate::layout::{
    key_position, lemma_key_position, record_names, type_ids, Layout, LayoutView,
};
use crate::mapper::{MapperView, RecordMapper};
use crate::number::{parse_usize, parse_usize_spec};
use crate::pattern::regex_compiles;
use crate::record::{lemma_push_wf, Record, RecordView};
use crate::text::str_eq;
use crate::types::base::Kind;
use crate::types::fieldtype::{FieldType, FieldTypeView};

verus! {

/// A start tag: its name and its attributes, names and values, in order.
#[derive(Debug)]
pub struct Element {
    pub name: String,
    pub attributes: Vec<(String, String)>,
}

/// What the reader of the document reports, one after the other.
#[derive(Debug)]
pub enum SchemaEvent {
    /// A start tag.
    Start(Element),
    /// Anything else: an end tag, text, a comment, the start or the end of the document.
    Other,
}

/// The content of a list of attributes.
pub open spec fn attributes_view(attributes: Seq<(String, String)>) -> Seq<(Seq<char>, Seq<char>)> {
    attributes.map_values(|a: (String, String)| (a.0@, a.1@))
}

/// The content of an event: the name and the attributes of a start tag,
/// nothing for another event.
pub open spec fn event_view(event: SchemaEvent) -> Option<(Seq<char>, Seq<(Seq<char>, Seq<char>)>)> {
    match event {
        SchemaEvent::Start(e) => Some((e.name@, attributes_view(e.attributes@))),
        SchemaEvent::Other => None,
    }
}

/// The content of a run of events.
pub open spec fn events_view(events: Seq<SchemaEvent>) -> Seq<
    Option<(Seq<char>, Seq<(Seq<char>, Seq<char>)>)>,
> {
    events.map_values(|e: SchemaEvent| event_view(e))
}

/// The content of an optional text.
pub open spec fn optional_view(text: Option<String>) -> Option<Seq<char>> {
    match text {
        Some(t) => Some(t@),
        None => None,
    }
}

/// What `xml::reader::EventReader` reads from a document: the events up to
/// the end of the document or up to the first error, each start tag with its
/// local name and the local names and values of its attributes; and the
/// message of that error, if there was one.
pub uninterp spec fn xml_document(content: Seq<u8>) -> (
    Seq<Option<(Seq<char>, Seq<(Seq<char>, Seq<char>)>)>>,
    Option<Seq<char>>,
);

/// Runs `xml::reader::EventReader::new` over `content` and walks its events
/// to the end, which comes after the end of the document or after the first
/// error. Start tags are handed on with their local names, other events as
/// `Other`, the error as its `to_string`.
#[verifier::external_body]
fn read_document(content: &[u8]) -> (r: (Vec<SchemaEvent>, Option<String>))
    ensures
        events_view(r.0@) == xml_document(content@).0,
        optional_view(r.1) == xml_document(content@).1,
{
    let mut events = Vec::new();
    for event in xml::reader::EventReader::new(content) {
        match event {
            Ok(xml::reader::XmlEvent::StartElement { name, attributes, .. }) => events.push(
                SchemaEvent::Start(Element {
                    name: name.local_name,
                    attributes: attributes.into_iter().map(|a| (a.name.local_name, a.value)).collect(),
                }),
            ),
            Ok(_) => events.push(SchemaEvent::Other),
            Err(e) => return (events, Some(e.to_string())),
        }
    }
    (events, None)
}

/// The value of the attribute `name`: that of its last occurrence.
pub open spec fn attribute(attributes: Seq<(Seq<char>, Seq<char>)>, name: Seq<char>) -> Option<
    Seq<char>,
>
    decreases attributes.len(),
{
    if attributes.len() == 0 {
        None
    } else if attributes.last().0 == name {
        Some(attributes.last().1)
    } else {
        attribute(attributes.drop_last(), name)
    }
}

/// The value of the attribute `name`, or the empty text if it is missing.
pub open spec fn optional_text(attributes: Seq<(Seq<char>, Seq<char>)>, name: Seq<char>) -> Seq<
    char,
> {
    match attribute(attributes, name) {
        Some(v) => v,
        None => Seq::empty(),
    }
}

/// The number that the attribute `name` writes, zero if it is missing, and
/// nothing if it writes no number.
pub open spec fn optional_number(attributes: Seq<(Seq<char>, Seq<char>)>, name: Seq<char>) -> Option<
    usize,
> {
    match attribute(attributes, name) {
        Some(v) => parse_usize_spec(v),
        None => Some(0usize),
    }
}

/// The error for an attribute that is missing or holds what it may not hold.
pub open spec fn invalid_attribute(file: Seq<char>, element: Seq<char>, name: Seq<char>) -> ErrorView {
    ErrorView::ErrorReadingLayoutFile(
        file,
        "element <"@ + element + ">: attribute <"@ + name + "> is missing or not valid"@,
    )
}

/// The error for a field that stands before the first record.
pub open spec fn misplaced_field(file: Seq<char>, field: Seq<char>) -> ErrorView {
    ErrorView::ErrorReadingLayoutFile(file, "field <"@ + field + "> stands outside any record"@)
}

/// The error for a field that reaches beyond what the machine can count.
pub open spec fn oversized_field(file: Seq<char>, field: Seq<char>) -> ErrorView {
    ErrorView::ErrorReadingLayoutFile(file, "field <"@ + field + "> does not fit in its record"@)
}

/// The field type that a `fieldtype` tag defines.
pub open spec fn type_of(attributes: Seq<(Seq<char>, Seq<char>)>, file: Seq<char>) -> Result<
    FieldTypeView,
    ErrorView,
> {
    let id = attribute(attributes, "name"@);
    let ty = attribute(attributes, "type"@);
    let pattern = attribute(attributes, "pattern"@);
    if id is None || id->0.len() == 0 {
        Err(invalid_attribute(file, "fieldtype"@, "name"@))
    } else if ty is None || Kind::named(ty->0) is None {
        Err(invalid_attribute(file, "fieldtype"@, "type"@))
    } else if pattern is Some && !regex_compiles(pattern->0) {
        Err(invalid_attribute(file, "fieldtype"@, "pattern"@))
    } else {
        Ok(
            FieldTypeView {
                id: id->0,
                type_as_string: ty->0,
                kind: Kind::named(ty->0)->0,
                format: optional_text(attributes, "format"@),
                pattern: optional_text(attributes, "pattern"@),
            },
        )
    }
}

/// The empty record that a `record` tag opens.
pub open spec fn record_of(attributes: Seq<(Seq<char>, Seq<char>)>, file: Seq<char>) -> Result<
    RecordView,
    ErrorView,
> {
    let name = attribute(attributes, "name"@);
    let description = attribute(attributes, "description"@);
    let length = optional_number(attributes, "length"@);
    if name is None || name->0.len() == 0 {
        Err(invalid_attribute(file, "record"@, "name"@))
    } else if description is None {
        Err(invalid_attribute(file, "record"@, "description"@))
    } else if length is None {
        Err(invalid_attribute(file, "record"@, "length"@))
    } else {
        Ok(RecordView::created(name->0, description->0, length->0 as nat))
    }
}

/// The field that a `field` tag defines: by its length if it gives one that
/// is not zero, otherwise by its `start` and `end`, both counted from 1.
pub open spec fn field_of(
    attributes: Seq<(Seq<char>, Seq<char>)>,
    ftypes: Seq<FieldTypeView>,
    file: Seq<char>,
) -> Result<FieldView, ErrorView> {
    let name = attribute(attributes, "name"@);
    let description = attribute(attributes, "description"@);
    let ty = attribute(attributes, "type"@);
    let length = optional_number(attributes, "length"@);
    let start = optional_number(attributes, "start"@);
    let end = optional_number(attributes, "end"@);
    if name is None || name->0.len() == 0 {
        Err(invalid_attribute(file, "field"@, "name"@))
    } else if description is None {
        Err(invalid_attribute(file, "field"@, "description"@))
    } else if ty is None {
        Err(invalid_attribute(file, "field"@, "type"@))
    } else if key_position(type_ids(ftypes), ty->0) is None {
        Err(ErrorView::ErrorLayoutNoFieldType(file, name->0, ty->0))
    } else if length is None {
        Err(invalid_attribute(file, "field"@, "length"@))
    } else if length->0 != 0 {
        Ok(
            FieldView::created(
                name->0,
                description->0,
                ftypes[key_position(type_ids(ftypes), ty->0)->0],
                length->0 as nat,
                0,
                0,
                larger(length->0 as nat, vstd::utf8::encode_utf8(name->0).len()),
                FieldCreationType::ByLength,
            ),
        )
    } else if start is None || start->0 < 1 {
        Err(invalid_attribute(file, "field"@, "start"@))
    } else if end is None || end->0 < start->0 {
        Err(invalid_attribute(file, "field"@, "end"@))
    } else {
        Ok(
            FieldView::created(
                name->0,
                description->0,
                ftypes[key_position(type_ids(ftypes), ty->0)->0],
                (end->0 - start->0 + 1) as nat,
                (start->0 - 1) as nat,
                (end->0 - 1) as nat,
                larger((end->0 - start->0 + 1) as nat, vstd::utf8::encode_utf8(name->0).len()),
                FieldCreationType::ByOffset,
            ),
        )
    }
}

/// A layout while it is loaded.
pub struct Loading {
    /// What was loaded so far.
    pub layout: LayoutView,
    /// The type of the mapper, as the `map` tag gives it.
    pub mtype: Seq<char>,
    /// The domain of the mapper, as the `map` tag gives it.
    pub domain: Seq<char>,
    /// Where the record that was opened last stands.
    pub current: Option<int>,
}

impl Loading {
    /// Nothing loaded yet.
    pub open spec fn start(file: Seq<char>) -> Loading {
        Loading {
            layout: LayoutView {
                xml_file: file,
                rec_length: 0,
                version: Seq::empty(),
                description: Seq::empty(),
                schema: Seq::empty(),
                records: Seq::empty(),
                ftypes: Seq::empty(),
                mapper: MapperView::Identity,
            },
            mtype: Seq::empty(),
            domain: Seq::empty(),
            current: None,
        }
    }

    /// After a `meta` tag.
    pub open spec fn meta(self, attributes: Seq<(Seq<char>, Seq<char>)>, file: Seq<char>) -> Result<
        Loading,
        ErrorView,
    > {
        match optional_number(attributes, "reclength"@) {
            None => Err(invalid_attribute(file, "meta"@, "reclength"@)),
            Some(n) => Ok(
                Loading {
                    layout: LayoutView {
                        rec_length: n as nat,
                        version: optional_text(attributes, "version"@),
                        description: optional_text(attributes, "description"@),
                        schema: optional_text(attributes, "schema"@),
                        ..self.layout
                    },
                    ..self
                },
            ),
        }
    }

    /// After a `map` tag.
    pub open spec fn map(self, attributes: Seq<(Seq<char>, Seq<char>)>) -> Loading {
        Loading {
            mtype: optional_text(attributes, "type"@),
            domain: optional_text(attributes, "domain"@),
            ..self
        }
    }

    /// After a `fieldtype` tag: the field type takes the place of the one
    /// with the same id, or comes last.
    pub open spec fn fieldtype(self, attributes: Seq<(Seq<char>, Seq<char>)>, file: Seq<char>) -> Result<
        Loading,
        ErrorView,
    > {
        match type_of(attributes, file) {
            Err(e) => Err(e),
            Ok(t) => Ok(
                Loading {
                    layout: LayoutView {
                        ftypes: match key_position(type_ids(self.layout.ftypes), t.id) {
                            Some(i) => self.layout.ftypes.update(i, t),
                            None => self.layout.ftypes.push(t),
                        },
                        ..self.layout
                    },
                    ..self
                },
            ),
        }
    }

    /// After a `record` tag: the empty record takes the place of the one
    /// with the same name, or comes last; the fields that follow go to it.
    pub open spec fn record(self, attributes: Seq<(Seq<char>, Seq<char>)>, file: Seq<char>) -> Result<
        Loading,
        ErrorView,
    > {
        match record_of(attributes, file) {
            Err(e) => Err(e),
            Ok(r) => match key_position(record_names(self.layout.records), r.name) {
                Some(i) => Ok(
                    Loading {
                        layout: LayoutView {
                            records: self.layout.records.update(i, r),
                            ..self.layout
                        },
                        current: Some(i),
                        ..self
                    },
                ),
                None => Ok(
                    Loading {
                        layout: LayoutView { records: self.layout.records.push(r), ..self.layout },
                        current: Some(self.layout.records.len() as int),
                        ..self
                    },
                ),
            },
        }
    }

    /// After a `field` tag: the field is appended to the record opened last.
    pub open spec fn field(self, attributes: Seq<(Seq<char>, Seq<char>)>, file: Seq<char>) -> Result<
        Loading,
        ErrorView,
    > {
        match field_of(attributes, self.layout.ftypes, file) {
            Err(e) => Err(e),
            Ok(f) => if self.current is None {
                Err(misplaced_field(file, f.name))
            } else if !self.layout.records[self.current->0].admits(f) {
                Err(oversized_field(file, f.name))
            } else {
                Ok(
                    Loading {
                        layout: LayoutView {
                            records: self.layout.records.update(
                                self.current->0,
                                self.layout.records[self.current->0].push(f),
                            ),
                            ..self.layout
                        },
                        ..self
                    },
                )
            },
        }
    }

    /// After one event.
    pub open spec fn step(
        self,
        event: Option<(Seq<char>, Seq<(Seq<char>, Seq<char>)>)>,
        file: Seq<char>,
    ) -> Result<Loading, ErrorView> {
        match event {
            None => Ok(self),
            Some(e) => if e.0 == "meta"@ {
                self.meta(e.1, file)
            } else if e.0 == "map"@ {
                Ok(self.map(e.1))
            } else if e.0 == "fieldtype"@ {
                self.fieldtype(e.1, file)
            } else if e.0 == "record"@ {
                self.record(e.1, file)
            } else if e.0 == "field"@ {
                self.field(e.1, file)
            } else {
                Ok(self)
            },
        }
    }

    /// After a run of events, up to the first that fails.
    pub open spec fn after(
        self,
        events: Seq<Option<(Seq<char>, Seq<(Seq<char>, Seq<char>)>)>>,
        file: Seq<char>,
    ) -> Result<Loading, ErrorView>
        decreases events.len(),
    {
        if events.len() == 0 {
            Ok(self)
        } else {
            match self.after(events.drop_last(), file) {
                Err(e) => Err(e),
                Ok(s) => s.step(events.last(), file),
            }
        }
    }

    /// The layout at the end of the document. A document that ended on an
    /// error gives that error; a mapper of another type than `constant` and
    /// `range`, or a range that cannot be read, is an error too.
    pub open spec fn finished(self, failure: Option<Seq<char>>, file: Seq<char>) -> Result<
        LayoutView,
        ErrorView,
    > {
        match failure {
            Some(cause) => Err(ErrorView::ErrorReadingLayoutFile(file, cause)),
            None => match MapperView::configured(self.mtype, self.domain) {
                Some(m) => Ok(LayoutView { mapper: m, ..self.layout }),
                None => if self.mtype == "range"@ {
                    Err(invalid_attribute(file, "map"@, "domain"@))
                } else {
                    Err(invalid_attribute(file, "map"@, "type"@))
                },
            },
        }
    }

    /// Whether the record opened last is a record of the layout, and the
    /// layout is well formed.
    pub open spec fn wf(self) -> bool {
        &&& self.current is Some ==> 0 <= self.current->0 < self.layout.records.len()
        &&& self.layout.wf()
    }
}

/// The layout that a document describes, given the events and the error
/// that reading the document gave.
pub open spec fn loaded(
    file: Seq<char>,
    events: Seq<Option<(Seq<char>, Seq<(Seq<char>, Seq<char>)>)>>,
    failure: Option<Seq<char>>,
) -> Result<LayoutView, ErrorView> {
    match Loading::start(file).after(events, file) {
        Err(e) => Err(e),
        Ok(s) => s.finished(failure, file),
    }
}

/// The view of a layout or of the error in its place.
pub open spec fn layout_result<T>(r: Result<Layout<T>, RbfError>) -> Result<LayoutView, ErrorView> {
    match r {
        Ok(l) => Ok(l@),
        Err(e) => Err(e@),
    }
}

/// Looks an attribute up.
pub fn find_attribute<'a>(attributes: &'a Vec<(String, String)>, name: &str) -> (r: Option<&'a str>)
    ensures
        optional_str_view(r) == attribute(attributes_view(attributes@), name@),
{
    let ghost all = attributes_view(attributes@);
    let mut i: usize = attributes.len();
    assert(all.take(i as int) =~= all);
    while i > 0
        invariant
            i <= attributes.len(),
            all == attributes_view(attributes@),
            attribute(all, name@) == attribute(all.take(i as int), name@),
        decreases i,
    {
        i -= 1;
        assert(all.take(i + 1).drop_last() =~= all.take(i as int));
        assert(all.take(i + 1).last() == (attributes[i as int].0@, attributes[i as int].1@));
        if str_eq(attributes[i].0.as_str(), name) {
            return Some(attributes[i].1.as_str());
        }
    }
    None
}

/// The content of an optional slice.
pub open spec fn optional_str_view(text: Option<&str>) -> Option<Seq<char>> {
    match text {
        Some(t) => Some(t@),
        None => None,
    }
}

/// Reads the text of an attribute that may be missing.
fn text_attribute(attributes: &Vec<(String, String)>, name: &str) -> (r: String)
    ensures
        r@ == optional_text(attributes_view(attributes@), name@),
{
    match find_attribute(attributes, name) {
        Some(v) => v.to_owned(),
        None => String::new(),
    }
}

/// Reads the number of an attribute that may be missing.
fn number_attribute(attributes: &Vec<(String, String)>, name: &str) -> (r: Option<usize>)
    ensures
        r == optional_number(attributes_view(attributes@), name@),
{
    match find_attribute(attributes, name) {
        Some(v) => parse_usize(v),
        None => Some(0),
    }
}

/// Makes the error for an attribute that is missing or not valid.
fn invalid(file: &str, element: &str, name: &str) -> (r: RbfError)
    ensures
        r@ == invalid_attribute(file@, element@, name@),
{
    let mut cause = String::new();
    cause.append("element <");
    cause.append(element);
    cause.append(">: attribute <");
    cause.append(name);
    cause.append("> is missing or not valid");
    assert(cause@ =~= "element <"@ + element@ + ">: attribute <"@ + name@
        + "> is missing or not valid"@);
    RbfError::ErrorReadingLayoutFile(file.to_owned(), cause)
}

/// Makes an error about the field `field`.
fn field_fault(file: &str, field: &str, what: &str) -> (r: RbfError)
    ensures
        r@ == ErrorView::ErrorReadingLayoutFile(file@, "field <"@ + field@ + what@),
{
    let mut cause = String::new();
    cause.append("field <");
    cause.append(field);
    cause.append(what);
    assert(cause@ =~= "field <"@ + field@ + what@);
    RbfError::ErrorReadingLayoutFile(file.to_owned(), cause)
}

/// Reads the field type that a `fieldtype` tag defines.
fn read_type(attributes: &Vec<(String, String)>, file: &str) -> (r: Result<FieldType, RbfError>)
    ensures
        match r {
            Ok(t) => type_of(attributes_view(attributes@), file@) == Ok::<FieldTypeView, ErrorView>(
                t@,
            ),
            Err(e) => type_of(attributes_view(attributes@), file@) == Err::<
                FieldTypeView,
                ErrorView,
            >(e@),
        },
{
    let id = match find_attribute(attributes, "name") {
        Some(v) => v,
        None => { return Err(invalid(file, "fieldtype", "name")); },
    };
    if id.is_empty() {
        return Err(invalid(file, "fieldtype", "name"));
    }
    let ty = match find_attribute(attributes, "type") {
        Some(v) => v,
        None => { return Err(invalid(file, "fieldtype", "type")); },
    };
    let mut ft = match FieldType::try_new(id, ty) {
        Some(t) => t,
        None => { return Err(invalid(file, "fieldtype", "type")); },
    };
    match find_attribute(attributes, "pattern") {
        Some(p) => {
            if !ft.set_pattern(p) {
                return Err(invalid(file, "fieldtype", "pattern"));
            }
        },
        None => {},
    }
    match find_attribute(attributes, "format") {
        Some(f) => {
            ft.set_format(f);
        },
        None => {},
    }
    Ok(ft)
}

/// Reads the empty record that a `record` tag opens.
fn read_record<T>(attributes: &Vec<(String, String)>, file: &str) -> (r: Result<Record<T>, RbfError>)
    ensures
        match r {
            Ok(rec) => record_of(attributes_view(attributes@), file@) == Ok::<RecordView, ErrorView>(
                rec@,
            ) && rec@.wf(),
            Err(e) => record_of(attributes_view(attributes@), file@) == Err::<RecordView, ErrorView>(
                e@,
            ),
        },
{
    let name = match find_attribute(attributes, "name") {
        Some(v) => v,
        None => { return Err(invalid(file, "record", "name")); },
    };
    if name.is_empty() {
        return Err(invalid(file, "record", "name"));
    }
    let description = match find_attribute(attributes, "description") {
        Some(v) => v,
        None => { return Err(invalid(file, "record", "description")); },
    };
    let length = match number_attribute(attributes, "length") {
        Some(n) => n,
        None => { return Err(invalid(file, "record", "length")); },
    };
    Ok(Record::new(name, description, length))
}

/// Reads the field that a `field` tag defines.
fn read_field<T>(attributes: &Vec<(String, String)>, layout: &Layout<T>, file: &str) -> (r: Result<
    Field,
    RbfError,
>)
    ensures
        match r {
            Ok(f) => field_of(attributes_view(attributes@), layout@.ftypes, file@) == Ok::<
                FieldView,
                ErrorView,
            >(f@) && f@.wf(),
            Err(e) => field_of(attributes_view(attributes@), layout@.ftypes, file@) == Err::<
                FieldView,
                ErrorView,
            >(e@),
        },
{
    let name = match find_attribute(attributes, "name") {
        Some(v) => v,
        None => { return Err(invalid(file, "field", "name")); },
    };
    if name.is_empty() {
        return Err(invalid(file, "field", "name"));
    }
    let description = match find_attribute(attributes, "description") {
        Some(v) => v,
        None => { return Err(invalid(file, "field", "description")); },
    };
    let ty = match find_attribute(attributes, "type") {
        Some(v) => v,
        None => { return Err(invalid(file, "field", "type")); },
    };
    let ft = match layout.get_type(ty) {
        Some(t) => t,
        None => {
            return Err(
                RbfError::ErrorLayoutNoFieldType(file.to_owned(), name.to_owned(), ty.to_owned()),
            );
        },
    };
    let length = match number_attribute(attributes, "length") {
        Some(n) => n,
        None => { return Err(invalid(file, "field", "length")); },
    };
    if length != 0 {
        return Ok(Field::from_length(name, description, ft, length));
    }
    let start = match number_attribute(attributes, "start") {
        Some(n) => n,
        None => { return Err(invalid(file, "field", "start")); },
    };
    if start < 1 {
        return Err(invalid(file, "field", "start"));
    }
    let end = match number_attribute(attributes, "end") {
        Some(n) => n,
        None => { return Err(invalid(file, "field", "end")); },
    };
    if end < start {
        return Err(invalid(file, "field", "end"));
    }
    Ok(Field::from_offset(name, description, ft, start, end))
}

/// A layout while it is loaded.
pub struct Loader<T> {
    pub layout: Layout<T>,
    pub mtype: String,
    pub domain: String,
    pub current: Option<usize>,
}

impl<T> View for Loader<T> {
    type V = Loading;

    open spec fn view(&self) -> Loading {
        Loading {
            layout: self.layout@,
            mtype: self.mtype@,
            domain: self.domain@,
            current: match self.current {
                Some(i) => Some(i as int),
                None => None,
            },
        }
    }
}

/// The view of a loader or of the error in its place.
pub open spec fn loader_result<T>(r: Result<Loader<T>, RbfError>) -> Result<Loading, ErrorView> {
    match r {
        Ok(l) => Ok(l@),
        Err(e) => Err(e@),
    }
}

impl<T> Loader<T> {
    /// A loader that has loaded nothing yet.
    pub fn new(xml_file: &str) -> (r: Loader<T>)
        ensures
            r@ == Loading::start(xml_file@),
            r@.wf(),
    {
        let r = Loader {
            layout: Layout {
                xml_file: xml_file.to_owned(),
                rec_length: 0,
                version: String::new(),
                description: String::new(),
                schema: String::new(),
                rec_map: Vec::new(),
                ftypes: Vec::new(),
                mapper: RecordMapper::default(),
            },
            mtype: String::new(),
            domain: String::new(),
            current: None,
        };
        assert(r@.layout.records =~= Seq::<RecordView>::empty());
        assert(r@.layout.ftypes =~= Seq::<FieldTypeView>::empty());
        r
    }

    /// Takes in one event.
    pub fn step(self, event: &SchemaEvent, file: &str) -> (r: Result<Loader<T>, RbfError>)
        requires
            self@.wf(),
        ensures
            loader_result(r) == self@.step(event_view(*event), file@),
            r is Ok ==> r->Ok_0@.wf(),
    {
        proof {
            lemma_step_keeps(self@, event_view(*event), file@);
        }
        let mut loader = self;
        let element = match event {
            SchemaEvent::Start(e) => e,
            SchemaEvent::Other => { return Ok(loader); },
        };
        let attributes = &element.attributes;
        let tag = element.name.as_str();
        if str_eq(tag, "meta") {
            match number_attribute(attributes, "reclength") {
                Some(n) => {
                    loader.layout.rec_length = n;
                    loader.layout.version = text_attribute(attributes, "version");
                    loader.layout.description = text_attribute(attributes, "description");
                    loader.layout.schema = text_attribute(attributes, "schema");
                    Ok(loader)
                },
                None => Err(invalid(file, "meta", "reclength")),
            }
        } else if str_eq(tag, "map") {
            loader.mtype = text_attribute(attributes, "type");
            loader.domain = text_attribute(attributes, "domain");
            Ok(loader)
        } else if str_eq(tag, "fieldtype") {
            match read_type(attributes, file) {
                Ok(t) => {
                    let ghost before = loader@.layout.ftypes;
                    match loader.layout.find_type(t.id.as_str()) {
                        Some(i) => {
                            loader.layout.ftypes[i] = Rc::new(t);
                            assert(loader@.layout.ftypes =~= before.update(i as int, t@));
                        },
                        None => {
                            loader.layout.ftypes.push(Rc::new(t));
                            assert(loader@.layout.ftypes =~= before.push(t@));
                        },
                    }
                    Ok(loader)
                },
                Err(e) => Err(e),
            }
        } else if str_eq(tag, "record") {
            match read_record::<T>(attributes, file) {
                Ok(rec) => {
                    let ghost before = loader@.layout.records;
                    match loader.layout.find_record(rec.name.as_str()) {
                        Some(i) => {
                            loader.layout.rec_map[i] = rec;
                            loader.current = Some(i);
                            assert(loader@.layout.records =~= before.update(i as int, rec@));
                        },
                        None => {
                            loader.current = Some(loader.layout.rec_map.len());
                            loader.layout.rec_map.push(rec);
                            assert(loader@.layout.records =~= before.push(rec@));
                        },
                    }
                    Ok(loader)
                },
                Err(e) => Err(e),
            }
        } else if str_eq(tag, "field") {
            match read_field(attributes, &loader.layout, file) {
                Ok(f) => {
                    let i = match loader.current {
                        Some(i) => i,
                        None => {
                            return Err(
                                field_fault(file, f.name.as_str(), "> stands outside any record"),
                            );
                        },
                    };
                    let ghost before = loader@.layout.records;
                    assert(before[i as int] == loader.layout.rec_map[i as int]@);
                    if !loader.layout.rec_map[i].can_push(&f) {
                        return Err(field_fault(file, f.name.as_str(), "> does not fit in its record"));
                    }
                    let ghost given = f@;
                    loader.layout.rec_map[i].push(f);
                    assert(loader@.layout.records =~= before.update(
                        i as int,
                        before[i as int].push(given),
                    ));
                    Ok(loader)
                },
                Err(e) => Err(e),
            }
        } else {
            Ok(loader)
        }
    }

    /// Ends the loading: builds the mapper, unless the document ended on an error.
    pub fn finish(self, failure: Option<String>, file: &str) -> (r: Result<Layout<T>, RbfError>)
        ensures
            layout_result(r) == self@.finished(optional_view(failure), file@),
            self@.wf() && r is Ok ==> r->Ok_0@.wf(),
    {
        match failure {
            Some(cause) => Err(RbfError::ErrorReadingLayoutFile(file.to_owned(), cause)),
            None => {
                let mut layout = self.layout;
                match RecordMapper::new(self.mtype.as_str(), self.domain.as_str()) {
                    Some(m) => {
                        layout.mapper = m;
                        Ok(layout)
                    },
                    None => {
                        if str_eq(self.mtype.as_str(), "range") {
                            Err(invalid(file, "map", "domain"))
                        } else {
                            Err(invalid(file, "map", "type"))
                        }
                    },
                }
            },
        }
    }
}

impl<T> Layout<T> {
    /// Builds the layout from the events that reading the layout file gave,
    /// and from the error on which the reading ended, if it ended on one.
    pub fn from_events(xml_file: &str, events: &Vec<SchemaEvent>, failure: Option<String>) -> (r:
        Result<Layout<T>, RbfError>)
        ensures
            layout_result(r) == loaded(xml_file@, events_view(events@), optional_view(failure)),
            r is Ok ==> r->Ok_0@.wf(),
    {
        let ghost all = events_view(events@);
        let mut loader = Loader::<T>::new(xml_file);
        let mut i: usize = 0;
        assert(all.take(0) =~= Seq::empty());
        while i < events.len()
            invariant
                i <= events.len(),
                all == events_view(events@),
                loader@.wf(),
                Loading::start(xml_file@).after(all.take(i as int), xml_file@) == Ok::<
                    Loading,
                    ErrorView,
                >(loader@),
            decreases events.len() - i,
        {
            assert(all.take(i + 1).drop_last() =~= all.take(i as int));
            assert(all.take(i + 1).last() == event_view(events@[i as int]));
            match loader.step(&events[i], xml_file) {
                Ok(next) => {
                    loader = next;
                },
                Err(e) => {
                    proof {
                        lemma_loading_fails(Loading::start(xml_file@), all, xml_file@, i + 1);
                    }
                    return Err(e);
                },
            }
            i += 1;
        }
        assert(all.take(i as int) =~= all);
        loader.finish(failure, xml_file)
    }

    /// Reads the XML layout file to create record and field structs.
    ///
    /// # Arguments
    ///
    /// * `xml_file` - full file name and path of the XML layout file
    /// * `content` - what the file holds
    pub fn new(xml_file: &str, content: &[u8]) -> (r: Result<Layout<T>, RbfError>)
        ensures
            layout_result(r) == loaded(
                xml_file@,
                xml_document(content@).0,
                xml_document(content@).1,
            ),
            r is Ok ==> r->Ok_0@.wf(),
    {
        let (events, failure) = read_document(content);
        Layout::from_events(xml_file, &events, failure)
    }
}

/// A key that stands among the keys still stands among them when a key is added.
pub proof fn lemma_key_stays(keys: Seq<Seq<char>>, name: Seq<char>, added: Seq<char>)
    requires
        key_position(keys, name) is Some,
    ensures
        key_position(keys.push(added), name) is Some,
{
    assert(keys.push(added).drop_last() =~= keys);
}

/// One event keeps a well-formed layout well formed: record names and type
/// ids stay distinct, records stay well formed, and the type of every field
/// stays registered.
pub proof fn lemma_step_keeps(
    s: Loading,
    event: Option<(Seq<char>, Seq<(Seq<char>, Seq<char>)>)>,
    file: Seq<char>,
)
    requires
        s.wf(),
    ensures
        s.step(event, file) is Ok ==> s.step(event, file)->Ok_0.wf(),
{
    let r = s.step(event, file);
    if r is Ok && event is Some {
        let after = r->Ok_0;
        let start = event->0;
        let tag = start.0;
        let attributes = start.1;
        let ids = type_ids(s.layout.ftypes);
        let names = record_names(s.layout.records);
        if tag == "meta"@ || tag == "map"@ {
            assert(after.layout.records == s.layout.records);
            assert(after.layout.ftypes == s.layout.ftypes);
        } else if tag == "fieldtype"@ {
            let t = type_of(attributes, file)->Ok_0;
            lemma_key_position(ids, t.id);
            let ids_after = type_ids(after.layout.ftypes);
            match key_position(ids, t.id) {
                Some(i) => {
                    assert(ids_after =~= ids);
                },
                None => {
                    assert(ids_after =~= ids.push(t.id));
                    assert forall|i: int, j: int|
                        0 <= i < after.layout.records.len() && 0 <= j
                            < after.layout.records[i].fields.len() implies key_position(
                        ids_after,
                        (#[trigger] after.layout.records[i].fields[j]).ftype.id,
                    ) is Some by {
                        lemma_key_stays(ids, s.layout.records[i].fields[j].ftype.id, t.id);
                    }
                },
            }
            assert forall|i: int, j: int|
                0 <= i < j < after.layout.ftypes.len() implies (#[trigger] after.layout.ftypes[i]).id
                != (#[trigger] after.layout.ftypes[j]).id by {
                assert(ids_after[i] == after.layout.ftypes[i].id);
                assert(ids_after[j] == after.layout.ftypes[j].id);
                if i < ids.len() {
                    assert(ids[i] == s.layout.ftypes[i].id);
                }
                if j < ids.len() {
                    assert(ids[j] == s.layout.ftypes[j].id);
                }
            }
        } else if tag == "record"@ {
            let rec = record_of(attributes, file)->Ok_0;
            lemma_key_position(names, rec.name);
            assert(rec.fields.len() == 0);
            assert(rec.wf());
            assert forall|i: int, j: int|
                0 <= i < j < after.layout.records.len() implies (#[trigger] after.layout.records[i]).name
                != (#[trigger] after.layout.records[j]).name by {
                if i < names.len() {
                    assert(names[i] == s.layout.records[i].name);
                }
                if j < names.len() {
                    assert(names[j] == s.layout.records[j].name);
                }
            }
            assert forall|i: int, j: int|
                0 <= i < after.layout.records.len() && 0 <= j
                    < after.layout.records[i].fields.len() implies key_position(
                ids,
                (#[trigger] after.layout.records[i].fields[j]).ftype.id,
            ) is Some by {
                assert(after.layout.records[i] == s.layout.records[i]);
            }
            assert forall|i: int| 0 <= i < after.layout.records.len() implies (
            #[trigger] after.layout.records[i]).wf() by {
                if after.layout.records[i] != rec {
                    assert(after.layout.records[i] == s.layout.records[i]);
                }
            }
        } else if tag == "field"@ {
            let f = field_of(attributes, s.layout.ftypes, file)->Ok_0;
            let cur = s.current->0;
            let old_rec = s.layout.records[cur];
            let new_rec = old_rec.push(f);
            let ty = attribute(attributes, "type"@)->0;
            lemma_key_position(ids, ty);
            lemma_push_wf(old_rec, f);
            assert(f.ftype == s.layout.ftypes[key_position(ids, ty)->0]);
            assert(ids[key_position(ids, ty)->0] == f.ftype.id);
            assert(after.layout.records =~= s.layout.records.update(cur, new_rec));
            assert forall|i: int, j: int|
                0 <= i < j < after.layout.records.len() implies (#[trigger] after.layout.records[i]).name
                != (#[trigger] after.layout.records[j]).name by {
                assert(s.layout.records[i].name != s.layout.records[j].name);
            }
            assert forall|i: int, j: int|
                0 <= i < after.layout.records.len() && 0 <= j
                    < after.layout.records[i].fields.len() implies key_position(
                ids,
                (#[trigger] after.layout.records[i].fields[j]).ftype.id,
            ) is Some by {
                if i == cur {
                    if j < old_rec.fields.len() {
                        assert(new_rec.fields[j] == old_rec.fields[j]);
                    } else {
                        assert(new_rec.fields[j].ftype == f.ftype);
                    }
                } else {
                    assert(after.layout.records[i] == s.layout.records[i]);
                }
            }
            assert forall|i: int| 0 <= i < after.layout.records.len() implies (
            #[trigger] after.layout.records[i]).wf() by {
                if i != cur {
                    assert(after.layout.records[i] == s.layout.records[i]);
                }
            }
        }
    }
}

/// Where loading fails on the first `k` events, it fails in the same way on all.
pub proof fn lemma_loading_fails(
    start: Loading,
    events: Seq<Option<(Seq<char>, Seq<(Seq<char>, Seq<char>)>)>>,
    file: Seq<char>,
    k: int,
)
    requires
        0 <= k <= events.len(),
        start.after(events.take(k), file) is Err,
    ensures
        start.after(events, file) == start.after(events.take(k), file),
    decreases events.len() - k,
{
    if k < events.len() {
        assert(events.take(k + 1).drop_last() =~= events.take(k));
        lemma_loading_fails(start, events, file, k + 1);
    } else {
        assert(events.take(k) =~= events);
    }
}

} // verus!
