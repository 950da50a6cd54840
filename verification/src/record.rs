//! Represents a record by its name, description and length. Each record contains a list of fields
//! which hold values when reading a record-based file.
//!
//! A record is filled from a line of text in one of two modes, which differ
//! only in how the line is measured and cut: byte by byte for ASCII text,
//! codepoint by codepoint for UTF-8 text.

use std::marker::PhantomData;
use vstd::prelude::*;
use vstd::string::*;
use vstd::utf8::is_ascii_chars;
use crate::error::{ErrorView, RbfError};
use crate::field::{Field, FieldCreationType, FieldView};
use crate::filter::recordfilter::{all_match, and_also, any_matches, RecordFilter};
use crate::types::compare::outcome;
use crate::text::{
    decimal, padded, push_decimal, slice, spaces, str_eq, texts, width,
};

verus! {

/// Marker of records that are cut byte by byte. The lines must be ASCII.
#[derive(Debug)]
pub struct AsciiMode;

/// Marker of records that are cut codepoint by codepoint.
#[derive(Debug)]
pub struct UTF8Mode;

/// Filling a record from a line of text.
pub trait ReadMode: View<V = RecordView> + Sized {
    /// Whether lines are cut byte by byte, which takes ASCII lines.
    spec fn bytewise() -> bool;

    /// Sets the record value (which is equivalent to setting all fields).
    ///
    /// The line is first extended with blanks to the length of the record,
    /// if it is shorter; then every field gets the part of the line between
    /// its offsets. The record must be well formed.
    fn set_value(&mut self, value: &str)
        requires
            old(self)@.wf(),
            Self::bytewise() ==> is_ascii_chars(value@),
        ensures
            final(self)@ == old(self)@.loaded(value@),
            final(self)@.wf(),
    ;
}

#[derive(Debug)]
pub struct Record<T> {
    /// Record name
    pub name: String,
    /// Record description
    pub description: String,
    /// Within a layout, records might have different lengths. In that case, this holds individual record length
    pub declared_length: usize,
    /// List of fields composing the record
    pub flist: Vec<Field>,
    /// The end of the field that reaches furthest
    pub calculated_length: usize,
    /// Reader mode struct, just a place holder
    pub reader_mode: PhantomData<T>,
}

/// The mathematical content of a record.
pub struct RecordView {
    pub name: Seq<char>,
    pub description: Seq<char>,
    pub declared_length: nat,
    pub fields: Seq<FieldView>,
    pub calculated_length: nat,
}

impl<T> View for Record<T> {
    type V = RecordView;

    open spec fn view(&self) -> RecordView {
        RecordView {
            name: self.name@,
            description: self.description@,
            declared_length: self.declared_length as nat,
            fields: self.flist@.map_values(|f: Field| f@),
            calculated_length: self.calculated_length as nat,
        }
    }
}

/// The content of each of the fields that `v` refers to.
pub open spec fn ref_views(v: Seq<&Field>) -> Seq<FieldView> {
    v.map_values(|f: &Field| f@)
}

/// The greatest multiplicity among the fields called `name`, if there is one.
pub open spec fn top_multiplicity(fields: Seq<FieldView>, name: Seq<char>) -> Option<nat>
    decreases fields.len(),
{
    if fields.len() == 0 {
        None
    } else {
        let rest = top_multiplicity(fields.drop_last(), name);
        let last = fields.last();
        if last.name != name {
            rest
        } else if rest is Some && rest->0 > last.multiplicity {
            rest
        } else {
            Some(last.multiplicity)
        }
    }
}

/// The fields called `name`, in order.
pub open spec fn named(fields: Seq<FieldView>, name: Seq<char>) -> Seq<FieldView>
    decreases fields.len(),
{
    if fields.len() == 0 {
        Seq::empty()
    } else if fields.last().name == name {
        named(fields.drop_last(), name).push(fields.last())
    } else {
        named(fields.drop_last(), name)
    }
}

/// The fields whose mark in `keep` is `wanted`, in order.
pub open spec fn selected(fields: Seq<FieldView>, keep: Seq<bool>, wanted: bool) -> Seq<FieldView>
    decreases fields.len(),
{
    if fields.len() == 0 || keep.len() != fields.len() {
        Seq::empty()
    } else if keep.last() == wanted {
        selected(fields.drop_last(), keep.drop_last(), wanted).push(fields.last())
    } else {
        selected(fields.drop_last(), keep.drop_last(), wanted)
    }
}

/// For every field, whether its name is one of `names`.
pub open spec fn listed_in(fields: Seq<FieldView>, names: Seq<Seq<char>>) -> Seq<bool> {
    Seq::new(fields.len(), |k: int| names.contains(fields[k].name))
}

/// The raw values of the fields, one after the other.
pub open spec fn joined(fields: Seq<FieldView>) -> Seq<char>
    decreases fields.len(),
{
    if fields.len() == 0 {
        Seq::empty()
    } else {
        joined(fields.drop_last()) + fields.last().raw_value
    }
}

/// The fields written as `NAME='value'` and separated by commas.
pub open spec fn listed(fields: Seq<FieldView>) -> Seq<char>
    decreases fields.len(),
{
    if fields.len() == 0 {
        Seq::empty()
    } else if fields.len() == 1 {
        fields.last().name + "='"@ + fields.last().str_value + "'"@
    } else {
        listed(fields.drop_last()) + ","@ + fields.last().name + "='"@ + fields.last().str_value
            + "'"@
    }
}

/// Every field with the part of `line` between its offsets as its value.
pub open spec fn cut(fields: Seq<FieldView>, line: Seq<char>) -> Seq<FieldView> {
    Seq::new(
        fields.len(),
        |i: int|
            fields[i].with_value(
                line.subrange(fields[i].lower_offset as int, fields[i].upper_offset as int + 1),
            ),
    )
}

impl RecordView {
    /// An empty record.
    pub open spec fn created(name: Seq<char>, description: Seq<char>, length: nat) -> RecordView {
        RecordView {
            name,
            description,
            declared_length: length,
            fields: Seq::empty(),
            calculated_length: 0,
        }
    }

    /// The record as it was before any field was appended to it.
    pub open spec fn created_anew(self) -> RecordView {
        RecordView::created(self.name, self.description, self.declared_length)
    }

    /// `field` as the record stores it when it is appended: with its index,
    /// its origin, its bounds, its multiplicity and its identifier.
    ///
    /// A field created by length starts where the record ends. A field whose
    /// name the record already holds gets the greatest multiplicity under
    /// that name plus one.
    pub open spec fn placed(self, field: FieldView) -> FieldView {
        let by_length = field.creation_type == FieldCreationType::ByLength;
        let multiplicity = match top_multiplicity(self.fields, field.name) {
            Some(m) => m + 1,
            None => field.multiplicity,
        };
        FieldView {
            index: self.fields.len(),
            offset_from_origin: self.calculated_length,
            lower_offset: if by_length {
                self.calculated_length
            } else {
                field.lower_offset
            },
            upper_offset: if by_length {
                (self.calculated_length + field.length - 1) as nat
            } else {
                field.upper_offset
            },
            multiplicity,
            id: field.name + decimal(multiplicity),
            ..field
        }
    }

    /// The record with `field` appended. Its length becomes the end of the
    /// new field if that lies further than the record reached before.
    pub open spec fn push(self, field: FieldView) -> RecordView {
        let placed = self.placed(field);
        RecordView {
            fields: self.fields.push(placed),
            calculated_length: if self.calculated_length < placed.upper_offset + 1 {
                placed.upper_offset + 1
            } else {
                self.calculated_length
            },
            ..self
        }
    }

    /// Whether `field` can be appended within the limits of the machine.
    pub open spec fn admits(self, field: FieldView) -> bool {
        &&& field.wf()
        &&& self.placed(field).upper_offset < usize::MAX
        &&& self.placed(field).multiplicity <= usize::MAX
    }

    /// What a record keeps: a name, and fields that are well formed, span
    /// their length and end within the record.
    pub open spec fn wf(self) -> bool {
        &&& self.name.len() > 0
        &&& forall|i: int|
            0 <= i < self.fields.len() ==> {
                &&& (#[trigger] self.fields[i]).wf()
                &&& self.fields[i].spans()
                &&& self.fields[i].upper_offset < self.calculated_length
            }
    }

    /// The record with only the fields whose name is (`wanted`) or is not
    /// (otherwise) one of `names`.
    pub open spec fn restricted(self, names: Seq<Seq<char>>, wanted: bool) -> RecordView {
        RecordView { fields: selected(self.fields, listed_in(self.fields, names), wanted), ..self }
    }

    /// Whether the record holds a field called `name`.
    pub open spec fn contains(self, name: Seq<char>) -> bool {
        named(self.fields, name).len() > 0
    }

    /// The record with every field cut out of `line`, from its lower to its upper offset.
    pub open spec fn sliced(self, line: Seq<char>) -> RecordView {
        RecordView { fields: cut(self.fields, line), ..self }
    }

    /// The record filled from `line`: the line is first extended with blanks
    /// to the length of the record, then cut.
    pub open spec fn loaded(self, line: Seq<char>) -> RecordView {
        self.sliced(padded(line, self.calculated_length))
    }

    /// The raw values of all fields, one after the other.
    pub open spec fn value(self) -> Seq<char> {
        joined(self.fields)
    }
}

impl<T> Record<T> {
    /// Creates a new Record. The caller gives a name that is not empty.
    pub fn new(name: &str, description: &str, length: usize) -> (r: Record<T>)
        requires
            name@.len() > 0,
        ensures
            r@ == RecordView::created(name@, description@, length as nat),
            r@.wf(),
    {
        let r = Record {
            name: name.to_owned(),
            description: description.to_owned(),
            declared_length: length,
            flist: Vec::new(),
            calculated_length: 0,
            reader_mode: PhantomData,
        };
        assert(r@.fields =~= Seq::empty());
        r
    }

    /// The greatest multiplicity among the fields called `name`.
    fn last_multiplicity(&self, name: &str) -> (r: Option<usize>)
        ensures
            match r {
                Some(m) => top_multiplicity(self@.fields, name@) == Some(m as nat),
                None => top_multiplicity(self@.fields, name@) is None,
            },
    {
        let mut top: Option<usize> = None;
        let mut i: usize = 0;
        let ghost fields = self@.fields;
        while i < self.flist.len()
            invariant
                i <= self.flist.len(),
                fields == self@.fields,
                match top {
                    Some(m) => top_multiplicity(fields.take(i as int), name@) == Some(m as nat),
                    None => top_multiplicity(fields.take(i as int), name@) is None,
                },
            decreases self.flist.len() - i,
        {
            assert(fields.take(i + 1).drop_last() =~= fields.take(i as int));
            assert(fields.take(i + 1).last() == self.flist[i as int]@);
            if str_eq(self.flist[i].name.as_str(), name) {
                let m = self.flist[i].multiplicity;
                top = match top {
                    Some(t) => if t > m {
                        Some(t)
                    } else {
                        Some(m)
                    },
                    None => Some(m),
                };
            }
            i += 1;
        }
        assert(fields.take(i as int) =~= fields);
        top
    }

    /// Adds a Field structure to the end of the record.
    pub fn push(&mut self, field: Field)
        requires
            old(self)@.admits(field@),
        ensures
            final(self)@ == old(self)@.push(field@),
            old(self)@.wf() ==> final(self)@.wf(),
    {
        let mut field = field;
        let ghost given = field@;
        let ghost before = self@;

        field.index = self.flist.len();
        field.offset_from_origin = self.calculated_length;
        match field.creation_type {
            FieldCreationType::ByLength => {
                field.lower_offset = field.offset_from_origin;
                field.upper_offset = field.offset_from_origin + field.length - 1;
            },
            FieldCreationType::ByOffset => {},
        }
        if self.calculated_length < field.upper_offset + 1 {
            self.calculated_length = field.upper_offset + 1;
        }
        match self.last_multiplicity(field.name.as_str()) {
            Some(m) => {
                field.multiplicity = m + 1;
            },
            None => {},
        }
        let mut id = field.name.clone();
        push_decimal(&mut id, field.multiplicity);
        field.id = id;

        assert(field@ == before.placed(given));
        self.flist.push(field);
        assert(self@.fields =~= before.fields.push(before.placed(given)));
        proof {
            if before.wf() {
                lemma_push_wf(before, given);
            }
        }
    }

    /// Tests whether a Record contains a Field by giving its name.
    pub fn contains_field(&self, fname: &str) -> (r: bool)
        ensures
            r == self@.contains(fname@),
    {
        let ghost fields = self@.fields;
        let mut i: usize = 0;
        while i < self.flist.len()
            invariant
                i <= self.flist.len(),
                fields == self@.fields,
                named(fields.take(i as int), fname@).len() == 0,
            decreases self.flist.len() - i,
        {
            assert(fields.take(i + 1).drop_last() =~= fields.take(i as int));
            assert(fields.take(i + 1).last() == self.flist[i as int]@);
            if str_eq(self.flist[i].name.as_str(), fname) {
                proof {
                    lemma_named_prefix(fields, fname@, i + 1);
                }
                return true;
            }
            i += 1;
        }
        assert(fields.take(i as int) =~= fields);
        false
    }

    /// Returns the number of fields in the record.
    pub fn count(&self) -> (r: usize)
        ensures
            r == self@.fields.len(),
    {
        self.flist.len()
    }

    /// Returns a field reference in record by giving its index within the
    /// record. The caller gives the index of a field.
    pub fn index(&self, i: usize) -> (r: &Field)
        requires
            i < self@.fields.len(),
        ensures
            r@ == self@.fields[i as int],
    {
        &self.flist[i]
    }

    /// Returns a mutable field reference in record by giving its index
    /// within the record. The caller gives the index of a field.
    pub fn index_mut(&mut self, i: usize) -> (r: &mut Field)
        requires
            i < old(self)@.fields.len(),
        ensures
            *r == old(self).flist[i as int],
            final(self)@ == (RecordView {
                fields: old(self)@.fields.update(i as int, final(r)@),
                ..old(self)@
            }),
    {
        proof {
            assert forall|f: Field|
                (#[trigger] old(self).flist@.update(i as int, f)).map_values(|f: Field| f@)
                    == old(self)@.fields.update(i as int, f@) by {
                assert(old(self).flist@.update(i as int, f).map_values(|f: Field| f@)
                    =~= old(self)@.fields.update(i as int, f@));
            }
        }
        &mut self.flist[i]
    }

    /// Returns the fields that the predicate accepts, in order, or `None` if
    /// it accepts no field.
    pub fn filter<F: Fn(&Field) -> bool>(&self, pred: F) -> (r: Option<Vec<&Field>>)
        requires
            forall|i: int| 0 <= i < self.flist.len() ==> call_requires(pred, (&self.flist[i],)),
        ensures
            exists|keep: Seq<bool>|
                {
                    &&& #[trigger] self.decided(pred, keep)
                    &&& match r {
                        Some(v) => v.len() > 0 && ref_views(v@) == selected(
                            self@.fields,
                            keep,
                            true,
                        ),
                        None => selected(self@.fields, keep, true).len() == 0,
                    }
                },
    {
        let ghost fields = self@.fields;
        let ghost mut keep: Seq<bool> = Seq::empty();
        let mut out: Vec<&Field> = Vec::new();
        let mut i: usize = 0;
        while i < self.flist.len()
            invariant
                i <= self.flist.len(),
                fields == self@.fields,
                keep.len() == i,
                forall|k: int| 0 <= k < self.flist.len() ==> call_requires(pred, (&self.flist[k],)),
                forall|k: int| 0 <= k < i ==> call_ensures(pred, (&self.flist[k],), #[trigger] keep[k]),
                ref_views(out@) == selected(fields.take(i as int), keep, true),
            decreases self.flist.len() - i,
        {
            let f = &self.flist[i];
            let b = pred(f);
            proof {
                let wider = keep.push(b);
                assert(fields.take(i + 1).drop_last() =~= fields.take(i as int));
                assert(wider.drop_last() =~= keep);
                assert(fields.take(i + 1).last() == f@);
                keep = wider;
            }
            if b {
                out.push(f);
                assert(ref_views(out@) =~= selected(fields.take(i as int), keep.drop_last(), true).push(f@));
            }
            i += 1;
        }
        assert(fields.take(i as int) =~= fields);
        assert(self.decided(pred, keep));
        if out.len() == 0 {
            None
        } else {
            Some(out)
        }
    }

    /// Whether `keep` holds, for every field in order, an answer of `pred` on that field.
    pub open spec fn decided<F: Fn(&Field) -> bool>(&self, pred: F, keep: Seq<bool>) -> bool {
        &&& keep.len() == self.flist.len()
        &&& forall|k: int|
            0 <= k < self.flist.len() ==> call_ensures(pred, (&self.flist[k],), #[trigger] keep[k])
    }

    /// Returns a vector of fields matching the field name (this returns a vector
    /// because a Field could appear more than once in a Record).
    pub fn get(&self, fname: &str) -> (r: Option<Vec<&Field>>)
        ensures
            match r {
                Some(v) => v.len() > 0 && ref_views(v@) == named(self@.fields, fname@),
                None => !self@.contains(fname@),
            },
    {
        let ghost fields = self@.fields;
        let mut out: Vec<&Field> = Vec::new();
        let mut i: usize = 0;
        while i < self.flist.len()
            invariant
                i <= self.flist.len(),
                fields == self@.fields,
                ref_views(out@) == named(fields.take(i as int), fname@),
            decreases self.flist.len() - i,
        {
            let f = &self.flist[i];
            assert(fields.take(i + 1).drop_last() =~= fields.take(i as int));
            assert(fields.take(i + 1).last() == f@);
            if str_eq(f.name.as_str(), fname) {
                out.push(f);
                assert(ref_views(out@) =~= named(fields.take(i as int), fname@).push(f@));
            }
            i += 1;
        }
        assert(fields.take(i as int) =~= fields);
        if out.len() == 0 {
            None
        } else {
            Some(out)
        }
    }

    /// The fields with the marks of `keep` equal to `wanted`, copied in order.
    fn chosen(&self, keep: &Vec<bool>, wanted: bool) -> (out: Vec<Field>)
        requires
            keep.len() == self.flist.len(),
        ensures
            out@.map_values(|f: Field| f@) == selected(self@.fields, keep@, wanted),
    {
        let ghost fields = self@.fields;
        let mut out: Vec<Field> = Vec::new();
        let mut i: usize = 0;
        while i < self.flist.len()
            invariant
                i <= self.flist.len(),
                keep.len() == self.flist.len(),
                fields == self@.fields,
                out@.map_values(|f: Field| f@) == selected(
                    fields.take(i as int),
                    keep@.take(i as int),
                    wanted,
                ),
            decreases self.flist.len() - i,
        {
            assert(fields.take(i + 1).drop_last() =~= fields.take(i as int));
            assert(keep@.take(i + 1).drop_last() =~= keep@.take(i as int));
            assert(fields.take(i + 1).last() == self.flist[i as int]@);
            if keep[i] == wanted {
                let f = self.flist[i].clone();
                out.push(f);
                assert(out@.map_values(|f: Field| f@) =~= selected(
                    fields.take(i as int),
                    keep@.take(i as int),
                    wanted,
                ).push(f@));
            }
            i += 1;
        }
        assert(fields.take(i as int) =~= fields);
        assert(keep@.take(i as int) =~= keep@);
        out
    }

    /// The answers of `pred` on the fields, in order.
    fn decide<F: Fn(&Field) -> bool>(&self, pred: &F) -> (keep: Vec<bool>)
        requires
            forall|i: int| 0 <= i < self.flist.len() ==> call_requires(*pred, (&self.flist[i],)),
        ensures
            self.decided(*pred, keep@),
    {
        let mut keep: Vec<bool> = Vec::new();
        let mut i: usize = 0;
        while i < self.flist.len()
            invariant
                i <= self.flist.len(),
                keep.len() == i,
                forall|k: int|
                    0 <= k < self.flist.len() ==> call_requires(*pred, (&self.flist[k],)),
                forall|k: int|
                    0 <= k < i ==> call_ensures(*pred, (&self.flist[k],), #[trigger] keep@[k]),
            decreases self.flist.len() - i,
        {
            let b = pred(&self.flist[i]);
            keep.push(b);
            i += 1;
        }
        keep
    }

    /// Only keeps fields matching the predicate.
    pub fn retain<F: Fn(&Field) -> bool>(&mut self, pred: F)
        requires
            forall|i: int|
                0 <= i < old(self).flist.len() ==> call_requires(pred, (&old(self).flist[i],)),
        ensures
            exists|keep: Seq<bool>|
                {
                    &&& #[trigger] old(self).decided(pred, keep)
                    &&& final(self)@ == (RecordView {
                        fields: selected(old(self)@.fields, keep, true),
                        ..old(self)@
                    })
                },
    {
        let keep = self.decide(&pred);
        let kept = self.chosen(&keep, true);
        self.flist = kept;
        assert(old(self).decided(pred, keep@));
    }

    /// Removes fields matching the predicate.
    pub fn remove<F: Fn(&Field) -> bool>(&mut self, pred: F)
        requires
            forall|i: int|
                0 <= i < old(self).flist.len() ==> call_requires(pred, (&old(self).flist[i],)),
        ensures
            exists|keep: Seq<bool>|
                {
                    &&& #[trigger] old(self).decided(pred, keep)
                    &&& final(self)@ == (RecordView {
                        fields: selected(old(self)@.fields, keep, false),
                        ..old(self)@
                    })
                },
    {
        let keep = self.decide(&pred);
        let kept = self.chosen(&keep, false);
        self.flist = kept;
        assert(old(self).decided(pred, keep@));
    }

    /// For every field, whether its name is one of `names`.
    fn mark_listed(&self, names: &Vec<&str>) -> (keep: Vec<bool>)
        ensures
            keep@ == listed_in(self@.fields, texts(names@)),
    {
        let mut keep: Vec<bool> = Vec::new();
        let mut i: usize = 0;
        while i < self.flist.len()
            invariant
                i <= self.flist.len(),
                keep.len() == i,
                forall|k: int|
                    0 <= k < i ==> #[trigger] keep@[k] == texts(names@).contains(self.flist[k].name@),
            decreases self.flist.len() - i,
        {
            let b = holds_name(names, self.flist[i].name.as_str());
            keep.push(b);
            i += 1;
        }
        assert(keep@ =~= listed_in(self@.fields, texts(names@)));
        keep
    }

    /// Only keeps the fields whose name is one of `names`.
    pub fn retain_named(&mut self, names: &Vec<&str>)
        ensures
            final(self)@ == old(self)@.restricted(texts(names@), true),
    {
        let keep = self.mark_listed(names);
        let kept = self.chosen(&keep, true);
        self.flist = kept;
    }

    /// Removes the fields whose name is one of `names`.
    pub fn remove_named(&mut self, names: &Vec<&str>)
        ensures
            final(self)@ == old(self)@.restricted(texts(names@), false),
    {
        let keep = self.mark_listed(names);
        let kept = self.chosen(&keep, false);
        self.flist = kept;
    }

    /// Tells whether `field` can be appended: it is well formed, and its
    /// bounds and its multiplicity stay within the limits of the machine.
    pub fn can_push(&self, field: &Field) -> (b: bool)
        ensures
            b == self@.admits(field@),
    {
        let by_offset = match field.creation_type {
            FieldCreationType::ByOffset => true,
            FieldCreationType::ByLength => false,
        };
        if !field.is_sound() {
            return false;
        }
        let placed = if by_offset {
            field.upper_offset < usize::MAX
        } else {
            field.length <= usize::MAX - self.calculated_length
        };
        let numbered = match self.last_multiplicity(field.name.as_str()) {
            Some(m) => m < usize::MAX,
            None => true,
        };
        placed && numbered
    }

    /// Tells whether the record is well formed: it has a name, and its
    /// fields are well formed, span their length and end within the record.
    pub fn is_sound(&self) -> (b: bool)
        ensures
            b == self@.wf(),
    {
        if self.name.as_str().is_empty() {
            return false;
        }
        let mut i: usize = 0;
        while i < self.flist.len()
            invariant
                i <= self.flist.len(),
                self@.name.len() > 0,
                forall|k: int|
                    0 <= k < i ==> {
                        &&& (#[trigger] self@.fields[k]).wf()
                        &&& self@.fields[k].spans()
                        &&& self@.fields[k].upper_offset < self@.calculated_length
                    },
            decreases self.flist.len() - i,
        {
            let f = &self.flist[i];
            assert(self@.fields[i as int] == f@);
            if !(f.is_sound() && f.spans() && f.upper_offset < self.calculated_length) {
                return false;
            }
            i += 1;
        }
        true
    }

    /// Returns the record value (concatenation of all raw field values).
    pub fn value(&self) -> (r: String)
        ensures
            r@ == self@.value(),
    {
        let ghost fields = self@.fields;
        let mut s = String::new();
        let mut i: usize = 0;
        while i < self.flist.len()
            invariant
                i <= self.flist.len(),
                fields == self@.fields,
                s@ == joined(fields.take(i as int)),
            decreases self.flist.len() - i,
        {
            assert(fields.take(i + 1).drop_last() =~= fields.take(i as int));
            assert(fields.take(i + 1).last() == self.flist[i as int]@);
            s.append(self.flist[i].raw_value.as_str());
            i += 1;
        }
        assert(fields.take(i as int) =~= fields);
        s
    }

    /// Returns the value from a field matching the field name. If the field is duplicated, returns the
    /// first value. The caller gives the name of a field that the record holds.
    pub fn get_value(&self, fname: &str) -> (r: &str)
        requires
            self@.contains(fname@),
        ensures
            r@ == named(self@.fields, fname@)[0].str_value,
    {
        self.get_value_with_index(fname, 0)
    }

    /// Returns the value from a field when there're duplicated fields matching the
    /// field name. Returns the i-th field value (starting from 0). The caller
    /// gives a name and an index under which the record holds a field.
    pub fn get_value_with_index(&self, fname: &str, i: usize) -> (r: &str)
        requires
            i < named(self@.fields, fname@).len(),
        ensures
            r@ == named(self@.fields, fname@)[i as int].str_value,
    {
        match self.find_value(fname, i) {
            Some(v) => v,
            None => "",
        }
    }

    /// The value of the `i`-th field called `fname`, if the record holds one.
    pub fn find_value(&self, fname: &str, i: usize) -> (r: Option<&str>)
        ensures
            match r {
                Some(v) => i < named(self@.fields, fname@).len() && v@ == named(
                    self@.fields,
                    fname@,
                )[i as int].str_value,
                None => i >= named(self@.fields, fname@).len(),
            },
    {
        match self.get(fname) {
            Some(v) => {
                if i < v.len() {
                    assert(ref_views(v@)[i as int] == v@[i as int]@);
                    Some(v[i].str_value.as_str())
                } else {
                    None
                }
            },
            None => None,
        }
    }

    /// Checks if record value matches combined field filter
    pub fn is_filter_matched(&self, filter: &RecordFilter) -> (r: Result<bool, RbfError>)
        ensures
            outcome(r) == all_match(self@.fields, filter@),
    {
        let ghost fields = self@.fields;
        let ghost filters = filter@;
        let mut result = true;
        let mut i: usize = 0;
        assert(filters.skip(0) =~= filters);
        while i < filter.expr.len()
            invariant
                i <= filter.expr.len(),
                fields == self@.fields,
                filters == filter@,
                all_match(fields, filters) == and_also(
                    result,
                    all_match(fields, filters.skip(i as int)),
                ),
            decreases filter.expr.len() - i,
        {
            let f = &filter.expr[i];
            assert(filters.skip(i as int).drop_first() =~= filters.skip(i + 1));
            assert(filters.skip(i as int)[0] == f@);
            match self.get(f.fname.as_str()) {
                Some(occurrences) => {
                    let ghost occ = named(fields, f@.fname);
                    let mut any = false;
                    let mut k: usize = 0;
                    assert(occ.skip(0) =~= occ);
                    while k < occurrences.len() && !any
                        invariant
                            k <= occurrences.len(),
                            ref_views(occurrences@) == occ,
                            occ.len() > 0,
                            occ == named(fields, f@.fname),
                            fields == self@.fields,
                            filters == filter@,
                            i < filters.len(),
                            filters[i as int] == f@,
                            all_match(fields, filters) == and_also(
                                result,
                                all_match(fields, filters.skip(i as int)),
                            ),
                            any_matches(occ, f@) == if any {
                                Ok::<bool, ErrorView>(true)
                            } else {
                                any_matches(occ.skip(k as int), f@)
                            },
                        decreases occurrences.len() - k,
                    {
                        assert(occ.skip(k as int).drop_first() =~= occ.skip(k + 1));
                        assert(occ.skip(k as int)[0] == occurrences@[k as int]@);
                        match occurrences[k].is_filter_matched(f) {
                            Ok(b) => {
                                any = b;
                            },
                            Err(e) => {
                                proof {
                                    assert(any_matches(occ.skip(k as int), f@) == Err::<
                                        bool,
                                        ErrorView,
                                    >(e@));
                                    assert(any_matches(occ, f@) == Err::<bool, ErrorView>(e@));
                                    assert(filters.skip(i as int)[0] == f@);
                                    assert(all_match(fields, filters.skip(i as int)) == Err::<
                                        bool,
                                        ErrorView,
                                    >(e@));
                                }
                                return Err(e);
                            },
                        }
                        k += 1;
                    }
                    result = result && any;
                },
                None => {},
            }
            i += 1;
        }
        Ok(result)
    }

    /// The line extended with blanks to the length of the record, if it is shorter.
    fn adjust_value(&self, value: &str, ascii: bool) -> (r: Option<String>)
        requires
            ascii ==> is_ascii_chars(value@),
        ensures
            match r {
                Some(s) => s@ == padded(value@, self@.calculated_length) && value@.len()
                    < self@.calculated_length,
                None => value@ == padded(value@, self@.calculated_length),
            },
    {
        let w = width(value, ascii);
        if w < self.calculated_length {
            let mut line = value.to_owned();
            line.append(spaces(self.calculated_length - w).as_str());
            Some(line)
        } else {
            None
        }
    }

    /// Cuts every field out of `line`, which is as long as the record at least.
    fn slice_fields(&mut self, line: &str, ascii: bool)
        requires
            old(self)@.wf(),
            line@.len() >= old(self)@.calculated_length,
            ascii ==> is_ascii_chars(line@),
        ensures
            final(self)@ == old(self)@.sliced(line@),
    {
        let ghost before = self@;
        let n = self.flist.len();
        let mut i: usize = 0;
        while i < n
            invariant
                i <= n,
                n == self.flist.len(),
                before.wf(),
                before.fields.len() == n,
                line@.len() >= before.calculated_length,
                ascii ==> is_ascii_chars(line@),
                self@.name == before.name,
                self@.description == before.description,
                self@.declared_length == before.declared_length,
                self@.calculated_length == before.calculated_length,
                forall|k: int| 0 <= k < i ==> (#[trigger] self@.fields[k]) == before.sliced(line@).fields[k],
                forall|k: int| i <= k < n ==> (#[trigger] self@.fields[k]) == before.fields[k],
            decreases n - i,
        {
            assert(self@.fields[i as int] == before.fields[i as int]);
            assert(before.fields[i as int].spans());
            let lower = self.flist[i].lower_offset;
            let upper = self.flist[i].upper_offset;
            let piece = slice(line, lower, upper + 1, ascii);
            let ghost prior = self@.fields;
            self.flist[i].set_value(piece);
            assert forall|k: int| 0 <= k < n && k != i implies (#[trigger] self@.fields[k])
                == prior[k] by {}
            i += 1;
        }
        assert(self@.fields =~= before.sliced(line@).fields);
    }

    /// Fills every field from `value`.
    fn fill(&mut self, value: &str, ascii: bool)
        requires
            old(self)@.wf(),
            ascii ==> is_ascii_chars(value@),
        ensures
            final(self)@ == old(self)@.loaded(value@),
    {
        match self.adjust_value(value, ascii) {
            Some(line) => {
                proof {
                    lemma_padded_ascii(value@, self@.calculated_length);
                }
                self.slice_fields(line.as_str(), ascii);
            },
            None => {
                self.slice_fields(value, ascii);
            },
        }
    }

    /// The fields written as `(NAME='value',NAME='value')`.
    pub fn to_string(&self) -> (r: String)
        ensures
            r@ == "("@ + listed(self@.fields) + ")"@,
    {
        let ghost fields = self@.fields;
        let mut s = String::new();
        s.append("(");
        let mut i: usize = 0;
        while i < self.flist.len()
            invariant
                i <= self.flist.len(),
                fields == self@.fields,
                s@ == "("@ + listed(fields.take(i as int)),
            decreases self.flist.len() - i,
        {
            assert(fields.take(i + 1).drop_last() =~= fields.take(i as int));
            assert(fields.take(i + 1).last() == self.flist[i as int]@);
            let ghost prior = s@;
            if i > 0 {
                s.append(",");
            }
            s.append(self.flist[i].to_string().as_str());
            proof {
                let f = self.flist[i as int]@;
                if i > 0 {
                    assert(s@ =~= prior + ","@ + f.name + "='"@ + f.str_value + "'"@);
                } else {
                    assert(s@ =~= "("@ + (f.name + "='"@ + f.str_value + "'"@));
                }
            }
            i += 1;
        }
        assert(fields.take(i as int) =~= fields);
        s.append(")");
        s
    }
}

/// Implement Ascii read mode
impl ReadMode for Record<AsciiMode> {
    open spec fn bytewise() -> bool {
        true
    }

    /// Sets the record value: each field gets the bytes of the line between its offsets.
    fn set_value(&mut self, value: &str) {
        proof {
            lemma_loaded(self@, value@);
        }
        self.fill(value, true);
    }
}

/// Implement UTF-8 read mode
impl ReadMode for Record<UTF8Mode> {
    open spec fn bytewise() -> bool {
        false
    }

    /// Sets the record value: each field gets the codepoints of the line between its offsets.
    fn set_value(&mut self, value: &str) {
        proof {
            lemma_loaded(self@, value@);
        }
        self.fill(value, false);
    }
}

impl<T> Clone for Record<T> {
    fn clone(&self) -> (r: Record<T>)
        ensures
            r@ == self@,
    {
        let mut flist: Vec<Field> = Vec::new();
        let mut i: usize = 0;
        while i < self.flist.len()
            invariant
                i <= self.flist.len(),
                flist.len() == i,
                forall|k: int| 0 <= k < i ==> (#[trigger] flist[k])@ == self.flist[k]@,
            decreases self.flist.len() - i,
        {
            flist.push(self.flist[i].clone());
            i += 1;
        }
        let r = Record {
            name: self.name.clone(),
            description: self.description.clone(),
            declared_length: self.declared_length,
            flist,
            calculated_length: self.calculated_length,
            reader_mode: PhantomData,
        };
        assert(r@.fields =~= self@.fields);
        r
    }
}

/// A well-formed record that is filled from a line stays well formed, and
/// the raw value of each of its fields is as long as the field.
pub proof fn lemma_loaded(r: RecordView, line: Seq<char>)
    requires
        r.wf(),
    ensures
        r.loaded(line).wf(),
        r.loaded(line).fields.len() == r.fields.len(),
        forall|i: int|
            0 <= i < r.fields.len() ==> (#[trigger] r.loaded(line).fields[i]).raw_value.len()
                == r.fields[i].length && r.loaded(line).fields[i].trims(),
{
    let whole = padded(line, r.calculated_length);
    let after = r.loaded(line);
    assert forall|i: int| 0 <= i < r.fields.len() implies {
        &&& (#[trigger] after.fields[i]).wf()
        &&& after.fields[i].spans()
        &&& after.fields[i].upper_offset < after.calculated_length
        &&& after.fields[i].raw_value.len() == r.fields[i].length
        &&& after.fields[i].trims()
    } by {
        assert(r.fields[i].wf() && r.fields[i].spans());
    }
}

/// A well-formed record stays well formed when a field that it admits is appended.
pub proof fn lemma_push_wf(r: RecordView, f: FieldView)
    requires
        r.wf(),
        r.admits(f),
    ensures
        r.push(f).wf(),
{
    let after = r.push(f);
    assert forall|i: int| 0 <= i < after.fields.len() implies {
        &&& (#[trigger] after.fields[i]).wf()
        &&& after.fields[i].spans()
        &&& after.fields[i].upper_offset < after.calculated_length
    } by {
        if i < r.fields.len() {
            assert(after.fields[i] == r.fields[i]);
        }
    }
}

/// A record stays well formed when fields are taken out of it.
pub proof fn lemma_restricted_wf(r: RecordView, keep: Seq<bool>, wanted: bool)
    requires
        r.wf(),
    ensures
        (RecordView { fields: selected(r.fields, keep, wanted), ..r }).wf(),
{
    lemma_selected_from(r.fields, keep, wanted);
}

/// Every field that was selected is one of the fields.
pub proof fn lemma_selected_from(fields: Seq<FieldView>, keep: Seq<bool>, wanted: bool)
    ensures
        forall|i: int|
            0 <= i < selected(fields, keep, wanted).len() ==> fields.contains(
                #[trigger] selected(fields, keep, wanted)[i],
            ),
    decreases fields.len(),
{
    if fields.len() > 0 && keep.len() == fields.len() {
        lemma_selected_from(fields.drop_last(), keep.drop_last(), wanted);
        let rest = selected(fields.drop_last(), keep.drop_last(), wanted);
        assert forall|i: int| 0 <= i < selected(fields, keep, wanted).len() implies fields.contains(
            #[trigger] selected(fields, keep, wanted)[i],
        ) by {
            if i < rest.len() {
                let f = rest[i];
                assert(fields.drop_last().contains(f));
                let k = choose|k: int| 0 <= k < fields.drop_last().len() && fields.drop_last()[k] == f;
                assert(fields[k] == f);
            } else {
                assert(fields[fields.len() - 1] == fields.last());
            }
        }
    }
}

/// Tells whether `name` is one of `names`.
pub fn holds_name(names: &Vec<&str>, name: &str) -> (b: bool)
    ensures
        b == texts(names@).contains(name@),
{
    let mut i: usize = 0;
    while i < names.len()
        invariant
            i <= names.len(),
            forall|k: int| 0 <= k < i ==> texts(names@)[k] != name@,
        decreases names.len() - i,
    {
        if str_eq(names[i], name) {
            assert(texts(names@)[i as int] == name@);
            return true;
        }
        i += 1;
    }
    false
}

/// The fields called `name` among the first `k` fields are the first of
/// those among all fields.
pub proof fn lemma_named_prefix(fields: Seq<FieldView>, name: Seq<char>, k: int)
    requires
        0 <= k <= fields.len(),
    ensures
        named(fields.take(k), name).len() <= named(fields, name).len(),
        forall|i: int|
            0 <= i < named(fields.take(k), name).len() ==> named(fields.take(k), name)[i] == named(
                fields,
                name,
            )[i],
    decreases fields.len() - k,
{
    if k < fields.len() {
        assert(fields.take(k + 1).drop_last() =~= fields.take(k));
        lemma_named_prefix(fields, name, k + 1);
    } else {
        assert(fields.take(k) =~= fields);
    }
}

/// A line of ASCII text extended with blanks is ASCII text.
pub proof fn lemma_padded_ascii(line: Seq<char>, width: nat)
    ensures
        is_ascii_chars(line) ==> is_ascii_chars(padded(line, width)),
{
    if is_ascii_chars(line) && line.len() < width {
        let p = padded(line, width);
        assert forall|i: int| 0 <= i < p.len() implies '\0' <= #[trigger] p[i] <= '\u{7f}' by {
            if i < line.len() {
                assert(p[i] == line[i]);
            } else {
                assert(p[i] == ' ');
            }
        }
    }
}

} // verus!
