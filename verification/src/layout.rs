//! Represents a structure containing all fields and records of a layout: the
//! description of a record-based file that a layout file gives.
//!
//! The records are kept in the order in which the layout file defines them,
//! and so are the field types.

use std::rc::Rc;
use vstd::prelude::*;
use vstd::string::*;
use crate::error::{ErrorView, RbfError};
use crate::mapper::{MapperView, RecordMapper};
use crate::record::{
    lemma_restricted_wf, lemma_selected_from, listed_in, Record, RecordView,
};
use crate::text::{str_eq, texts};
use crate::types::fieldtype::{FieldType, FieldTypeView};

verus! {

#[derive(Debug)]
pub struct Layout<T> {
    /// XML layout file name
    pub xml_file: String,
    /// If all records have the same length, this stores the record length for all records
    pub rec_length: usize,
    /// Layout file version
    pub version: String,
    /// Layout file description
    pub description: String,
    /// SQL schema name (future use)
    pub schema: String,
    /// All records read from file; no two of them have the same name
    pub rec_map: Vec<Record<T>>,
    /// All field types found when reading; no two of them have the same id
    pub ftypes: Vec<Rc<FieldType>>,
    /// maps each line to a record name
    pub mapper: RecordMapper,
}

/// The mathematical content of a layout.
pub struct LayoutView {
    pub xml_file: Seq<char>,
    pub rec_length: nat,
    pub version: Seq<char>,
    pub description: Seq<char>,
    pub schema: Seq<char>,
    pub records: Seq<RecordView>,
    pub ftypes: Seq<FieldTypeView>,
    pub mapper: MapperView,
}

impl<T> View for Layout<T> {
    type V = LayoutView;

    open spec fn view(&self) -> LayoutView {
        LayoutView {
            xml_file: self.xml_file@,
            rec_length: self.rec_length as nat,
            version: self.version@,
            description: self.description@,
            schema: self.schema@,
            records: self.rec_map@.map_values(|r: Record<T>| r@),
            ftypes: self.ftypes@.map_values(|t: Rc<FieldType>| t@),
            mapper: self.mapper@,
        }
    }
}

/// The first place at which `name` stands among `keys`.
pub open spec fn key_position(keys: Seq<Seq<char>>, name: Seq<char>) -> Option<int>
    decreases keys.len(),
{
    if keys.len() == 0 {
        None
    } else {
        match key_position(keys.drop_last(), name) {
            Some(i) => Some(i),
            None => if keys.last() == name {
                Some(keys.len() - 1)
            } else {
                None
            },
        }
    }
}

/// The names of the records, in order.
pub open spec fn record_names(records: Seq<RecordView>) -> Seq<Seq<char>> {
    records.map_values(|r: RecordView| r.name)
}

/// The ids of the field types, in order.
pub open spec fn type_ids(ftypes: Seq<FieldTypeView>) -> Seq<Seq<char>> {
    ftypes.map_values(|t: FieldTypeView| t.id)
}

/// The field names listed for the record `name`: those of the last entry
/// for that name, if there is one.
pub open spec fn listed_fields(
    list: Seq<(Seq<char>, Seq<Seq<char>>)>,
    name: Seq<char>,
) -> Option<Seq<Seq<char>>>
    decreases list.len(),
{
    if list.len() == 0 {
        None
    } else if list.last().0 == name {
        Some(list.last().1)
    } else {
        listed_fields(list.drop_last(), name)
    }
}

/// The records that the list names, each with the fields listed for it only.
pub open spec fn retained(
    records: Seq<RecordView>,
    list: Seq<(Seq<char>, Seq<Seq<char>>)>,
) -> Seq<RecordView>
    decreases records.len(),
{
    if records.len() == 0 {
        Seq::empty()
    } else {
        match listed_fields(list, records.last().name) {
            Some(names) => retained(records.drop_last(), list).push(
                records.last().restricted(names, true),
            ),
            None => retained(records.drop_last(), list),
        }
    }
}

/// The content of a list of record names with their field names.
pub open spec fn list_view(list: Seq<(&str, Vec<&str>)>) -> Seq<(Seq<char>, Seq<Seq<char>>)> {
    list.map_values(|e: (&str, Vec<&str>)| (e.0@, texts(e.1@)))
}

impl LayoutView {
    /// What a layout keeps: no two records have the same name and no two
    /// field types the same id, every record is well formed, and the type of
    /// every field is registered under its id.
    pub open spec fn wf(self) -> bool {
        &&& self.distinct()
        &&& self.sound()
        &&& self.typed()
    }

    /// Whether no two records have the same name and no two field types the same id.
    pub open spec fn distinct(self) -> bool {
        &&& forall|i: int, j: int|
            0 <= i < j < self.records.len() ==> (#[trigger] self.records[i]).name
                != (#[trigger] self.records[j]).name
        &&& forall|i: int, j: int|
            0 <= i < j < self.ftypes.len() ==> (#[trigger] self.ftypes[i]).id != (
            #[trigger] self.ftypes[j]).id
    }

    /// Whether the id of the type of every field is the id of a field type of the layout.
    pub open spec fn typed(self) -> bool {
        forall|i: int, j: int|
            0 <= i < self.records.len() && 0 <= j < self.records[i].fields.len()
                ==> key_position(
                type_ids(self.ftypes),
                (#[trigger] self.records[i].fields[j]).ftype.id,
            ) is Some
    }

    /// Whether every record is well formed.
    pub open spec fn sound(self) -> bool {
        forall|i: int| 0 <= i < self.records.len() ==> (#[trigger] self.records[i]).wf()
    }

    /// Whether the layout holds a record called `name`.
    pub open spec fn contains_record(self, name: Seq<char>) -> bool {
        key_position(record_names(self.records), name) is Some
    }

    /// Whether some record of the layout holds a field called `name`.
    pub open spec fn contains_field(self, name: Seq<char>) -> bool {
        exists|i: int| 0 <= i < self.records.len() && (#[trigger] self.records[i]).contains(name)
    }

    /// The length that the layout expects of the record.
    pub open spec fn expected_length(self, r: RecordView) -> nat {
        if self.rec_length != 0 {
            self.rec_length
        } else {
            r.declared_length
        }
    }

    /// Whether the record has the length that the layout expects: the length
    /// that the layout declares for all records, if it declares one;
    /// otherwise the length that the record declares, if it declares one.
    pub open spec fn fits(self, r: RecordView) -> bool {
        if self.rec_length != 0 {
            r.calculated_length == self.rec_length
        } else {
            r.declared_length == 0 || r.declared_length == r.calculated_length
        }
    }

    /// Whether every record has the length that the layout expects.
    pub open spec fn valid(self) -> bool {
        forall|i: int| 0 <= i < self.records.len() ==> self.fits(#[trigger] self.records[i])
    }

    /// Whether the record at `i` is the first that has not the expected length.
    pub open spec fn first_misfit(self, i: int) -> bool {
        &&& 0 <= i < self.records.len()
        &&& !self.fits(self.records[i])
        &&& forall|j: int| 0 <= j < i ==> self.fits(#[trigger] self.records[j])
    }
}

/// The fields that are left in a record of a well-formed layout are of
/// registered types.
pub proof fn lemma_restricted_typed(l: LayoutView, i: int, names: Seq<Seq<char>>, wanted: bool)
    requires
        l.typed(),
        0 <= i < l.records.len(),
    ensures
        forall|j: int|
            0 <= j < l.records[i].restricted(names, wanted).fields.len() ==> key_position(
                type_ids(l.ftypes),
                (#[trigger] l.records[i].restricted(names, wanted).fields[j]).ftype.id,
            ) is Some,
{
    let r = l.records[i];
    let left = r.restricted(names, wanted).fields;
    lemma_selected_from(r.fields, listed_in(r.fields, names), wanted);
    assert forall|j: int| 0 <= j < left.len() implies key_position(
        type_ids(l.ftypes),
        (#[trigger] left[j]).ftype.id,
    ) is Some by {
        assert(r.fields.contains(left[j]));
        let k = choose|k: int| 0 <= k < r.fields.len() && r.fields[k] == left[j];
        assert(l.records[i].fields[k] == left[j]);
    }
}

/// The records retained of the first `n` records of a well-formed layout
/// make a well-formed layout with the field types of the first, and each of
/// them has the name of one of those records.
pub proof fn lemma_retained(l: LayoutView, n: int, list: Seq<(Seq<char>, Seq<Seq<char>>)>)
    requires
        l.wf(),
        0 <= n <= l.records.len(),
    ensures
        (LayoutView { records: retained(l.records.take(n), list), ..l }).wf(),
        forall|i: int|
            0 <= i < retained(l.records.take(n), list).len() ==> exists|k: int|
                0 <= k < n && (#[trigger] l.records[k]).name == (#[trigger] retained(
                    l.records.take(n),
                    list,
                )[i]).name,
    decreases n,
{
    let part = l.records.take(n);
    let kept = retained(part, list);
    if n > 0 {
        lemma_retained(l, n - 1, list);
        assert(part.drop_last() =~= l.records.take(n - 1));
        let before = retained(l.records.take(n - 1), list);
        let last = l.records[n - 1];
        assert(part.last() == last);
        match listed_fields(list, last.name) {
            Some(names) => {
                let r = last.restricted(names, true);
                assert(kept =~= before.push(r));
                lemma_restricted_wf(last, listed_in(last.fields, names), true);
                lemma_restricted_typed(l, n - 1, names, true);
                assert forall|i: int| 0 <= i < kept.len() implies exists|k: int|
                    0 <= k < n && (#[trigger] l.records[k]).name == (#[trigger] kept[i]).name by {
                    if i < before.len() {
                        let k = choose|k: int|
                            0 <= k < n - 1 && (#[trigger] l.records[k]).name == before[i].name;
                        assert(l.records[k].name == kept[i].name);
                    } else {
                        assert(l.records[n - 1].name == kept[i].name);
                    }
                }
                assert forall|i: int, j: int| 0 <= i < j < kept.len() implies (#[trigger] kept[i]).name
                    != (#[trigger] kept[j]).name by {
                    if j < before.len() {
                        assert(before[i].name != before[j].name);
                    } else {
                        let k = choose|k: int|
                            0 <= k < n - 1 && (#[trigger] l.records[k]).name == before[i].name;
                        assert(l.records[k].name != l.records[n - 1].name);
                    }
                }
                let after = LayoutView { records: kept, ..l };
                assert forall|i: int| 0 <= i < kept.len() implies (#[trigger] after.records[i]).wf() by {
                    if i < before.len() {
                        assert((LayoutView { records: before, ..l }).records[i].wf());
                    }
                }
                assert forall|i: int, j: int|
                    0 <= i < kept.len() && 0 <= j < after.records[i].fields.len() implies key_position(
                    type_ids(after.ftypes),
                    (#[trigger] after.records[i].fields[j]).ftype.id,
                ) is Some by {
                    if i < before.len() {
                        assert((LayoutView { records: before, ..l }).records[i].fields[j]
                            == after.records[i].fields[j]);
                    }
                }
            },
            None => {
                assert(kept =~= before);
                assert forall|i: int| 0 <= i < kept.len() implies exists|k: int|
                    0 <= k < n && (#[trigger] l.records[k]).name == (#[trigger] kept[i]).name by {
                    let k = choose|k: int|
                        0 <= k < n - 1 && (#[trigger] l.records[k]).name == before[i].name;
                    assert(l.records[k].name == kept[i].name);
                }
            },
        }
    } else {
        assert(kept =~= Seq::<RecordView>::empty());
    }
}

/// Where `name` stands among the keys it stands; where it does not, no key equals it.
pub proof fn lemma_key_position(keys: Seq<Seq<char>>, name: Seq<char>)
    ensures
        match key_position(keys, name) {
            Some(i) => 0 <= i < keys.len() && keys[i] == name && forall|j: int|
                0 <= j < i ==> keys[j] != name,
            None => forall|j: int| 0 <= j < keys.len() ==> keys[j] != name,
        },
    decreases keys.len(),
{
    if keys.len() > 0 {
        lemma_key_position(keys.drop_last(), name);
        assert forall|j: int| 0 <= j < keys.len() - 1 implies keys.drop_last()[j] == keys[j] by {}
    }
}

/// The first key that equals `name` is where `name` stands.
pub proof fn lemma_key_found(keys: Seq<Seq<char>>, name: Seq<char>, k: int)
    requires
        0 <= k < keys.len(),
        keys[k] == name,
        forall|j: int| 0 <= j < k ==> keys[j] != name,
    ensures
        key_position(keys, name) == Some(k),
{
    lemma_key_position(keys, name);
}

impl<T> Layout<T> {
    /// Returns the number of records in the layout.
    pub fn len(&self) -> (r: usize)
        ensures
            r == self@.records.len(),
    {
        self.rec_map.len()
    }

    /// Where the record called `recname` stands.
    pub fn find_record(&self, recname: &str) -> (r: Option<usize>)
        ensures
            match r {
                Some(i) => key_position(record_names(self@.records), recname@) == Some(i as int)
                    && i < self.rec_map.len() && self.rec_map[i as int].name@ == recname@,
                None => key_position(record_names(self@.records), recname@) is None,
            },
    {
        let ghost keys = record_names(self@.records);
        let mut i: usize = 0;
        while i < self.rec_map.len()
            invariant
                i <= self.rec_map.len(),
                keys == record_names(self@.records),
                forall|j: int| 0 <= j < i ==> keys[j] != recname@,
            decreases self.rec_map.len() - i,
        {
            if str_eq(self.rec_map[i].name.as_str(), recname) {
                proof {
                    lemma_key_found(keys, recname@, i as int);
                }
                return Some(i);
            }
            i += 1;
        }
        proof {
            lemma_key_position(keys, recname@);
        }
        None
    }

    /// Where the field type called `ftype_name` stands.
    pub fn find_type(&self, ftype_name: &str) -> (r: Option<usize>)
        ensures
            match r {
                Some(i) => key_position(type_ids(self@.ftypes), ftype_name@) == Some(i as int)
                    && i < self.ftypes.len() && self.ftypes[i as int].id@ == ftype_name@,
                None => key_position(type_ids(self@.ftypes), ftype_name@) is None,
            },
    {
        let ghost keys = type_ids(self@.ftypes);
        let mut i: usize = 0;
        while i < self.ftypes.len()
            invariant
                i <= self.ftypes.len(),
                keys == type_ids(self@.ftypes),
                forall|j: int| 0 <= j < i ==> keys[j] != ftype_name@,
            decreases self.ftypes.len() - i,
        {
            if str_eq(self.ftypes[i].id.as_str(), ftype_name) {
                proof {
                    lemma_key_found(keys, ftype_name@, i as int);
                }
                return Some(i);
            }
            i += 1;
        }
        proof {
            lemma_key_position(keys, ftype_name@);
        }
        None
    }

    /// Tests if Layout contains a record by giving its name.
    pub fn contains_record(&self, recname: &str) -> (r: bool)
        ensures
            r == self@.contains_record(recname@),
    {
        self.find_record(recname).is_some()
    }

    /// Tests if Layout contains a field record-wise.
    pub fn contains_field(&self, fname: &str) -> (r: bool)
        ensures
            r == self@.contains_field(fname@),
    {
        let mut i: usize = 0;
        while i < self.rec_map.len()
            invariant
                i <= self.rec_map.len(),
                forall|j: int| 0 <= j < i ==> !(#[trigger] self@.records[j]).contains(fname@),
            decreases self.rec_map.len() - i,
        {
            if self.rec_map[i].contains_field(fname) {
                assert(self@.records[i as int].contains(fname@));
                return true;
            }
            i += 1;
        }
        false
    }

    /// Gets a record reference from its name.
    pub fn get(&self, rec_name: &str) -> (r: Option<&Record<T>>)
        ensures
            match r {
                Some(rec) => key_position(record_names(self@.records), rec_name@) is Some && rec@
                    == self@.records[key_position(record_names(self@.records), rec_name@)->0],
                None => !self@.contains_record(rec_name@),
            },
    {
        match self.find_record(rec_name) {
            Some(i) => Some(&self.rec_map[i]),
            None => None,
        }
    }

    /// Gets a mutable reference on record from its name.
    pub fn get_mut(&mut self, rec_name: &str) -> (r: Option<&mut Record<T>>)
        ensures
            match r {
                Some(rec) => {
                    let i = key_position(record_names(old(self)@.records), rec_name@);
                    &&& i is Some
                    &&& *rec == old(self).rec_map[i->0]
                    &&& final(self).rec_map@ == old(self).rec_map@.update(i->0, *final(rec))
                    &&& final(self)@ == (LayoutView {
                        records: old(self)@.records.update(i->0, final(rec)@),
                        ..old(self)@
                    })
                },
                None => !old(self)@.contains_record(rec_name@) && final(self)@ == old(self)@,
            },
    {
        match self.find_record(rec_name) {
            Some(i) => {
                proof {
                    assert forall|r: Record<T>|
                        (#[trigger] old(self).rec_map@.update(i as int, r)).map_values(
                            |r: Record<T>| r@,
                        ) == old(self)@.records.update(i as int, r@) by {
                        assert(old(self).rec_map@.update(i as int, r).map_values(
                            |r: Record<T>| r@,
                        ) =~= old(self)@.records.update(i as int, r@));
                    }
                }
                Some(&mut self.rec_map[i])
            },
            None => None,
        }
    }

    /// Gets a field type.
    pub fn get_type(&self, ftype_name: &str) -> (r: Option<&Rc<FieldType>>)
        ensures
            match r {
                Some(t) => key_position(type_ids(self@.ftypes), ftype_name@) is Some && t@
                    == self@.ftypes[key_position(type_ids(self@.ftypes), ftype_name@)->0],
                None => key_position(type_ids(self@.ftypes), ftype_name@) is None,
            },
    {
        match self.find_type(ftype_name) {
            Some(i) => Some(&self.ftypes[i]),
            None => None,
        }
    }

    /// Tells whether every record of the layout is well formed.
    pub fn is_sound(&self) -> (b: bool)
        ensures
            b == self@.sound(),
    {
        let mut i: usize = 0;
        while i < self.rec_map.len()
            invariant
                i <= self.rec_map.len(),
                forall|k: int| 0 <= k < i ==> (#[trigger] self@.records[k]).wf(),
            decreases self.rec_map.len() - i,
        {
            assert(self@.records[i as int] == self.rec_map[i as int]@);
            if !self.rec_map[i].is_sound() {
                return false;
            }
            i += 1;
        }
        true
    }

    /// Removes each field from the list from the whole layout, i.e. from all records.
    /// If a field name doesn't exist, no error is returned and the deletion is ignored.
    pub fn remove(&mut self, flist: Vec<&str>)
        ensures
            old(self)@.sound() ==> final(self)@.sound(),
            old(self)@.wf() ==> final(self)@.wf(),
            final(self)@ == (LayoutView {
                records: old(self)@.records.map_values(
                    |r: RecordView| r.restricted(texts(flist@), false),
                ),
                ..old(self)@
            }),
    {
        let ghost before = self@;
        let n = self.rec_map.len();
        let mut i: usize = 0;
        while i < n
            invariant
                i <= n,
                n == self.rec_map.len(),
                before.records.len() == n,
                self@ == (LayoutView { records: self@.records, ..before }),
                forall|k: int|
                    0 <= k < i ==> (#[trigger] self@.records[k]) == before.records[k].restricted(
                        texts(flist@),
                        false,
                    ),
                forall|k: int| i <= k < n ==> (#[trigger] self@.records[k]) == before.records[k],
            decreases n - i,
        {
            let ghost prior = self@.records;
            assert(prior[i as int] == before.records[i as int]);
            self.rec_map[i].remove_named(&flist);
            assert forall|k: int| 0 <= k < n && k != i implies (#[trigger] self@.records[k])
                == prior[k] by {}
            assert(self@.records[i as int] == self.rec_map[i as int]@);
            i += 1;
        }
        assert(self@.records =~= before.records.map_values(
            |r: RecordView| r.restricted(texts(flist@), false),
        ));
        proof {
            if before.sound() {
                assert forall|k: int| 0 <= k < self@.records.len() implies (
                #[trigger] self@.records[k]).wf() by {
                    lemma_restricted_wf(
                        before.records[k],
                        listed_in(before.records[k].fields, texts(flist@)),
                        false,
                    );
                }
            }
            if before.wf() {
                assert forall|i: int, j: int|
                    0 <= i < j < self@.records.len() implies (#[trigger] self@.records[i]).name != (
                #[trigger] self@.records[j]).name by {
                    assert(before.records[i].name != before.records[j].name);
                }
                assert forall|i: int, j: int|
                    0 <= i < self@.records.len() && 0 <= j
                        < self@.records[i].fields.len() implies key_position(
                    type_ids(self@.ftypes),
                    (#[trigger] self@.records[i].fields[j]).ftype.id,
                ) is Some by {
                    lemma_restricted_typed(before, i, texts(flist@), false);
                }
            }
        }
    }

    /// Retains only the records and fields listed. All other records or fields are removed.
    /// Where a record is listed twice, its last entry counts.
    pub fn retain(&mut self, rec_list: Vec<(&str, Vec<&str>)>)
        ensures
            old(self)@.sound() ==> final(self)@.sound(),
            old(self)@.wf() ==> final(self)@.wf(),
            final(self)@ == (LayoutView {
                records: retained(old(self)@.records, list_view(rec_list@)),
                ..old(self)@
            }),
    {
        let ghost before = self@;
        let ghost list = list_view(rec_list@);
        let mut kept: Vec<Record<T>> = Vec::new();
        let mut i: usize = 0;
        assert(before.records.take(0) =~= Seq::<RecordView>::empty());
        assert(kept@.map_values(|r: Record<T>| r@) =~= Seq::<RecordView>::empty());
        while i < self.rec_map.len()
            invariant
                i <= self.rec_map.len(),
                self@ == before,
                list == list_view(rec_list@),
                kept@.map_values(|r: Record<T>| r@) == retained(before.records.take(i as int), list),
                before.sound() ==> forall|k: int| 0 <= k < kept.len() ==> (#[trigger] kept[k])@.wf(),
            decreases self.rec_map.len() - i,
        {
            assert(before.records.take(i + 1).drop_last() =~= before.records.take(i as int));
            assert(before.records.take(i + 1).last() == self.rec_map[i as int]@);
            match find_listed(&rec_list, self.rec_map[i].name.as_str()) {
                Some(k) => {
                    let mut rec = self.rec_map[i].clone();
                    rec.retain_named(&rec_list[k].1);
                    let ghost done = kept@.map_values(|r: Record<T>| r@);
                    kept.push(rec);
                    assert(kept@.map_values(|r: Record<T>| r@) =~= done.push(rec@));
                    proof {
                        if before.sound() {
                            assert(before.records[i as int].wf());
                            lemma_restricted_wf(
                                before.records[i as int],
                                listed_in(before.records[i as int].fields, texts(rec_list[k as int].1@)),
                                true,
                            );
                        }
                    }
                },
                None => {},
            }
            i += 1;
        }
        assert(before.records.take(i as int) =~= before.records);
        self.rec_map = kept;
        proof {
            if before.wf() {
                lemma_retained(before, before.records.len() as int, list);
            }
        }
    }

    /// Checks whether layout is valid: if `rec_length` is not 0, all records
    /// must have that length. If it is 0, each record that declares a length
    /// must have the length it declares.
    ///
    /// Returns whether the layout is valid and, if it is not, the name of the
    /// first record of another length, the length expected and the length found.
    pub fn is_valid(&self) -> (r: (bool, &str, usize, usize))
        ensures
            r.0 == self@.valid(),
            r.0 ==> r.1@ == Seq::<char>::empty() && r.2 == 0 && r.3 == 0,
            !r.0 ==> exists|i: int|
                {
                    &&& #[trigger] self@.first_misfit(i)
                    &&& r.1@ == self@.records[i].name
                    &&& r.2 == self@.expected_length(self@.records[i])
                    &&& r.3 == self@.records[i].calculated_length
                },
    {
        proof {
            reveal_strlit("");
        }
        let mut i: usize = 0;
        while i < self.rec_map.len()
            invariant
                i <= self.rec_map.len(),
                forall|j: int| 0 <= j < i ==> self@.fits(#[trigger] self@.records[j]),
            decreases self.rec_map.len() - i,
        {
            let rec = &self.rec_map[i];
            assert(self@.records[i as int] == rec@);
            if self.rec_length != 0 {
                if self.rec_length != rec.calculated_length {
                    assert(self@.first_misfit(i as int));
                    return (false, rec.name.as_str(), self.rec_length, rec.calculated_length);
                }
            } else if rec.declared_length != 0 && rec.declared_length != rec.calculated_length {
                assert(self@.first_misfit(i as int));
                return (false, rec.name.as_str(), rec.declared_length, rec.calculated_length);
            }
            i += 1;
        }
        (true, "", 0, 0)
    }

    /// Checks the lengths of the records as `is_valid` does and reports the
    /// first record of another length as an error.
    pub fn validate(&self) -> (r: Result<(), RbfError>)
        ensures
            r is Ok == self@.valid(),
            r is Err ==> exists|i: int|
                {
                    &&& #[trigger] self@.first_misfit(i)
                    &&& r->Err_0@ == ErrorView::LayoutInvalid(
                        self@.records[i].name,
                        self@.expected_length(self@.records[i]),
                        self@.records[i].calculated_length,
                    )
                },
    {
        let (ok, name, expected, actual) = self.is_valid();
        if ok {
            Ok(())
        } else {
            Err(RbfError::LayoutInvalid(name.to_owned(), expected, actual))
        }
    }
}

/// Where the last entry for the record `name` stands in the list.
pub fn find_listed(list: &Vec<(&str, Vec<&str>)>, name: &str) -> (r: Option<usize>)
    ensures
        match r {
            Some(k) => k < list.len() && listed_fields(list_view(list@), name@) == Some(
                texts(list[k as int].1@),
            ),
            None => listed_fields(list_view(list@), name@) is None,
        },
{
    let ghost all = list_view(list@);
    let mut i: usize = list.len();
    assert(all.take(i as int) =~= all);
    while i > 0
        invariant
            i <= list.len(),
            all == list_view(list@),
            listed_fields(all, name@) == listed_fields(all.take(i as int), name@),
        decreases i,
    {
        i -= 1;
        assert(all.take(i + 1).drop_last() =~= all.take(i as int));
        assert(all.take(i + 1).last() == (list[i as int].0@, texts(list[i as int].1@)));
        if str_eq(list[i].0, name) {
            return Some(i);
        }
    }
    None
}

} // verus!
