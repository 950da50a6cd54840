//! What holds of every record that is built by appending fields to an empty
//! one, and of every line that such a record is filled from.

use vstd::prelude::*;
use crate::field::{FieldCreationType, FieldView};
use crate::record::{cut, joined, named, top_multiplicity, RecordView};
use crate::text::{decimal, digit_char, digit_value, digits_value, padded};

verus! {

/// The record `start` after the fields of `fields` were appended in order.
pub open spec fn appended(start: RecordView, fields: Seq<FieldView>) -> RecordView
    decreases fields.len(),
{
    if fields.len() == 0 {
        start
    } else {
        appended(start, fields.drop_last()).push(fields.last())
    }
}

/// The sum of the lengths of the fields.
pub open spec fn total_length(fields: Seq<FieldView>) -> nat
    decreases fields.len(),
{
    if fields.len() == 0 {
        0
    } else {
        total_length(fields.drop_last()) + fields.last().length
    }
}

/// The end of the field that reaches furthest; zero if there is no field.
pub open spec fn furthest(fields: Seq<FieldView>) -> nat
    decreases fields.len(),
{
    if fields.len() == 0 {
        0
    } else if furthest(fields.drop_last()) < fields.last().upper_offset + 1 {
        fields.last().upper_offset + 1
    } else {
        furthest(fields.drop_last())
    }
}

/// Whether every field is well formed and was created by length.
pub open spec fn all_by_length(fields: Seq<FieldView>) -> bool {
    forall|i: int|
        0 <= i < fields.len() ==> (#[trigger] fields[i]).wf() && fields[i].creation_type
            == FieldCreationType::ByLength
}

/// Whether every field has the multiplicity that a new field has.
pub open spec fn all_fresh(fields: Seq<FieldView>) -> bool {
    forall|i: int| 0 <= i < fields.len() ==> (#[trigger] fields[i]).multiplicity == 0
}

/// Whether the fields lie one after the other from the start of the record to `end`.
pub open spec fn contiguous(fields: Seq<FieldView>, end: nat) -> bool
    decreases fields.len(),
{
    if fields.len() == 0 {
        end == 0
    } else {
        &&& fields.last().lower_offset <= fields.last().upper_offset
        &&& fields.last().upper_offset + 1 == end
        &&& contiguous(fields.drop_last(), fields.last().lower_offset)
    }
}

/// Whether the occurrences of every name are numbered from zero, in order.
pub open spec fn numbered(fields: Seq<FieldView>) -> bool {
    forall|name: Seq<char>, j: int|
        0 <= j < named(fields, name).len() ==> (#[trigger] named(fields, name)[j]).multiplicity == j
}

/// Whether every field is identified by its name followed by its multiplicity in decimal.
pub open spec fn identified(fields: Seq<FieldView>) -> bool {
    forall|i: int|
        0 <= i < fields.len() ==> (#[trigger] fields[i]).id == fields[i].name + decimal(
            fields[i].multiplicity,
        )
}

/// Whether two fields of different names have the same identifier, as
/// `F1` with multiplicity 0 and `F` with multiplicity 10 have.
pub open spec fn collides(fields: Seq<FieldView>) -> bool {
    exists|i: int, j: int|
        0 <= i < fields.len() && 0 <= j < fields.len() && fields[i].name != fields[j].name
            && #[trigger] fields[i].id == #[trigger] fields[j].id
}

/// Appending fields keeps the name, the description and the declared length of the record.
pub proof fn lemma_appended_keeps(start: RecordView, fields: Seq<FieldView>)
    ensures
        appended(start, fields).name == start.name,
        appended(start, fields).description == start.description,
        appended(start, fields).declared_length == start.declared_length,
        appended(start, fields).fields.len() == start.fields.len() + fields.len(),
    decreases fields.len(),
{
    if fields.len() > 0 {
        lemma_appended_keeps(start, fields.drop_last());
    }
}

/// After fields that were all created by length are appended to an empty
/// record, the fields lie one after the other and the calculated length of
/// the record is the sum of their lengths.
pub proof fn lemma_length_is_sum(
    name: Seq<char>,
    description: Seq<char>,
    length: nat,
    fields: Seq<FieldView>,
)
    requires
        all_by_length(fields),
    ensures
        appended(RecordView::created(name, description, length), fields).calculated_length
            == total_length(fields),
        contiguous(
            appended(RecordView::created(name, description, length), fields).fields,
            total_length(fields),
        ),
    decreases fields.len(),
{
    let start = RecordView::created(name, description, length);
    if fields.len() > 0 {
        let rest = fields.drop_last();
        assert(all_by_length(rest)) by {
            assert forall|i: int| 0 <= i < rest.len() implies (#[trigger] rest[i]).wf() && rest[i].creation_type
                == FieldCreationType::ByLength by {
                assert(rest[i] == fields[i]);
            }
        }
        lemma_length_is_sum(name, description, length, rest);
        let r = appended(start, rest);
        let f = fields.last();
        assert(f.wf());
        let p = r.placed(f);
        assert(r.push(f).fields.drop_last() =~= r.fields);
        assert(r.push(f).fields.last() == p);
    }
}

/// After well-formed fields are appended to an empty record, the calculated
/// length of the record is the end of the field that reaches furthest.
pub proof fn lemma_length_is_furthest(
    name: Seq<char>,
    description: Seq<char>,
    length: nat,
    fields: Seq<FieldView>,
)
    requires
        forall|i: int| 0 <= i < fields.len() ==> (#[trigger] fields[i]).wf(),
    ensures
        appended(RecordView::created(name, description, length), fields).calculated_length
            == furthest(appended(RecordView::created(name, description, length), fields).fields),
    decreases fields.len(),
{
    let start = RecordView::created(name, description, length);
    if fields.len() > 0 {
        let rest = fields.drop_last();
        assert forall|i: int| 0 <= i < rest.len() implies (#[trigger] rest[i]).wf() by {
            assert(rest[i] == fields[i]);
        }
        lemma_length_is_furthest(name, description, length, rest);
        let r = appended(start, rest);
        let f = fields.last();
        assert(f.wf());
        assert(r.push(f).fields.drop_last() =~= r.fields);
        assert(r.push(f).fields.last() == r.placed(f));
    }
}

/// The decimal numeral of a number writes that number.
pub proof fn lemma_decimal_value(n: nat)
    ensures
        digits_value(decimal(n)) == n,
    decreases n,
{
    assert(digit_value(digit_char(n % 10)) == n % 10);
    if n < 10 {
        assert(decimal(n).drop_last() =~= Seq::<char>::empty());
        assert(digits_value(Seq::<char>::empty()) == 0);
    } else {
        lemma_decimal_value(n / 10);
        assert(decimal(n).drop_last() =~= decimal(n / 10));
    }
}

/// A name followed by two different numbers gives two different identifiers.
pub proof fn lemma_identifiers_differ(name: Seq<char>, a: nat, b: nat)
    requires
        a != b,
    ensures
        name + decimal(a) != name + decimal(b),
{
    lemma_decimal_value(a);
    lemma_decimal_value(b);
    if name + decimal(a) == name + decimal(b) {
        assert((name + decimal(a)).skip(name.len() as int) =~= decimal(a));
        assert((name + decimal(b)).skip(name.len() as int) =~= decimal(b));
    }
}

/// The greatest multiplicity under a name, where the occurrences are
/// numbered from zero, is the number of occurrences less one.
pub proof fn lemma_top_of_numbered(fields: Seq<FieldView>, name: Seq<char>)
    requires
        forall|j: int|
            0 <= j < named(fields, name).len() ==> (#[trigger] named(fields, name)[j]).multiplicity
                == j,
    ensures
        named(fields, name).len() == 0 ==> top_multiplicity(fields, name) is None,
        named(fields, name).len() > 0 ==> top_multiplicity(fields, name) == Some(
            (named(fields, name).len() - 1) as nat,
        ),
    decreases fields.len(),
{
    if fields.len() > 0 {
        let rest = fields.drop_last();
        if fields.last().name == name {
            assert forall|j: int| 0 <= j < named(rest, name).len() implies (#[trigger] named(
                rest,
                name,
            )[j]).multiplicity == j by {
                assert(named(rest, name)[j] == named(fields, name)[j]);
            }
            assert(named(fields, name)[named(rest, name).len() as int] == fields.last());
        } else {
            assert forall|j: int| 0 <= j < named(rest, name).len() implies (#[trigger] named(
                rest,
                name,
            )[j]).multiplicity == j by {
                assert(named(rest, name)[j] == named(fields, name)[j]);
            }
        }
        lemma_top_of_numbered(rest, name);
    }
}

/// After new fields are appended to an empty record, the occurrences of
/// every field name carry the multiplicities 0, 1, 2 and so on in the order
/// in which they were appended, and every field is identified by its name
/// followed by its multiplicity.
pub proof fn lemma_multiplicities(
    name: Seq<char>,
    description: Seq<char>,
    length: nat,
    fields: Seq<FieldView>,
)
    requires
        all_fresh(fields),
    ensures
        numbered(appended(RecordView::created(name, description, length), fields).fields),
        identified(appended(RecordView::created(name, description, length), fields).fields),
    decreases fields.len(),
{
    let start = RecordView::created(name, description, length);
    if fields.len() > 0 {
        let rest = fields.drop_last();
        assert(all_fresh(rest)) by {
            assert forall|i: int| 0 <= i < rest.len() implies (#[trigger] rest[i]).multiplicity
                == 0 by {
                assert(rest[i] == fields[i]);
            }
        }
        lemma_multiplicities(name, description, length, rest);
        let r = appended(start, rest);
        let f = fields.last();
        let p = r.placed(f);
        let after = r.push(f).fields;
        assert(after.drop_last() =~= r.fields);
        assert(after.last() == p);
        assert forall|j: int| 0 <= j < named(r.fields, f.name).len() implies (#[trigger] named(
            r.fields,
            f.name,
        )[j]).multiplicity == j by {}
        lemma_top_of_numbered(r.fields, f.name);
        assert(p.multiplicity == named(r.fields, f.name).len());
        assert forall|n: Seq<char>, j: int| 0 <= j < named(after, n).len() implies (#[trigger] named(
            after,
            n,
        )[j]).multiplicity == j by {
            if j < named(r.fields, n).len() {
                assert(named(after, n)[j] == named(r.fields, n)[j]);
            }
        }
        assert forall|i: int| 0 <= i < after.len() implies (#[trigger] after[i]).id == after[i].name
            + decimal(after[i].multiplicity) by {
            if i < r.fields.len() {
                assert(after[i] == r.fields[i]);
            }
        }
    } else {
        assert(named(start.fields, name).len() == 0);
    }
}

/// The position that the field at `i` has among the fields of its name.
pub proof fn lemma_named_position(fields: Seq<FieldView>, i: int) -> (j: int)
    requires
        0 <= i < fields.len(),
    ensures
        0 <= j < named(fields, fields[i].name).len(),
        named(fields, fields[i].name)[j] == fields[i],
        j == named(fields.take(i), fields[i].name).len(),
    decreases fields.len(),
{
    let name = fields[i].name;
    let rest = fields.drop_last();
    if i == fields.len() - 1 {
        assert(fields.take(i) =~= rest);
        named(rest, name).len() as int
    } else {
        assert(rest[i] == fields[i]);
        assert(rest.take(i) =~= fields.take(i));
        lemma_named_position(rest, i)
    }
}

/// The fields of one name among the first `i` fields are fewer than those
/// among the first `k`, if the field at `i` has that name and `i < k`.
pub proof fn lemma_named_grows(fields: Seq<FieldView>, name: Seq<char>, i: int, k: int)
    requires
        0 <= i < k <= fields.len(),
        fields[i].name == name,
    ensures
        named(fields.take(i), name).len() < named(fields.take(k), name).len(),
    decreases k - i,
{
    assert(fields.take(k).drop_last() =~= fields.take(k - 1));
    if k - 1 == i {
        assert(fields.take(k).last() == fields[i]);
    } else {
        lemma_named_grows(fields, name, i, k - 1);
    }
}

/// After new fields are appended to an empty record, two fields of the same
/// name never have the same identifier; and where no two fields of different
/// names have the same identifier, all identifiers in the record are
/// pairwise distinct.
pub proof fn lemma_identifiers(
    name: Seq<char>,
    description: Seq<char>,
    length: nat,
    fields: Seq<FieldView>,
)
    requires
        all_fresh(fields),
    ensures
        ({
            let r = appended(RecordView::created(name, description, length), fields);
            &&& forall|i: int, j: int|
                0 <= i < j < r.fields.len() && r.fields[i].name == r.fields[j].name
                    ==> #[trigger] r.fields[i].id != #[trigger] r.fields[j].id
            &&& !collides(r.fields) ==> forall|i: int, j: int|
                0 <= i < j < r.fields.len() ==> #[trigger] r.fields[i].id
                    != #[trigger] r.fields[j].id
        }),
{
    let r = appended(RecordView::created(name, description, length), fields);
    lemma_multiplicities(name, description, length, fields);
    assert forall|i: int, j: int|
        0 <= i < j < r.fields.len() && r.fields[i].name == r.fields[j].name implies #[trigger] r.fields[i].id
        != #[trigger] r.fields[j].id by {
        let n = r.fields[i].name;
        let a = lemma_named_position(r.fields, i);
        let b = lemma_named_position(r.fields, j);
        lemma_named_grows(r.fields, n, i, j);
        assert(named(r.fields, n)[a].multiplicity == a);
        assert(named(r.fields, n)[b].multiplicity == b);
        lemma_identifiers_differ(n, a as nat, b as nat);
    }
}

/// The raw values of contiguous fields that were cut out of `line` make up
/// the part of the line that the fields cover.
pub proof fn lemma_cut_joins(fields: Seq<FieldView>, end: nat, line: Seq<char>)
    requires
        contiguous(fields, end),
        end <= line.len(),
    ensures
        joined(cut(fields, line)) == line.take(end as int),
    decreases fields.len(),
{
    if fields.len() == 0 {
        assert(line.take(0) =~= Seq::<char>::empty());
    } else {
        let rest = fields.drop_last();
        let last = fields.last();
        lemma_cut_joins(rest, last.lower_offset, line);
        assert(cut(fields, line).drop_last() =~= cut(rest, line));
        assert(cut(fields, line).last().raw_value == line.subrange(
            last.lower_offset as int,
            end as int,
        ));
        assert(line.take(last.lower_offset as int) + line.subrange(
            last.lower_offset as int,
            end as int,
        ) =~= line.take(end as int));
    }
}

/// Filling a record and reading its value back gives the line again.
///
/// For a record made by appending fields that were all created by length to
/// an empty record: a line as long as the record comes back unchanged; a
/// shorter line comes back followed by blanks, so that its own length of the
/// value equals the line; of a longer line the part that the record covers
/// comes back.
pub proof fn lemma_round_trip(
    name: Seq<char>,
    description: Seq<char>,
    length: nat,
    fields: Seq<FieldView>,
    line: Seq<char>,
)
    requires
        all_by_length(fields),
    ensures
        ({
            let r = appended(RecordView::created(name, description, length), fields);
            &&& line.len() == r.calculated_length ==> r.loaded(line).value() == line
            &&& line.len() < r.calculated_length ==> r.loaded(line).value().len()
                == r.calculated_length && r.loaded(line).value().take(line.len() as int) == line
            &&& line.len() > r.calculated_length ==> r.loaded(line).value() == line.take(
                r.calculated_length as int,
            )
        }),
{
    let r = appended(RecordView::created(name, description, length), fields);
    lemma_length_is_sum(name, description, length, fields);
    let whole = padded(line, r.calculated_length);
    lemma_cut_joins(r.fields, r.calculated_length, whole);
    if line.len() == r.calculated_length {
        assert(whole.take(r.calculated_length as int) =~= line);
    } else if line.len() < r.calculated_length {
        assert(whole.take(r.calculated_length as int) =~= whole);
        assert(whole.take(line.len() as int) =~= line);
    }
}

} // verus!
