//! Ready-made records, for trying the library out.

use std::rc::Rc;
use vstd::prelude::*;
use vstd::string::*;
use vstd::utf8::encode_utf8;
use crate::field::{larger, Field, FieldCreationType, FieldView};
use crate::laws::appended;
use crate::record::{top_multiplicity, Record, RecordView};
use crate::types::base::Kind;
use crate::types::fieldtype::{FieldType, FieldTypeView};

verus! {

/// The type of the fields of the ready-made records: integers, called `I`.
pub open spec fn sample_type() -> FieldTypeView {
    FieldTypeView {
        id: "I"@,
        type_as_string: "int"@,
        kind: Kind::Int,
        format: Seq::empty(),
        pattern: Seq::empty(),
    }
}

/// A new field of the sample type, given by its length.
pub open spec fn sample_by_length(name: Seq<char>, description: Seq<char>, length: nat) -> FieldView {
    FieldView::created(
        name,
        description,
        sample_type(),
        length,
        0,
        0,
        larger(length, encode_utf8(name).len()),
        FieldCreationType::ByLength,
    )
}

/// A new field of the sample type, given by its first and last position counted from 1.
pub open spec fn sample_by_offset(
    name: Seq<char>,
    description: Seq<char>,
    lower: nat,
    upper: nat,
) -> FieldView {
    FieldView::created(
        name,
        description,
        sample_type(),
        (upper - lower + 1) as nat,
        (lower - 1) as nat,
        (upper - 1) as nat,
        larger((upper - lower + 1) as nat, encode_utf8(name).len()),
        FieldCreationType::ByOffset,
    )
}

/// The fields of the record of contiguous fields.
pub open spec fn fields_by_length() -> Seq<FieldView> {
    seq![
        sample_by_length("FIELD1"@, "Description for field 1"@, 10),
        sample_by_length("FIELD2"@, "Description for field 2"@, 10),
        sample_by_length("FIELD3"@, "Description for field 3"@, 20),
        sample_by_length("FIELD2"@, "Description for field 2"@, 10),
    ]
}

/// The fields of the record of fields that lie apart.
pub open spec fn fields_by_offset() -> Seq<FieldView> {
    seq![
        sample_by_offset("FIELD1"@, "Description for field 1"@, 5, 9),
        sample_by_offset("FIELD2"@, "Description for field 2"@, 15, 19),
        sample_by_offset("FIELD3"@, "Description for field 3"@, 30, 39),
        sample_by_offset("FIELD2"@, "Description for field 2"@, 50, 60),
    ]
}

/// The sample type.
fn integer_type() -> (r: Rc<FieldType>)
    ensures
        r@ == sample_type(),
{
    proof {
        reveal_strlit("string");
        reveal_strlit("decimal");
        reveal_strlit("int");
        reveal_strlit("I");
        assert("int"@.len() == 3 && "string"@.len() == 6 && "decimal"@.len() == 7);
        assert(Kind::named("int"@) == Some(Kind::Int));
    }
    Rc::new(FieldType::new("I", "int"))
}

/// The greatest multiplicity in a record is one of the multiplicities of its fields.
pub proof fn lemma_top_is_bounded(fields: Seq<FieldView>, name: Seq<char>, bound: nat)
    requires
        forall|i: int| 0 <= i < fields.len() ==> (#[trigger] fields[i]).multiplicity <= bound,
    ensures
        top_multiplicity(fields, name) is Some ==> top_multiplicity(fields, name)->0 <= bound,
    decreases fields.len(),
{
    if fields.len() > 0 {
        assert forall|i: int| 0 <= i < fields.len() - 1 implies (#[trigger] fields.drop_last()[i]).multiplicity
            <= bound by {
            assert(fields.drop_last()[i] == fields[i]);
        }
        lemma_top_is_bounded(fields.drop_last(), name, bound);
    }
}

/// Appends a new field to a record of few fields.
fn append<T>(rec: &mut Record<T>, f: Field, Ghost(done): Ghost<Seq<FieldView>>)
    requires
        done.len() == old(rec)@.fields.len(),
        old(rec)@ == appended(old(rec)@.created_anew(), done),
        old(rec)@.wf(),
        old(rec)@.calculated_length < 1000,
        old(rec)@.fields.len() < 1000,
        forall|i: int|
            0 <= i < old(rec)@.fields.len() ==> (#[trigger] old(rec)@.fields[i]).multiplicity
                <= done.len(),
        f@.wf(),
        f@.multiplicity == 0,
        f@.length < 100,
        f@.upper_offset < 100,
    ensures
        final(rec)@ == appended(old(rec)@.created_anew(), done.push(f@)),
        final(rec)@.created_anew() == old(rec)@.created_anew(),
        final(rec)@.wf(),
        final(rec)@.calculated_length <= old(rec)@.calculated_length + 100,
        final(rec)@.calculated_length == if old(rec)@.calculated_length < old(rec)@.placed(
            f@,
        ).upper_offset + 1 {
            old(rec)@.placed(f@).upper_offset + 1
        } else {
            old(rec)@.calculated_length
        },
        final(rec)@.fields.len() == old(rec)@.fields.len() + 1,
        forall|i: int|
            0 <= i < final(rec)@.fields.len() ==> (#[trigger] final(rec)@.fields[i]).multiplicity
                <= done.len() + 1,
{
    proof {
        lemma_top_is_bounded(rec@.fields, f@.name, done.len());
        assert(done.push(f@).drop_last() =~= done);
    }
    let ghost before = rec@.fields;
    rec.push(f);
    proof {
        assert forall|i: int| 0 <= i < rec@.fields.len() implies (#[trigger] rec@.fields[i]).multiplicity
            <= done.len() + 1 by {
            if i < before.len() {
                assert(rec@.fields[i] == before[i]);
            }
        }
    }
}

/// A record of four contiguous fields, of which the second and the fourth
/// have the same name.
pub fn set_up_by_length<T>() -> (rec: Record<T>)
    ensures
        rec@ == appended(
            RecordView::created("RECORD1"@, "Description for record 1"@, 20),
            fields_by_length(),
        ),
        rec@.wf(),
        rec@.calculated_length == 50,
        rec@.fields.len() == 4,
{
    proof {
        reveal_strlit("RECORD1");
        reveal_strlit("FIELD1");
        reveal_strlit("FIELD2");
        reveal_strlit("FIELD3");
    }
    let ft1 = integer_type();

    let f1 = Field::from_length("FIELD1", "Description for field 1", &ft1, 10);
    let f2 = Field::from_length("FIELD2", "Description for field 2", &ft1, 10);
    let f3 = Field::from_length("FIELD3", "Description for field 3", &ft1, 20);
    let f4 = Field::from_length("FIELD2", "Description for field 2", &ft1, 10);

    let mut rec = Record::<T>::new("RECORD1", "Description for record 1", 20);
    let ghost none = Seq::<FieldView>::empty();
    let ghost one = none.push(f1@);
    let ghost two = one.push(f2@);
    let ghost three = two.push(f3@);
    let ghost four = three.push(f4@);

    append(&mut rec, f1, Ghost(none));
    append(&mut rec, f2, Ghost(one));
    append(&mut rec, f3, Ghost(two));
    append(&mut rec, f4, Ghost(three));
    assert(four =~= fields_by_length());

    rec
}

/// A record of four fields that lie apart, of which the second and the
/// fourth have the same name.
pub fn set_up_by_offset<T>() -> (rec: Record<T>)
    ensures
        rec@ == appended(
            RecordView::created("RECORD1"@, "Description for record 1"@, 0),
            fields_by_offset(),
        ),
        rec@.wf(),
        rec@.calculated_length == 60,
        rec@.fields.len() == 4,
{
    proof {
        reveal_strlit("RECORD1");
        reveal_strlit("FIELD1");
        reveal_strlit("FIELD2");
        reveal_strlit("FIELD3");
    }
    let ft1 = integer_type();

    let f1 = Field::from_offset("FIELD1", "Description for field 1", &ft1, 5, 9);
    let f2 = Field::from_offset("FIELD2", "Description for field 2", &ft1, 15, 19);
    let f3 = Field::from_offset("FIELD3", "Description for field 3", &ft1, 30, 39);
    let f4 = Field::from_offset("FIELD2", "Description for field 2", &ft1, 50, 60);

    let mut rec = Record::<T>::new("RECORD1", "Description for record 1", 0);
    let ghost none = Seq::<FieldView>::empty();
    let ghost one = none.push(f1@);
    let ghost two = one.push(f2@);
    let ghost three = two.push(f3@);
    let ghost four = three.push(f4@);

    append(&mut rec, f1, Ghost(none));
    append(&mut rec, f2, Ghost(one));
    append(&mut rec, f3, Ghost(two));
    append(&mut rec, f4, Ghost(three));
    assert(four =~= fields_by_offset());

    rec
}

/// A record of `size` fields of ten characters, all of the same name.
pub fn set_up_by_length_huge<T>(size: usize) -> (rec: Record<T>)
    requires
        size * 10 <= usize::MAX,
    ensures
        rec@ == appended(
            RecordView::created("RECORD1"@, "Description for record 1"@, 0),
            Seq::new(
                size as nat,
                |i: int| sample_by_length("FIELD1"@, "Description for field 1"@, 10),
            ),
        ),
        rec@.wf(),
        rec@.calculated_length == size * 10,
        rec@.fields.len() == size,
{
    proof {
        reveal_strlit("RECORD1");
        reveal_strlit("FIELD1");
    }
    let ft1 = integer_type();
    let mut rec = Record::<T>::new("RECORD1", "Description for record 1", 0);
    let ghost start = rec@;
    let ghost f = sample_by_length("FIELD1"@, "Description for field 1"@, 10);

    let mut i: usize = 0;
    assert(Seq::new(0, |i: int| f) =~= Seq::<FieldView>::empty());
    while i < size
        invariant
            i <= size,
            size * 10 <= usize::MAX,
            ft1@ == sample_type(),
            start == RecordView::created("RECORD1"@, "Description for record 1"@, 0),
            f == sample_by_length("FIELD1"@, "Description for field 1"@, 10),
            "FIELD1"@.len() > 0,
            rec@ == appended(start, Seq::new(i as nat, |k: int| f)),
            rec@.wf(),
            rec@.calculated_length == i * 10,
            rec@.fields.len() == i,
            forall|k: int| 0 <= k < i ==> (#[trigger] rec@.fields[k]).multiplicity < i,
        decreases size - i,
    {
        let field = Field::from_length("FIELD1", "Description for field 1", &ft1, 10);
        let ghost before = rec@.fields;
        proof {
            lemma_top_is_bounded(before, field@.name, i as nat);
            if top_multiplicity(before, field@.name) is Some {
                lemma_top_is_reached(before, field@.name);
            }
            assert(Seq::new((i + 1) as nat, |k: int| f).drop_last() =~= Seq::new(
                i as nat,
                |k: int| f,
            ));
        }
        rec.push(field);
        proof {
            assert forall|k: int| 0 <= k < i + 1 implies (#[trigger] rec@.fields[k]).multiplicity < i
                + 1 by {
                if k < i {
                    assert(rec@.fields[k] == before[k]);
                }
            }
        }
        i += 1;
    }
    rec
}

/// The greatest multiplicity under a name is the multiplicity of a field.
pub proof fn lemma_top_is_reached(fields: Seq<FieldView>, name: Seq<char>)
    requires
        top_multiplicity(fields, name) is Some,
    ensures
        exists|i: int|
            0 <= i < fields.len() && (#[trigger] fields[i]).multiplicity == top_multiplicity(
                fields,
                name,
            )->0,
    decreases fields.len(),
{
    if fields.len() > 0 {
        let rest = fields.drop_last();
        if top_multiplicity(rest, name) is Some && top_multiplicity(fields, name)
            == top_multiplicity(rest, name) {
            lemma_top_is_reached(rest, name);
            let i = choose|i: int|
                0 <= i < rest.len() && (#[trigger] rest[i]).multiplicity == top_multiplicity(
                    rest,
                    name,
                )->0;
            assert(fields[i] == rest[i]);
        } else {
            assert(fields[fields.len() - 1] == fields.last());
        }
    }
}

} // verus!
