//! A predicate on a record: field filters that must all hold.
//!
//! A field filter whose field the record does not hold is passed over. Where
//! the record holds the field several times, the filter holds if it holds of
//! one occurrence at least.

use vstd::prelude::*;
use crate::error::{ErrorView, RbfError};
use crate::field::FieldView;
use crate::filter::fieldfilter::{FieldFilter, FieldFilterView};
use crate::layout::Layout;
use crate::record::named;
use crate::text::{split, split_on, texts};

verus! {

/// The character that separates the field filters of one record filter.
pub const FIELD_FILTER_DELIMITER: char = ';';

#[derive(Debug)]
pub struct RecordFilter {
    pub expr: Vec<FieldFilter>,
}

impl View for RecordFilter {
    type V = Seq<FieldFilterView>;

    open spec fn view(&self) -> Seq<FieldFilterView> {
        self.expr@.map_values(|f: FieldFilter| f@)
    }
}

/// The filters that the expressions write, or the error of the first
/// expression that writes none.
pub open spec fn parsed_all(pieces: Seq<Seq<char>>) -> Result<Seq<FieldFilterView>, ErrorView>
    decreases pieces.len(),
{
    if pieces.len() == 0 {
        Ok(Seq::empty())
    } else {
        match parsed_all(pieces.drop_last()) {
            Err(e) => Err(e),
            Ok(done) => match FieldFilterView::parsed(pieces.last()) {
                Ok(f) => Ok(done.push(f)),
                Err(e) => Err(e),
            },
        }
    }
}

/// The record filter that `expr` writes: field filters separated by `;`.
pub open spec fn parsed_record_filter(expr: Seq<char>) -> Result<Seq<FieldFilterView>, ErrorView> {
    parsed_all(split_on(expr, ';'))
}

/// Whether the filter holds of one of the fields. The fields are tried in
/// order up to the first of which the filter holds or on which it fails.
pub open spec fn any_matches(fields: Seq<FieldView>, filter: FieldFilterView) -> Result<
    bool,
    ErrorView,
>
    decreases fields.len(),
{
    if fields.len() == 0 {
        Ok(false)
    } else {
        match fields[0].filter_outcome(filter) {
            Ok(true) => Ok(true),
            Ok(false) => any_matches(fields.drop_first(), filter),
            Err(e) => Err(e),
        }
    }
}

/// The outcome `r` joined to what was found before: an error stays, an
/// answer is combined with `found`.
pub open spec fn and_also(found: bool, r: Result<bool, ErrorView>) -> Result<bool, ErrorView> {
    match r {
        Ok(b) => Ok(found && b),
        Err(e) => Err(e),
    }
}

/// Whether all filters hold of the fields of a record. Every filter is
/// evaluated, in order, and the first failure is the outcome.
pub open spec fn all_match(fields: Seq<FieldView>, filters: Seq<FieldFilterView>) -> Result<
    bool,
    ErrorView,
>
    decreases filters.len(),
{
    if filters.len() == 0 {
        Ok(true)
    } else {
        let occurrences = named(fields, filters[0].fname);
        if occurrences.len() == 0 {
            all_match(fields, filters.drop_first())
        } else {
            match any_matches(occurrences, filters[0]) {
                Ok(b) => and_also(b, all_match(fields, filters.drop_first())),
                Err(e) => Err(e),
            }
        }
    }
}

/// The view of a record filter or of the error in its place.
pub open spec fn record_filter_result(r: Result<RecordFilter, RbfError>) -> Result<
    Seq<FieldFilterView>,
    ErrorView,
> {
    match r {
        Ok(f) => Ok(f@),
        Err(e) => Err(e@),
    }
}

impl RecordFilter {
    /// Reads a record filter such as `FIELD1 = 10;FIELD2 != 20; FIELD3 ~ ^#`.
    pub fn from(op: &str) -> (r: Result<RecordFilter, RbfError>)
        ensures
            record_filter_result(r) == parsed_record_filter(op@),
    {
        let pieces = split(op, FIELD_FILTER_DELIMITER);
        let ghost all = split_on(op@, ';');
        let mut vec: Vec<FieldFilter> = Vec::new();
        let mut i: usize = 0;
        assert(all.take(0) =~= Seq::<Seq<char>>::empty());
        assert(vec@.map_values(|f: FieldFilter| f@) =~= Seq::<FieldFilterView>::empty());
        while i < pieces.len()
            invariant
                i <= pieces.len(),
                texts(pieces@) == all,
                all == split_on(op@, ';'),
                parsed_all(all.take(i as int)) == Ok::<Seq<FieldFilterView>, ErrorView>(
                    vec@.map_values(|f: FieldFilter| f@),
                ),
            decreases pieces.len() - i,
        {
            assert(all.take(i + 1).drop_last() =~= all.take(i as int));
            assert(all.take(i + 1).last() == pieces@[i as int]@);
            match FieldFilter::from(pieces[i]) {
                Ok(f) => {
                    let ghost done = vec@.map_values(|f: FieldFilter| f@);
                    vec.push(f);
                    assert(vec@.map_values(|f: FieldFilter| f@) =~= done.push(f@));
                },
                Err(e) => {
                    proof {
                        assert(FieldFilterView::parsed(all.take(i + 1).last()) == Err::<
                            FieldFilterView,
                            ErrorView,
                        >(e@));
                        assert(parsed_all(all.take(i + 1)) == Err::<Seq<FieldFilterView>, ErrorView>(
                            e@,
                        ));
                        lemma_parse_fails(all, i + 1);
                    }
                    return Err(e);
                },
            }
            i += 1;
        }
        assert(all.take(i as int) =~= all);
        Ok(RecordFilter { expr: vec })
    }

    /// Checks if all field names are found in the layout; reports the first
    /// filter whose field no record of the layout holds.
    pub fn check<T>(&self, layout: &Layout<T>) -> (r: Result<(), RbfError>)
        ensures
            match r {
                Ok(_) => forall|i: int|
                    0 <= i < self@.len() ==> layout@.contains_field((#[trigger] self@[i]).fname),
                Err(e) => exists|i: int|
                    {
                        &&& 0 <= i < self@.len()
                        &&& !layout@.contains_field((#[trigger] self@[i]).fname)
                        &&& forall|j: int|
                            0 <= j < i ==> layout@.contains_field((#[trigger] self@[j]).fname)
                        &&& e@ == ErrorView::InvalidFilter(
                            self@[i].fname + self@[i].op_string + self@[i].freg_or_value,
                        )
                    },
            },
    {
        let mut i: usize = 0;
        while i < self.expr.len()
            invariant
                i <= self.expr.len(),
                forall|j: int| 0 <= j < i ==> layout@.contains_field((#[trigger] self@[j]).fname),
            decreases self.expr.len() - i,
        {
            assert(self@[i as int] == self.expr[i as int]@);
            if !layout.contains_field(self.expr[i].fname.as_str()) {
                return Err(RbfError::InvalidFilter(self.expr[i].to_string()));
            }
            i += 1;
        }
        Ok(())
    }
}

/// Where the first `k` expressions fail to write filters, all of them fail
/// in the same way.
pub proof fn lemma_parse_fails(pieces: Seq<Seq<char>>, k: int)
    requires
        0 <= k <= pieces.len(),
        parsed_all(pieces.take(k)) is Err,
    ensures
        parsed_all(pieces) == parsed_all(pieces.take(k)),
    decreases pieces.len() - k,
{
    if k < pieces.len() {
        assert(pieces.take(k + 1).drop_last() =~= pieces.take(k));
        lemma_parse_fails(pieces, k + 1);
    } else {
        assert(pieces.take(k) =~= pieces);
    }
}

} // verus!
