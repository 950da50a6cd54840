//! Reading lists of field names, and lists of records with their field
//! names, as they are given on a command line or in a file.

use vstd::prelude::*;
use crate::text::{split, split_on, texts, trim, trimmed};

verus! {

/// The character between the field names of a list.
pub const FIELD_DELIMITER: char = ',';

/// The character between a record name and its field names.
pub const RECORD_FIELD_DELIMITER: char = ':';

/// Every text without the white space around it.
pub open spec fn all_trimmed(pieces: Seq<Seq<char>>) -> Seq<Seq<char>> {
    pieces.map_values(|p: Seq<char>| trimmed(p))
}

/// The field names that `s` lists, separated by commas.
pub open spec fn field_list(s: Seq<char>) -> Seq<Seq<char>> {
    all_trimmed(split_on(s, ','))
}

/// The record name and the field names that an entry `NAME: F1, F2` gives;
/// nothing if the entry holds no colon. What follows a second colon is left out.
pub open spec fn record_entry(piece: Seq<char>) -> Option<(Seq<char>, Seq<Seq<char>>)> {
    let parts = split_on(piece, ':');
    if parts.len() >= 2 {
        Some((trimmed(parts[0]), field_list(parts[1])))
    } else {
        None
    }
}

/// The entries that the pieces give, if every piece gives one.
pub open spec fn record_entries(pieces: Seq<Seq<char>>) -> Option<
    Seq<(Seq<char>, Seq<Seq<char>>)>,
>
    decreases pieces.len(),
{
    if pieces.len() == 0 {
        Some(Seq::empty())
    } else {
        match (record_entries(pieces.drop_last()), record_entry(pieces.last())) {
            (Some(done), Some(e)) => Some(done.push(e)),
            _ => None,
        }
    }
}

/// The content of a list of entries.
pub open spec fn entries_view(list: Seq<(&str, Vec<&str>)>) -> Seq<(Seq<char>, Seq<Seq<char>>)> {
    list.map_values(|e: (&str, Vec<&str>)| (e.0@, texts(e.1@)))
}

/// Converts a comma-separated string into a vector of trimmed string refs.
pub fn into_field_list<'a>(s: &'a str) -> (r: Vec<&'a str>)
    ensures
        texts(r@) == field_list(s@),
{
    let pieces = split(s, FIELD_DELIMITER);
    let mut out: Vec<&'a str> = Vec::new();
    let mut i: usize = 0;
    while i < pieces.len()
        invariant
            i <= pieces.len(),
            out.len() == i,
            forall|k: int| 0 <= k < i ==> (#[trigger] out@[k])@ == trimmed(pieces@[k]@),
        decreases pieces.len() - i,
    {
        out.push(trim(pieces[i]));
        i += 1;
    }
    assert(texts(out@) =~= all_trimmed(texts(pieces@)));
    out
}

/// Converts a pattern to a list of trimmed string refs: for each record
/// name, the names of its fields. The entries are separated by `delimiter`
/// and written `NAME: F1, F2`. Returns nothing if an entry holds no colon.
pub fn into_rec_map<'a>(s: &'a str, delimiter: char) -> (r: Option<Vec<(&'a str, Vec<&'a str>)>>)
    ensures
        match r {
            Some(list) => record_entries(split_on(s@, delimiter)) == Some(entries_view(list@)),
            None => record_entries(split_on(s@, delimiter)) is None,
        },
{
    let pieces = split(s, delimiter);
    let ghost all = texts(pieces@);
    let mut out: Vec<(&'a str, Vec<&'a str>)> = Vec::new();
    let mut i: usize = 0;
    assert(all.take(0) =~= Seq::<Seq<char>>::empty());
    assert(entries_view(out@) =~= Seq::empty());
    while i < pieces.len()
        invariant
            i <= pieces.len(),
            all == texts(pieces@),
            all == split_on(s@, delimiter),
            record_entries(all.take(i as int)) == Some(entries_view(out@)),
        decreases pieces.len() - i,
    {
        assert(all.take(i + 1).drop_last() =~= all.take(i as int));
        assert(all.take(i + 1).last() == pieces@[i as int]@);
        let parts = split(pieces[i], RECORD_FIELD_DELIMITER);
        if parts.len() < 2 {
            proof {
                assert(texts(parts@).len() == parts.len());
                assert(record_entry(all.take(i + 1).last()) is None);
                lemma_entries_fail(all, i + 1);
            }
            return None;
        }
        assert(texts(parts@)[0] == parts@[0]@);
        assert(texts(parts@)[1] == parts@[1]@);
        let name = trim(parts[0]);
        let fields = into_field_list(parts[1]);
        let ghost done = entries_view(out@);
        out.push((name, fields));
        assert(entries_view(out@) =~= done.push((name@, texts(fields@))));
        i += 1;
    }
    assert(all.take(i as int) =~= all);
    Some(out)
}

/// Where the first `k` pieces do not all give entries, neither do all pieces.
pub proof fn lemma_entries_fail(pieces: Seq<Seq<char>>, k: int)
    requires
        0 <= k <= pieces.len(),
        record_entries(pieces.take(k)) is None,
    ensures
        record_entries(pieces) is None,
    decreases pieces.len() - k,
{
    if k < pieces.len() {
        assert(pieces.take(k + 1).drop_last() =~= pieces.take(k));
        lemma_entries_fail(pieces, k + 1);
    } else {
        assert(pieces.take(k) =~= pieces);
    }
}

} // verus!
