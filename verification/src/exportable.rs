//! Renders records and layouts as HTML, for browsing.

use vstd::prelude::*;
use vstd::string::*;
use vstd::utf8::encode_utf8;
use crate::field::FieldView;
use crate::layout::{record_names, type_ids, Layout, LayoutView};
use crate::record::{Record, RecordView};
use crate::text::{bytes_less, decimal, push_decimal, push_number, str_less};
use crate::types::fieldtype::FieldTypeView;

verus! {

/// What can be rendered as HTML.
pub trait Exportable {
    /// The HTML text.
    spec fn html(&self) -> Seq<char>;

    fn to_html(&self) -> (r: String)
        ensures
            r@ == self.html(),
    ;
}

/// The table row of a field: its place counted from 1, its name, its
/// description, the id of its type, its length, and its first and last
/// position counted from 1.
pub open spec fn field_row(f: FieldView) -> Seq<char> {
    "<tr><td>"@ + decimal(f.index + 1) + "</td><td><strong>"@ + f.name + "</strong></td>"@
        + "<td>"@ + f.description + "</td><td>"@ + f.ftype.id + "</td><td>"@ + decimal(f.length)
        + "</td>"@ + "<td>"@ + decimal(f.lower_offset + 1) + "</td><td>"@ + decimal(
        f.upper_offset + 1,
    ) + "</td></tr>"@
}

/// The table rows of the fields, in order.
pub open spec fn field_rows(fields: Seq<FieldView>) -> Seq<char>
    decreases fields.len(),
{
    if fields.len() == 0 {
        Seq::empty()
    } else {
        field_rows(fields.drop_last()) + field_row(fields.last())
    }
}

/// The heading and the table of a record.
pub open spec fn record_html(r: RecordView) -> Seq<char> {
    "<h2><span class=\"label label-primary\">"@ + r.name + "-"@ + r.description + "-"@ + decimal(
        r.calculated_length,
    ) + "</span></h2>"@ + "<table class=\"table table-striped\">"@
        + "<thead><tr><th>#</th><th>Field name</th><th>Description</th>"@
        + "<th>Type</th><th>Length</th><th>Start</th><th>End</th></tr></thead>"@ + field_rows(
        r.fields,
    ) + "</table>"@
}

/// Whether the key `a` comes before the key `b`: by the bytes of their
/// UTF-8 encodings, compared lexicographically.
pub open spec fn key_less(a: Seq<char>, b: Seq<char>) -> bool {
    bytes_less(encode_utf8(a), encode_utf8(b))
}

/// The places `order`, which are in the order of their keys, with the place
/// `x` put in after the last place whose key does not come after its own.
pub open spec fn inserted(order: Seq<int>, keys: Seq<Seq<char>>, x: int) -> Seq<int>
    decreases order.len(),
{
    if order.len() > 0 && key_less(keys[x], keys[order.last()]) {
        inserted(order.drop_last(), keys, x).push(order.last())
    } else {
        order.push(x)
    }
}

/// The first `n` places in the order of their keys; places with equal keys
/// keep their order.
pub open spec fn ranking(keys: Seq<Seq<char>>, n: nat) -> Seq<int>
    decreases n,
{
    if n == 0 {
        Seq::empty()
    } else {
        inserted(ranking(keys, (n - 1) as nat), keys, n - 1)
    }
}

/// The table row of a field type: its id, the name of its datatype and its pattern.
pub open spec fn type_row(t: FieldTypeView) -> Seq<char> {
    "<tr><td>"@ + t.id + "</td><td>"@ + t.type_as_string + "</td><td>"@ + t.pattern
        + "</td></tr>"@
}

/// The table rows of the field types at the places `order`.
pub open spec fn type_rows(ftypes: Seq<FieldTypeView>, order: Seq<int>) -> Seq<char>
    decreases order.len(),
{
    if order.len() == 0 {
        Seq::empty()
    } else {
        type_rows(ftypes, order.drop_last()) + type_row(ftypes[order.last()])
    }
}

/// The tables of the records at the places `order`, each followed by a line break.
pub open spec fn record_tables(records: Seq<RecordView>, order: Seq<int>) -> Seq<char>
    decreases order.len(),
{
    if order.len() == 0 {
        Seq::empty()
    } else {
        record_tables(records, order.drop_last()) + record_html(records[order.last()])
            + "<br>"@
    }
}

/// A row of the table of metadata.
pub open spec fn meta_row(name: Seq<char>, value: Seq<char>) -> Seq<char> {
    "<tr><td><strong>"@ + name + "</strong></td><td>"@ + value + "</td></tr>"@
}

/// The start of the page, up to the table of metadata.
pub open spec fn page_head(l: LayoutView) -> Seq<char> {
    "<!DOCTYPE output><html lang=\"en\"><head><meta charset=\"utf-8\">"@
        + "<link rel=\"stylesheet\" href=\"https://maxcdn.bootstrapcdn.com/bootstrap/3.3.5/css/bootstrap.min.css\"></head>"@
        + "<style>@media print { h2 {page-break-before: always;} }</style>"@
        + "<body role=\"document\"><div class=\"container theme-showcase\" role=\"main\">"@
        + "<div class=\"jumbotron\"><h1 class=\"text-center\">"@ + l.description + " ("@
        + l.version + ")</h1></div>"@ + "<div class=\"container\">"@
}

/// The table of the metadata of the layout.
pub open spec fn meta_table(l: LayoutView) -> Seq<char> {
    "<h2><span class=\"label label-primary\">Metadata</span></h2>"@
        + "<table class=\"table table-striped\">"@ + meta_row(
        "Record length"@,
        decimal(l.rec_length),
    ) + meta_row("Version"@, l.version) + meta_row("Description"@, l.description)
        + meta_row("schema"@, l.schema) + "</table><br>"@
}

/// The table of the field types, in the order of their ids.
pub open spec fn types_table(l: LayoutView) -> Seq<char> {
    "<h2><span class=\"label label-primary\">Field types</span></h2>"@
        + "<table class=\"table table-striped\">"@
        + "<thead><tr><th>Field type</th><th>Type of data</th><th>Pattern</th></tr></thead>"@
        + type_rows(l.ftypes, ranking(type_ids(l.ftypes), l.ftypes.len())) + "</table><br>"@
}

/// The page of a layout: its metadata, its field types in the order of
/// their ids and its records in the order of their names.
pub open spec fn layout_html(l: LayoutView) -> Seq<char> {
    page_head(l) + meta_table(l) + types_table(l) + record_tables(
        l.records,
        ranking(record_names(l.records), l.records.len()),
    ) + "</div></div></body></html>"@
}

/// Whether the places stand in the order of their keys: no key comes
/// before the key of an earlier place.
pub open spec fn ordered(order: Seq<int>, keys: Seq<Seq<char>>) -> bool {
    forall|i: int, j: int|
        0 <= i < j < order.len() ==> !key_less(keys[#[trigger] order[j]], keys[#[trigger] order[i]])
}

/// Of two byte strings at most one comes before the other.
pub proof fn lemma_bytes_less_one_way(a: Seq<u8>, b: Seq<u8>)
    ensures
        !(bytes_less(a, b) && bytes_less(b, a)),
    decreases a.len(),
{
    if a.len() > 0 && b.len() > 0 && a[0] == b[0] {
        lemma_bytes_less_one_way(a.drop_first(), b.drop_first());
    }
}

/// If `b` does not come before `a` and `c` does not come before `b`, then
/// `c` does not come before `a`.
pub proof fn lemma_bytes_order(a: Seq<u8>, b: Seq<u8>, c: Seq<u8>)
    requires
        !bytes_less(b, a),
        !bytes_less(c, b),
    ensures
        !bytes_less(c, a),
    decreases a.len(),
{
    if a.len() > 0 && b.len() > 0 && c.len() > 0 && a[0] == b[0] && b[0] == c[0] {
        lemma_bytes_order(a.drop_first(), b.drop_first(), c.drop_first());
    }
}

/// Putting a place in keeps the places that were there and adds the new
/// one; and it keeps the order of the keys.
pub proof fn lemma_inserted(order: Seq<int>, keys: Seq<Seq<char>>, x: int)
    ensures
        inserted(order, keys, x).len() == order.len() + 1,
        forall|i: int|
            0 <= i < inserted(order, keys, x).len() ==> (#[trigger] inserted(order, keys, x)[i])
                == x || order.contains(inserted(order, keys, x)[i]),
        inserted(order, keys, x).contains(x),
        forall|i: int| 0 <= i < order.len() ==> inserted(order, keys, x).contains(#[trigger] order[i]),
        ordered(order, keys) ==> ordered(inserted(order, keys, x), keys),
    decreases order.len(),
{
    let ins = inserted(order, keys, x);
    if order.len() > 0 && key_less(keys[x], keys[order.last()]) {
        let rest = order.drop_last();
        let last = order.last();
        let inner = inserted(rest, keys, x);
        lemma_inserted(rest, keys, x);
        assert(ins =~= inner.push(last));
        assert forall|i: int| 0 <= i < ins.len() implies (#[trigger] ins[i]) == x || order.contains(
            ins[i],
        ) by {
            if i < inner.len() {
                if inner[i] != x {
                    let k = choose|k: int| 0 <= k < rest.len() && rest[k] == inner[i];
                    assert(order[k] == inner[i]);
                }
            } else {
                assert(order[order.len() - 1] == last);
            }
        }
        let k = choose|k: int| 0 <= k < inner.len() && inner[k] == x;
        assert(ins[k] == x);
        assert forall|i: int| 0 <= i < order.len() implies ins.contains(#[trigger] order[i]) by {
            if i < rest.len() {
                assert(rest[i] == order[i]);
                let k = choose|k: int| 0 <= k < inner.len() && inner[k] == rest[i];
                assert(ins[k] == order[i]);
            } else {
                assert(ins[ins.len() - 1] == last);
            }
        }
        if ordered(order, keys) {
            assert(ordered(rest, keys)) by {
                assert forall|i: int, j: int| 0 <= i < j < rest.len() implies !key_less(
                    keys[#[trigger] rest[j]],
                    keys[#[trigger] rest[i]],
                ) by {
                    assert(rest[i] == order[i] && rest[j] == order[j]);
                }
            }
            assert forall|i: int, j: int| 0 <= i < j < ins.len() implies !key_less(
                keys[#[trigger] ins[j]],
                keys[#[trigger] ins[i]],
            ) by {
                if j < inner.len() {
                    assert(ins[i] == inner[i] && ins[j] == inner[j]);
                } else {
                    assert(ins[j] == last);
                    assert(ins[i] == inner[i]);
                    if inner[i] == x {
                        lemma_bytes_less_one_way(encode_utf8(keys[x]), encode_utf8(keys[last]));
                    } else {
                        let k = choose|k: int| 0 <= k < rest.len() && rest[k] == inner[i];
                        assert(order[k] == inner[i]);
                        assert(order[order.len() - 1] == last);
                    }
                }
            }
        }
    } else {
        assert(ins =~= order.push(x));
        assert(ins[ins.len() - 1] == x);
        assert forall|i: int| 0 <= i < ins.len() implies (#[trigger] ins[i]) == x || order.contains(
            ins[i],
        ) by {
            if i < order.len() {
                assert(order[i] == ins[i]);
            }
        }
        assert forall|i: int| 0 <= i < order.len() implies ins.contains(#[trigger] order[i]) by {
            assert(ins[i] == order[i]);
        }
        if ordered(order, keys) {
            assert forall|i: int, j: int| 0 <= i < j < ins.len() implies !key_less(
                keys[#[trigger] ins[j]],
                keys[#[trigger] ins[i]],
            ) by {
                if j < order.len() {
                    assert(ins[i] == order[i] && ins[j] == order[j]);
                } else {
                    let last = order.last();
                    assert(ins[i] == order[i]);
                    if i < order.len() - 1 {
                        assert(order[order.len() - 1] == last);
                        lemma_bytes_order(
                            encode_utf8(keys[order[i]]),
                            encode_utf8(keys[last]),
                            encode_utf8(keys[x]),
                        );
                    }
                }
            }
        }
    }
}

/// The ranking of the first `n` keys holds each of the places below `n`,
/// and no other, and holds them in the order of their keys: field types and
/// records are listed by name.
pub proof fn lemma_ranking(keys: Seq<Seq<char>>, n: nat)
    ensures
        ranking(keys, n).len() == n,
        forall|i: int| 0 <= i < n ==> 0 <= #[trigger] ranking(keys, n)[i] < n,
        forall|k: int| 0 <= k < n ==> ranking(keys, n).contains(k),
        ordered(ranking(keys, n), keys),
    decreases n,
{
    if n > 0 {
        let before = ranking(keys, (n - 1) as nat);
        lemma_ranking(keys, (n - 1) as nat);
        lemma_inserted(before, keys, n - 1);
        let r = ranking(keys, n);
        assert forall|i: int| 0 <= i < n implies 0 <= #[trigger] r[i] < n by {
            if r[i] != n - 1 {
                let k = choose|k: int| 0 <= k < before.len() && before[k] == r[i];
            }
        }
        assert forall|k: int| 0 <= k < n implies r.contains(k) by {
            if k < n - 1 {
                assert(before.contains(k));
                let p = choose|p: int| 0 <= p < before.len() && before[p] == k;
                assert(r.contains(before[p]));
            }
        }
    }
}

/// Puts the place `x` into `order`, which is in the order of its keys.
fn insert(order: Vec<usize>, keys: &Vec<&str>, x: usize) -> (r: Vec<usize>)
    requires
        x < keys.len(),
        forall|i: int| 0 <= i < order.len() ==> (#[trigger] order[i]) < keys.len(),
    ensures
        places(r@) == inserted(places(order@), crate::text::texts(keys@), x as int),
        forall|i: int| 0 <= i < r.len() ==> (#[trigger] r[i]) < keys.len(),
    decreases order.len(),
{
    let mut order = order;
    let ghost before = places(order@);
    if order.len() > 0 {
        let last = order[order.len() - 1];
        assert(before.last() == last);
        if str_less(keys[x], keys[last]) {
            order.pop();
            assert(places(order@) =~= before.drop_last());
            let mut r = insert(order, keys, x);
            let ghost done = places(r@);
            r.push(last);
            assert(places(r@) =~= done.push(last as int));
            return r;
        }
    }
    order.push(x);
    assert(places(order@) =~= before.push(x as int));
    order
}

/// The places as numbers.
pub open spec fn places(order: Seq<usize>) -> Seq<int> {
    order.map_values(|i: usize| i as int)
}

/// Ranks the keys: gives their places in the order of the keys.
pub fn rank(keys: &Vec<&str>) -> (r: Vec<usize>)
    ensures
        places(r@) == ranking(crate::text::texts(keys@), keys.len() as nat),
        forall|i: int| 0 <= i < r.len() ==> (#[trigger] r[i]) < keys.len(),
{
    let mut order: Vec<usize> = Vec::new();
    let mut n: usize = 0;
    assert(places(order@) =~= Seq::<int>::empty());
    while n < keys.len()
        invariant
            n <= keys.len(),
            places(order@) == ranking(crate::text::texts(keys@), n as nat),
            forall|i: int| 0 <= i < order.len() ==> (#[trigger] order[i]) < keys.len(),
        decreases keys.len() - n,
    {
        order = insert(order, keys, n);
        n += 1;
    }
    order
}

impl<T> Exportable for Record<T> {
    open spec fn html(&self) -> Seq<char> {
        record_html(self@)
    }

    /// Converts a record to an HTML table with all fields data.
    fn to_html(&self) -> (r: String) {
        let ghost fields = self@.fields;
        let mut s = String::new();
        s.append("<h2><span class=\"label label-primary\">");
        s.append(self.name.as_str());
        s.append("-");
        s.append(self.description.as_str());
        s.append("-");
        push_decimal(&mut s, self.calculated_length);
        s.append("</span></h2>");
        s.append("<table class=\"table table-striped\">");
        s.append("<thead><tr><th>#</th><th>Field name</th><th>Description</th>");
        s.append("<th>Type</th><th>Length</th><th>Start</th><th>End</th></tr></thead>");
        let ghost head = s@;
        assert(head =~= "<h2><span class=\"label label-primary\">"@ + self@.name + "-"@
            + self@.description + "-"@ + decimal(self@.calculated_length) + "</span></h2>"@
            + "<table class=\"table table-striped\">"@
            + "<thead><tr><th>#</th><th>Field name</th><th>Description</th>"@
            + "<th>Type</th><th>Length</th><th>Start</th><th>End</th></tr></thead>"@);
        let mut i: usize = 0;
        assert(head + field_rows(fields.take(0)) =~= head);
        while i < self.flist.len()
            invariant
                i <= self.flist.len(),
                fields == self@.fields,
                s@ == head + field_rows(fields.take(i as int)),
            decreases self.flist.len() - i,
        {
            assert(fields.take(i + 1).drop_last() =~= fields.take(i as int));
            assert(fields.take(i + 1).last() == self.flist[i as int]@);
            let f = &self.flist[i];
            let ghost prior = s@;
            s.append("<tr><td>");
            push_number(&mut s, f.index as u128 + 1);
            s.append("</td><td><strong>");
            s.append(f.name.as_str());
            s.append("</strong></td>");
            s.append("<td>");
            s.append(f.description.as_str());
            s.append("</td><td>");
            s.append(f.ftype.id.as_str());
            s.append("</td><td>");
            push_decimal(&mut s, f.length);
            s.append("</td>");
            s.append("<td>");
            push_number(&mut s, f.lower_offset as u128 + 1);
            s.append("</td><td>");
            push_number(&mut s, f.upper_offset as u128 + 1);
            s.append("</td></tr>");
            assert(s@ =~= prior + field_row(f@));
            assert(s@ =~= head + field_rows(fields.take(i + 1)));
            i += 1;
        }
        assert(fields.take(i as int) =~= fields);
        s.append("</table>");
        assert(s@ =~= record_html(self@));
        s
    }
}

/// Appends a row of the table of metadata.
fn push_meta_row(s: &mut String, name: &str, value: &str)
    ensures
        final(s)@ == old(s)@ + meta_row(name@, value@),
{
    s.append("<tr><td><strong>");
    s.append(name);
    s.append("</strong></td><td>");
    s.append(value);
    s.append("</td></tr>");
    assert(s@ =~= old(s)@ + meta_row(name@, value@));
}

impl<T> Exportable for Layout<T> {
    open spec fn html(&self) -> Seq<char> {
        layout_html(self@)
    }

    /// Converts the whole layout to an HTML page. Field types and records
    /// are sorted by name, and the page uses some bootstrap goodies.
    fn to_html(&self) -> (r: String) {
        let mut s = String::new();
        s.append("<!DOCTYPE output><html lang=\"en\"><head><meta charset=\"utf-8\">");
        s.append(
            "<link rel=\"stylesheet\" href=\"https://maxcdn.bootstrapcdn.com/bootstrap/3.3.5/css/bootstrap.min.css\"></head>",
        );
        s.append("<style>@media print { h2 {page-break-before: always;} }</style>");
        s.append("<body role=\"document\"><div class=\"container theme-showcase\" role=\"main\">");
        s.append("<div class=\"jumbotron\"><h1 class=\"text-center\">");
        s.append(self.description.as_str());
        s.append(" (");
        s.append(self.version.as_str());
        s.append(")</h1></div>");
        s.append("<div class=\"container\">");
        assert(s@ =~= page_head(self@));

        // meta data
        let mut length = String::new();
        push_decimal(&mut length, self.rec_length);
        assert(length@ =~= decimal(self@.rec_length));
        let ghost prior = s@;
        s.append("<h2><span class=\"label label-primary\">Metadata</span></h2>");
        s.append("<table class=\"table table-striped\">");
        push_meta_row(&mut s, "Record length", length.as_str());
        push_meta_row(&mut s, "Version", self.version.as_str());
        push_meta_row(&mut s, "Description", self.description.as_str());
        push_meta_row(&mut s, "schema", self.schema.as_str());
        s.append("</table><br>");
        assert(s@ =~= prior + meta_table(self@));

        // field types, sorted
        let mut ids: Vec<&str> = Vec::new();
        let mut i: usize = 0;
        while i < self.ftypes.len()
            invariant
                i <= self.ftypes.len(),
                ids.len() == i,
                forall|k: int| 0 <= k < i ==> (#[trigger] ids[k])@ == self.ftypes[k].id@,
            decreases self.ftypes.len() - i,
        {
            ids.push(self.ftypes[i].id.as_str());
            i += 1;
        }
        assert(crate::text::texts(ids@) =~= type_ids(self@.ftypes));
        let order = rank(&ids);
        let ghost ranks = places(order@);
        let ghost prior = s@;
        s.append("<h2><span class=\"label label-primary\">Field types</span></h2>");
        s.append("<table class=\"table table-striped\">");
        s.append("<thead><tr><th>Field type</th><th>Type of data</th><th>Pattern</th></tr></thead>");
        let ghost head = s@;
        let mut i: usize = 0;
        assert(head + type_rows(self@.ftypes, ranks.take(0)) =~= head);
        while i < order.len()
            invariant
                i <= order.len(),
                ranks == places(order@),
                forall|k: int| 0 <= k < order.len() ==> (#[trigger] order[k]) < self.ftypes.len(),
                s@ == head + type_rows(self@.ftypes, ranks.take(i as int)),
            decreases order.len() - i,
        {
            assert(ranks.take(i + 1).drop_last() =~= ranks.take(i as int));
            assert(ranks.take(i + 1).last() == order[i as int] as int);
            let t = &self.ftypes[order[i]];
            assert(self@.ftypes[order[i as int] as int] == t@);
            let ghost before = s@;
            s.append("<tr><td>");
            s.append(t.id.as_str());
            s.append("</td><td>");
            s.append(t.type_as_string.as_str());
            s.append("</td><td>");
            s.append(t.pattern.as_str());
            s.append("</td></tr>");
            assert(s@ =~= before + type_row(t@));
            assert(s@ =~= head + type_rows(self@.ftypes, ranks.take(i + 1)));
            i += 1;
        }
        assert(ranks.take(i as int) =~= ranks);
        s.append("</table><br>");
        assert(s@ =~= prior + types_table(self@));

        // records, sorted
        let mut names: Vec<&str> = Vec::new();
        let mut i: usize = 0;
        while i < self.rec_map.len()
            invariant
                i <= self.rec_map.len(),
                names.len() == i,
                forall|k: int| 0 <= k < i ==> (#[trigger] names[k])@ == self.rec_map[k].name@,
            decreases self.rec_map.len() - i,
        {
            names.push(self.rec_map[i].name.as_str());
            i += 1;
        }
        assert(crate::text::texts(names@) =~= record_names(self@.records));
        let order = rank(&names);
        let ghost ranks = places(order@);
        let ghost head = s@;
        let mut i: usize = 0;
        assert(head + record_tables(self@.records, ranks.take(0)) =~= head);
        while i < order.len()
            invariant
                i <= order.len(),
                ranks == places(order@),
                forall|k: int| 0 <= k < order.len() ==> (#[trigger] order[k]) < self.rec_map.len(),
                s@ == head + record_tables(self@.records, ranks.take(i as int)),
            decreases order.len() - i,
        {
            assert(ranks.take(i + 1).drop_last() =~= ranks.take(i as int));
            assert(ranks.take(i + 1).last() == order[i as int] as int);
            let rec = &self.rec_map[order[i]];
            assert(self@.records[order[i as int] as int] == rec@);
            let ghost before = s@;
            s.append(rec.to_html().as_str());
            s.append("<br>");
            assert(s@ =~= head + record_tables(self@.records, ranks.take(i + 1)));
            i += 1;
        }
        assert(ranks.take(i as int) =~= ranks);
        s.append("</div></div></body></html>");
        assert(s@ =~= layout_html(self@));
        s
    }
}

} // verus!
