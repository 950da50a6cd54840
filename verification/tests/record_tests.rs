use std::rc::Rc;

use rbf::field::{Field, FieldCreationType};
use rbf::filter::fieldfilter::FieldFilter;
use rbf::record::{AsciiMode, ReadMode, Record, UTF8Mode};
use rbf::setup::{set_up_by_length, set_up_by_length_huge, set_up_by_offset};
use rbf::types::fieldtype::FieldType;

fn names<T>(rec: &Record<T>) -> Vec<String> {
    rec.flist.iter().map(|f| f.name.clone()).collect()
}

fn descriptions<T>(rec: &Record<T>) -> Vec<String> {
    rec.flist.iter().map(|f| f.description.clone()).collect()
}

fn lengths<T>(rec: &Record<T>) -> Vec<usize> {
    rec.flist.iter().map(|f| f.length).collect()
}

fn raw_values<T>(rec: &Record<T>) -> Vec<String> {
    rec.flist.iter().map(|f| f.raw_value.clone()).collect()
}

fn str_values<T>(rec: &Record<T>) -> Vec<String> {
    rec.flist.iter().map(|f| f.str_value.clone()).collect()
}

#[test]
fn record_ascii_by_length() {
    // setup data
    let mut rec = set_up_by_length::<AsciiMode>();

    assert_eq!(rec.calculated_length, 50);
    assert_eq!(rec.count(), 4);

    assert_eq!(names(&rec), vec!["FIELD1", "FIELD2", "FIELD3", "FIELD2"]);
    assert_eq!(
        descriptions(&rec),
        vec![
            "Description for field 1",
            "Description for field 2",
            "Description for field 3",
            "Description for field 2"
        ]
    );
    assert_eq!(lengths(&rec), vec![10, 10, 20, 10]);

    let s = "FIELD1".to_string();

    assert!(rec.contains_field(&s));
    assert_eq!(rec.contains_field("FOO"), false);

    assert!(rec.get("FIELD1").is_some());
    assert!(rec.get("FOO").is_none());

    // line has exactly the right length in chars
    let s2 = "AAAAAAAAAABBBBBBBBBBCCCCCCCCCCCCCCCCCCCCDDDDDDDDDD";
    rec.set_value(&s2);
    assert_eq!(rec.flist[0].value(), "AAAAAAAAAA");
    assert_eq!(rec.flist[1].value(), "BBBBBBBBBB");
    assert_eq!(rec.flist[2].value(), "CCCCCCCCCCCCCCCCCCCC");
    assert_eq!(rec.flist[3].value(), "DDDDDDDDDD");
    assert_eq!(
        raw_values(&rec),
        vec![
            "AAAAAAAAAA",
            "BBBBBBBBBB",
            "CCCCCCCCCCCCCCCCCCCC",
            "DDDDDDDDDD"
        ]
    );

    // test display
    assert_eq!(rec.to_string(), "(FIELD1='AAAAAAAAAA',FIELD2='BBBBBBBBBB',FIELD3='CCCCCCCCCCCCCCCCCCCC',FIELD2='DDDDDDDDDD')");

    // line is over right length in chars
    let s3 = "AAAAAAAAAABBBBBBBBBBCCCCCCCCCCCCCCCCCCCCDDDDDDDDDDEEEEEEEEEEEEEEEE";
    rec.set_value(&s3);
    assert_eq!(rec.flist[0].value(), "AAAAAAAAAA");
    assert_eq!(rec.flist[1].value(), "BBBBBBBBBB");
    assert_eq!(rec.flist[2].value(), "CCCCCCCCCCCCCCCCCCCC");
    assert_eq!(rec.flist[3].value(), "DDDDDDDDDD");
    assert_eq!(
        raw_values(&rec),
        vec![
            "AAAAAAAAAA",
            "BBBBBBBBBB",
            "CCCCCCCCCCCCCCCCCCCC",
            "DDDDDDDDDD"
        ]
    );

    // line is shorter than the length in chars
    let s4 = "ZZZZZZZZZZ";
    rec.set_value(&s4);
    assert_eq!(rec.flist[0].value(), "ZZZZZZZZZZ");
    assert_eq!(rec.flist[1].raw_value, "          ");
    assert_eq!(rec.flist[2].raw_value, "                    ");
    assert_eq!(rec.flist[3].raw_value, "          ");
    assert_eq!(rec.flist[1].value(), "");
    assert_eq!(rec.flist[2].value(), "");
    assert_eq!(rec.flist[3].value(), "");
    assert_eq!(str_values(&rec), vec!["ZZZZZZZZZZ", "", "", ""]);
}

#[test]
fn record_ascii_by_offset() {
    // setup data
    let mut rec = set_up_by_offset::<AsciiMode>();

    assert_eq!(rec.calculated_length, 60);
    assert_eq!(rec.count(), 4);

    assert_eq!(names(&rec), vec!["FIELD1", "FIELD2", "FIELD3", "FIELD2"]);
    assert_eq!(
        descriptions(&rec),
        vec![
            "Description for field 1",
            "Description for field 2",
            "Description for field 3",
            "Description for field 2"
        ]
    );
    assert_eq!(lengths(&rec), vec![5, 5, 10, 11]);

    let s = "FIELD1".to_string();

    assert!(rec.contains_field(&s));
    assert_eq!(rec.contains_field("FOO"), false);

    assert!(rec.get("FIELD1").is_some());
    assert!(rec.get("FOO").is_none());

    // line has exactly the right length in chars
    let s1 = "    AAAAA     BBBBB          CCCCCCCCCC          DDDDDDDDDDD";
    rec.set_value(&s1);
    assert_eq!(rec.flist[0].value(), "AAAAA");
    assert_eq!(rec.flist[1].value(), "BBBBB");
    assert_eq!(rec.flist[2].value(), "CCCCCCCCCC");
    assert_eq!(rec.flist[3].value(), "DDDDDDDDDDD");
    assert_eq!(
        raw_values(&rec),
        vec!["AAAAA", "BBBBB", "CCCCCCCCCC", "DDDDDDDDDDD"]
    );
}

#[test]
fn record_utf8_by_offset() {
    // setup data
    let mut rec = set_up_by_offset::<UTF8Mode>();

    // line has exactly the right length in chars
    let s1 = "    ααααα     βββββ          γγγγγγγγγγ          δδδδδδδδδδδ";
    rec.set_value(&s1);
    assert_eq!(rec.flist[0].value(), "ααααα");
    assert_eq!(rec.flist[1].value(), "βββββ");
    assert_eq!(rec.flist[2].value(), "γγγγγγγγγγ");
    assert_eq!(rec.flist[3].value(), "δδδδδδδδδδδ");
    assert_eq!(
        raw_values(&rec),
        vec![
            "ααααα",
            "βββββ",
            "γγγγγγγγγγ",
            "δδδδδδδδδδδ"
        ]
    );
}

#[test]
fn record_utf8_by_length() {
    // setup data
    let mut rec = set_up_by_length::<UTF8Mode>();

    let s5 = "ααααααααααββββββββββγγγγγγγγγγγγγγγγγγγγδδδδδδδδδδ";
    rec.set_value(&s5);
    assert_eq!(rec.flist[0].value(), "αααααααααα");
    assert_eq!(rec.flist[1].value(), "ββββββββββ");
    assert_eq!(rec.flist[2].value(), "γγγγγγγγγγγγγγγγγγγγ");
    assert_eq!(rec.flist[3].value(), "δδδδδδδδδδ");
    assert_eq!(
        raw_values(&rec),
        vec![
            "αααααααααα",
            "ββββββββββ",
            "γγγγγγγγγγγγγγγγγγγγ",
            "δδδδδδδδδδ"
        ]
    );
}

#[test]
fn field_by_offset_has_zero_based_bounds() {
    let ft = Rc::new(FieldType::new("I", "int"));
    for (a, b) in [(1usize, 1usize), (5, 9), (15, 19), (50, 60), (7, 1000)] {
        let f = Field::from_offset("F1", "a field", &ft, a, b);
        assert_eq!(f.length, b - a + 1);
        assert_eq!(f.len(), b - a + 1);
        assert_eq!(f.lower_offset, a - 1);
        assert_eq!(f.upper_offset, b - 1);
        assert_eq!(f.creation_type, FieldCreationType::ByOffset);
    }
    let f = Field::from_offset("A_LONG_NAME", "", &ft, 3, 4);
    assert_eq!(f.cell_size, 11);
    let f = Field::from_length("F1", "", &ft, 10);
    assert_eq!(f.cell_size, 10);
    assert_eq!(f.creation_type, FieldCreationType::ByLength);
    assert_eq!((f.lower_offset, f.upper_offset, f.index, f.multiplicity), (0, 0, 0, 0));
}

#[test]
fn field_value_is_the_trimmed_raw_value() {
    let ft = Rc::new(FieldType::new("S", "string"));
    let mut f = Field::from_length("F1", "Description for field 1", &ft, 10);
    for raw in ["  αβ  ", "  XX  ", "", "    ", "\t\u{a0}x y\u{3000}\r\n", "no-blank", "\u{2003}z"] {
        f.set_value(raw);
        assert_eq!(f.raw_value, raw);
        assert_eq!(f.str_value, raw.trim());
        assert_eq!(f.value(), raw.trim());
    }
    f.set_value("  XX  ");
    assert_eq!(f.to_string(), "F1='XX'");
    let other = f.clone();
    assert_eq!(other.value(), "XX");
    assert_eq!(other.name, "F1");
}

#[test]
fn calculated_length_is_the_sum_of_lengths() {
    let ft = Rc::new(FieldType::new("S", "string"));
    let lengths = [3usize, 1, 25, 7, 7, 100, 2];
    let mut rec = Record::<AsciiMode>::new("R", "", 0);
    let mut sum = 0;
    for (i, l) in lengths.iter().enumerate() {
        let f = Field::from_length("F", "", &ft, *l);
        assert!(rec.can_push(&f));
        rec.push(f);
        sum += l;
        assert_eq!(rec.calculated_length, sum);
        assert_eq!(rec.flist[i].index, i);
        assert_eq!(rec.flist[i].offset_from_origin, sum - l);
        assert_eq!(rec.flist[i].lower_offset, sum - l);
        assert_eq!(rec.flist[i].upper_offset, sum - 1);
    }
    assert_eq!(rec.calculated_length, 145);
}

#[test]
fn calculated_length_reaches_the_furthest_field() {
    let ft = Rc::new(FieldType::new("S", "string"));
    let mut rec = Record::<AsciiMode>::new("R", "", 0);
    rec.push(Field::from_offset("A", "", &ft, 11, 20));
    assert_eq!(rec.calculated_length, 20);
    rec.push(Field::from_offset("B", "", &ft, 1, 5));
    assert_eq!(rec.calculated_length, 20);
    assert_eq!(rec.flist[1].offset_from_origin, 20);
    rec.push(Field::from_length("C", "", &ft, 4));
    assert_eq!(rec.calculated_length, 24);
    assert_eq!((rec.flist[2].lower_offset, rec.flist[2].upper_offset), (20, 23));
    rec.set_value("abcdefghijklmnopqrstuvwxyz");
    assert_eq!(rec.flist[0].value(), "klmnopqrst");
    assert_eq!(rec.flist[1].value(), "abcde");
    assert_eq!(rec.flist[2].value(), "uvwx");
    rec.set_value("abc");
    assert_eq!(rec.flist[0].raw_value, "          ");
    assert_eq!(rec.flist[1].raw_value, "abc  ");
    assert_eq!(rec.flist[1].value(), "abc");
}

#[test]
fn multiplicities_count_the_occurrences() {
    let ft = Rc::new(FieldType::new("S", "string"));
    let mut rec = Record::<UTF8Mode>::new("R", "", 0);
    for name in ["A", "B", "A", "A", "C", "B", "A"] {
        rec.push(Field::from_length(name, "", &ft, 2));
    }
    let mults: Vec<usize> = rec.flist.iter().map(|f| f.multiplicity).collect();
    assert_eq!(mults, vec![0, 0, 1, 2, 0, 1, 3]);
    let ids: Vec<String> = rec.flist.iter().map(|f| f.id.clone()).collect();
    assert_eq!(ids, vec!["A0", "B0", "A1", "A2", "C0", "B1", "A3"]);
    for name in ["A", "B", "C"] {
        let occurrences = rec.get(name).unwrap();
        for (i, f) in occurrences.iter().enumerate() {
            assert_eq!(f.multiplicity, i);
        }
    }
    let mut sorted = ids.clone();
    sorted.sort();
    sorted.dedup();
    assert_eq!(sorted.len(), ids.len());
}

#[test]
fn identifiers_of_different_names_can_meet() {
    let ft = Rc::new(FieldType::new("S", "string"));
    let mut rec = Record::<UTF8Mode>::new("R", "", 0);
    rec.push(Field::from_length("F1", "", &ft, 1));
    for _ in 0..11 {
        rec.push(Field::from_length("F", "", &ft, 1));
    }
    assert_eq!(rec.flist[0].id, "F10");
    assert_eq!(rec.flist[11].id, "F10");
    assert_eq!(rec.flist[11].multiplicity, 10);
    assert_ne!(rec.flist[0].name, rec.flist[11].name);
}

#[test]
fn value_gives_the_line_back() {
    let mut rec = set_up_by_length::<AsciiMode>();
    let s = "AAAAAAAAAABBBBBBBBBBCCCCCCCCCCCCCCCCCCCCDDDDDDDDDD";
    rec.set_value(s);
    assert_eq!(rec.value(), s.to_string());

    let short = "  a line that stops before the end";
    rec.set_value(short);
    let value = rec.value();
    assert_eq!(value.len(), 50);
    assert_eq!(&value[..short.len()], short);
    assert_eq!(value, format!("{:50}", short));

    let long = "AAAAAAAAAABBBBBBBBBBCCCCCCCCCCCCCCCCCCCCDDDDDDDDDDEEEEE";
    rec.set_value(long);
    assert_eq!(rec.value(), &long[..50]);

    let mut rec = set_up_by_length::<UTF8Mode>();
    let s = "ααααααααααββββββββββγγγγγγγγγγγγγγγγγγγγδδδδδδδδδδ";
    rec.set_value(s);
    assert_eq!(rec.value(), s);
    for f in &rec.flist {
        assert_eq!(f.raw_value.chars().count(), f.length);
    }
    // a line that is long enough in bytes, yet too short in characters
    let short = "ααααααααααββββββββββγγγγγγ";
    assert!(short.len() > 50);
    rec.set_value(short);
    let value = rec.value();
    assert_eq!(value.chars().count(), 50);
    assert!(value.starts_with(short));
    assert_eq!(rec.flist[2].raw_value, "γγγγγγ              ");
    assert_eq!(rec.flist[2].value(), "γγγγγγ");
    assert_eq!(rec.flist[3].value(), "");
    for f in &rec.flist {
        assert_eq!(f.raw_value.chars().count(), f.length);
    }
}

#[test]
fn values_are_found_by_name() {
    let mut rec = set_up_by_length::<AsciiMode>();
    rec.set_value("AAAAAAAAAABBBBBBBBBBCCCCCCCCCCCCCCCCCCCCDDDDDDDDDD");
    assert_eq!(rec.get_value("FIELD1"), "AAAAAAAAAA");
    assert_eq!(rec.get_value("FIELD2"), "BBBBBBBBBB");
    assert_eq!(rec.get_value("FIELD3"), "CCCCCCCCCCCCCCCCCCCC");
    assert_eq!(rec.get_value_with_index("FIELD2", 0), "BBBBBBBBBB");
    assert_eq!(rec.get_value_with_index("FIELD2", 1), "DDDDDDDDDD");
    assert_eq!(rec.get("FIELD2").unwrap()[0].value(), "BBBBBBBBBB");
    assert_eq!(rec.get("FIELD2").unwrap()[1].value(), "DDDDDDDDDD");
    assert_eq!(rec.get("FIELD1").unwrap().len(), 1);
    assert_eq!(rec.get("FIELD2").unwrap().len(), 2);
    assert_eq!(rec.get("FIELD3").unwrap().len(), 1);
    assert!(rec.get("FIELD4").is_none());
    assert_eq!(rec.find_value("FIELD2", 1), Some("DDDDDDDDDD"));
    assert_eq!(rec.find_value("FIELD2", 2), None);
    assert_eq!(rec.find_value("FOO", 0), None);
}

#[test]
fn fields_are_chosen_by_predicate() {
    let mut rec = set_up_by_length::<AsciiMode>();
    let fields = rec.filter(|f| f.length >= 20);
    assert_eq!(fields.unwrap().len(), 1);
    let fields = rec.filter(|f| f.length >= 30);
    assert!(fields.is_none());
    let fields = rec.filter(|f| f.length == 10).unwrap();
    let found: Vec<usize> = fields.iter().map(|f| f.index).collect();
    assert_eq!(found, vec![0, 1, 3]);

    rec.retain(|f| f.length == 10);
    assert_eq!(rec.count(), 3);
    assert_eq!(names(&rec), vec!["FIELD1", "FIELD2", "FIELD2"]);

    let mut rec = set_up_by_length::<AsciiMode>();
    rec.remove(|f| f.length == 10);
    assert_eq!(rec.count(), 1);
    assert_eq!(names(&rec), vec!["FIELD3"]);
    // what is left keeps its place in the line
    rec.set_value("AAAAAAAAAABBBBBBBBBBCCCCCCCCCCCCCCCCCCCCDDDDDDDDDD");
    assert_eq!(rec.flist[0].value(), "CCCCCCCCCCCCCCCCCCCC");

    let mut rec = set_up_by_length::<AsciiMode>();
    rec.remove_named(&vec!["FIELD2", "NONE"]);
    assert_eq!(names(&rec), vec!["FIELD1", "FIELD3"]);
    let mut rec = set_up_by_length::<AsciiMode>();
    rec.retain_named(&vec!["FIELD2", "NONE"]);
    assert_eq!(names(&rec), vec!["FIELD2", "FIELD2"]);
}

#[test]
fn pattern_of_the_field_type_is_searched_in_the_raw_value() {
    let mut ft = FieldType::new("I", "int");
    assert!(ft.set_pattern("\\d+"));
    let mut f = Field::from_offset("F1", "Description for field 1", &Rc::new(ft), 5, 10);
    f.set_value("123");
    assert!(f.is_pattern_matched());
    f.set_value("ABC");
    assert!(!f.is_pattern_matched());

    // without a pattern every value passes
    let ft = Rc::new(FieldType::new("S", "string"));
    let mut f = Field::from_length("F1", "", &ft, 3);
    f.set_value("ABC");
    assert!(f.is_pattern_matched());
    f.set_value("");
    assert!(f.is_pattern_matched());

    // the raw value is searched, not the trimmed one
    let mut ft = FieldType::new("S", "string");
    assert!(ft.set_pattern("^ +X$"));
    let mut f = Field::from_length("F1", "", &Rc::new(ft), 3);
    f.set_value("  X");
    assert!(f.is_pattern_matched());
}

#[test]
fn field_filter_is_evaluated_by_type() {
    let expr = FieldFilter::from("FIELD1 ~ ^AA").unwrap();
    let ft = Rc::new(FieldType::new("S", "string"));
    let mut f = Field::from_length("FIELD1", "Description for field 1", &ft, 10);
    f.set_value("AAAAAA");
    assert!(f.is_filter_matched(&expr).unwrap());
    f.set_value("ABAAAA");
    assert!(!f.is_filter_matched(&expr).unwrap());
    let expr = FieldFilter::from("FIELD1 !~ ^AA").unwrap();
    assert!(f.is_filter_matched(&expr).unwrap());

    let ft = Rc::new(FieldType::new("I", "int"));
    let mut f = Field::from_length("N", "", &ft, 5);
    f.set_value("   42");
    assert!(f.is_filter_matched(&FieldFilter::from("N = 42").unwrap()).unwrap());
    assert!(f.is_filter_matched(&FieldFilter::from("N = 042").unwrap()).unwrap());
    assert!(!f.is_filter_matched(&FieldFilter::from("N != 42").unwrap()).unwrap());
    assert!(f.is_filter_matched(&FieldFilter::from("N < 100").unwrap()).unwrap());
    assert!(!f.is_filter_matched(&FieldFilter::from("N > 100").unwrap()).unwrap());
    assert!(f.is_filter_matched(&FieldFilter::from("N > 5").unwrap()).unwrap());
    // as strings the order would be the other way round
    let st = Rc::new(FieldType::new("S", "string"));
    let mut g = Field::from_length("N", "", &st, 5);
    g.set_value("   42");
    assert!(!g.is_filter_matched(&FieldFilter::from("N > 5").unwrap()).unwrap());
    assert!(g.is_filter_matched(&FieldFilter::from("N < 5").unwrap()).unwrap());
    // a value that is no number cannot be compared as one
    f.set_value("  n/a");
    assert!(f.is_filter_matched(&FieldFilter::from("N = 42").unwrap()).is_err());
    assert!(f.is_filter_matched(&FieldFilter::from("N ~ a").unwrap()).unwrap());
}

#[test]
fn fields_are_reached_by_index() {
    let mut rec = set_up_by_length::<AsciiMode>();
    rec.set_value("AAAAAAAAAABBBBBBBBBBCCCCCCCCCCCCCCCCCCCCDDDDDDDDDD");
    assert_eq!(rec.index(0).value(), "AAAAAAAAAA");
    assert_eq!(rec.index(3).value(), "DDDDDDDDDD");
    assert_eq!(rec.index(3).name, "FIELD2");
    rec.index_mut(2).set_value("  x ");
    assert_eq!(rec.index(2).value(), "x");
    assert_eq!(rec.value(), "AAAAAAAAAABBBBBBBBBB  x DDDDDDDDDD");
}

#[test]
fn huge_record() {
    let rec = set_up_by_length_huge::<UTF8Mode>(500);
    assert_eq!(rec.count(), 500);
    assert_eq!(rec.calculated_length, 5000);
    assert_eq!(rec.name, "RECORD1");
    assert_eq!(rec.declared_length, 0);
    for (i, f) in rec.flist.iter().enumerate() {
        assert_eq!(f.name, "FIELD1");
        assert_eq!(f.multiplicity, i);
        assert_eq!(f.id, format!("FIELD1{}", i));
        assert_eq!((f.lower_offset, f.upper_offset), (10 * i, 10 * i + 9));
    }
    assert!(rec.is_sound());
    let rec = set_up_by_length_huge::<UTF8Mode>(0);
    assert_eq!(rec.count(), 0);
    assert_eq!(rec.calculated_length, 0);
    assert_eq!(rec.value(), "");
    assert_eq!(rec.to_string(), "()");
}

#[test]
fn records_tell_whether_they_are_well_formed() {
    let mut rec = set_up_by_offset::<AsciiMode>();
    assert!(rec.is_sound());
    assert_eq!(rec.description, "Description for record 1");
    // a length that the bounds do not show
    rec.flist[1].length = 10;
    assert!(!rec.is_sound());
    rec.flist[1].length = 5;
    assert!(rec.is_sound());
    // a field that ends after the record
    rec.calculated_length = 59;
    assert!(!rec.is_sound());
    let ft = Rc::new(FieldType::new("I", "int"));
    let rec = set_up_by_length::<AsciiMode>();
    let mut f = Field::from_length("F", "", &ft, 3);
    assert!(rec.can_push(&f));
    f.length = 0;
    assert!(!rec.can_push(&f));
    f.length = usize::MAX - 50;
    assert!(rec.can_push(&f));
    f.length = usize::MAX - 49;
    assert!(!rec.can_push(&f));
}

#[test]
#[should_panic]
#[allow(unused_variables)]
fn record_panic() {
    // setup data
    let rec = set_up_by_length::<AsciiMode>();

    // this should panic
    let v1 = rec.find_value("FOO", 0).unwrap();
    let v2 = rec.find_value("FIELD2", 2).unwrap();
}
