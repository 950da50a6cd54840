use rbf::error::RbfError;
use rbf::exportable::Exportable;
use rbf::filter::recordfilter::RecordFilter;
use rbf::layout::Layout;
use rbf::mapper::{RecordHasher, RecordMapper};
use rbf::reader::{Outcome, Reader, ReaderLazyness};
use rbf::record::{AsciiMode, ReadMode, UTF8Mode};
use rbf::schema::SchemaEvent;

// the layout that the tests load: four records, told apart by their first two characters
fn test_xml() -> String {
    let mut xml = String::new();
    xml.push_str("<?xml version=\"1.0\" encoding=\"UTF-8\"?>\n");
    xml.push_str("<!-- a layout for tests -->\n");
    xml.push_str("<rbfile xmlns=\"http://www.w3schools.com\">\n");
    xml.push_str("  <meta version=\"1.0\" description=\"Test layout\" schema=\"TEST\" ignoreLine=\"^#\"/>\n");
    xml.push_str("  <map type=\"range\" domain=\"0..2\"/>\n");
    xml.push_str("  <fieldtype name=\"A\" type=\"string\" pattern=\"\\w+\"/>\n");
    xml.push_str("  <fieldtype name=\"N\" type=\"int\" pattern=\"\\d+\"/>\n");
    xml.push_str("  <fieldtype name=\"D\" type=\"date\" format=\"%Y%m%d\"/>\n");
    xml.push_str("  <record name=\"LL\" description=\"Letters\" length=\"353\">\n");
    xml.push_str("    <field name=\"ID\" description=\"Record ID\" type=\"A\" length=\"2\"/>\n");
    for i in 1..27 {
        xml.push_str(&format!(
            "    <field name=\"W{}\" description=\"Letter {}\" type=\"A\" length=\"{}\"/>\n",
            i, i, i
        ));
    }
    xml.push_str("  </record>\n");
    xml.push_str("  <record name=\"NB\" description=\"Numbers\" length=\"47\">\n");
    xml.push_str("    <field name=\"ID\" description=\"Record ID\" type=\"A\" length=\"2\"/>\n");
    for i in 1..10 {
        xml.push_str(&format!(
            "    <field name=\"N{}\" description=\"Number {}\" type=\"N\" length=\"{}\"/>\n",
            i, i, i
        ));
    }
    xml.push_str("  </record>\n");
    xml.push_str("  <record name=\"GL\" description=\"Greek letters\">\n");
    xml.push_str("    <field name=\"ID\" description=\"Record ID\" type=\"A\" length=\"2\"/>\n");
    for i in 1..25 {
        xml.push_str(&format!(
            "    <field name=\"G{}\" description=\"Greek letter {}\" type=\"A\" length=\"{}\"/>\n",
            i, i, i
        ));
    }
    xml.push_str("  </record>\n");
    xml.push_str("  <record name=\"DP\" description=\"Duplicated fields\" length=\"22\">\n");
    xml.push_str("    <field name=\"ID\" description=\"Record ID\" type=\"A\" start=\"1\" end=\"2\"/>\n");
    xml.push_str("    <field name=\"F5\" description=\"Five letters\" type=\"A\" start=\"3\" end=\"7\"/>\n");
    xml.push_str("    <field name=\"F5\" description=\"Five letters\" type=\"A\" start=\"8\" end=\"12\"/>\n");
    xml.push_str("    <field name=\"F5\" description=\"Five letters\" type=\"A\" start=\"13\" end=\"17\"/>\n");
    xml.push_str("    <field name=\"F5\" description=\"Five letters\" type=\"A\" start=\"18\" end=\"22\"/>\n");
    xml.push_str("  </record>\n");
    xml.push_str("</rbfile>\n");
    xml
}

fn layout_load_layout_ascii() -> Layout<AsciiMode> {
    // load our layout
    Layout::<AsciiMode>::new("./tests/test.xml", test_xml().as_bytes()).unwrap()
}

fn layout_load_layout_utf8() -> Layout<UTF8Mode> {
    // load our layout
    Layout::<UTF8Mode>::new("./tests/test.xml", test_xml().as_bytes()).unwrap()
}

// the lines of the file that the tests read
fn test_lines(letters: &str) -> Vec<String> {
    let digits = "123456789";
    let greek = "αβγδεζηθικλμνξοπρστυφχψω";
    let mut ll = String::from("LL");
    for (i, l) in letters.chars().enumerate() {
        ll.push_str(&l.to_string().repeat(i + 1));
    }
    let mut nb = String::from("NB");
    for (i, n) in digits.chars().enumerate() {
        nb.push_str(&n.to_string().repeat(i + 1));
    }
    let mut gl = String::from("GL");
    for (i, l) in greek.chars().enumerate() {
        gl.push_str(&l.to_string().repeat(i + 1));
    }
    vec![
        ll.clone(),
        nb.clone(),
        String::from("# a remark"),
        String::from("XX belongs to no record"),
        gl,
        String::from("DPAAAAABBBBBCCCCCDDDDD"),
        String::new(),
        ll,
        nb,
    ]
}

#[test]
fn record_filter() {
    // loop through r_ll record
    let layout = layout_load_layout_ascii();
    let r_ll = layout.get("LL").unwrap();

    assert_eq!(r_ll.calculated_length, 353);

    // all record 01 field types has only AN, I, D or N
    let types = ["A".to_string(), "N".to_string()];
    for f in &r_ll.flist {
        // field length is less thant 400
        assert!(f.len() <= 26);

        // only those types
        assert!(types.contains(&f.ftype.id));

        // all field name have only 4 chars
        assert!(f.name.len() <= 4);
    }

    // filter out fields: only 2 fields greater than 30 chars
    let fields = r_ll.filter(|f| f.length >= 25);
    assert_eq!(fields.unwrap().len(), 2);

    // find duplicated: 5 occurences
    let r_dup = layout.get("DP").unwrap();
    let f_dup = r_dup.filter(|f| f.name == "F5").unwrap();
    assert_eq!(f_dup.len(), 4);

    // check multiplicity
    for (i, f) in f_dup.iter().enumerate() {
        assert_eq!(f.multiplicity, i);
    }
}

#[test]
fn record_remove() {
    // loop through r_ll record
    let mut layout = layout_load_layout_ascii();

    // remove one field only
    {
        let r_ll = layout.get_mut("LL").unwrap();

        // remove first field
        r_ll.remove(|f| f.index == 0);
        assert_eq!(r_ll.flist[0].name, "W1");
        assert_eq!(r_ll.count(), 26);

        // remove all F1* fields
        r_ll.remove(|f| f.name.starts_with("W1"));
        assert_eq!(r_ll.count(), 15);

        // remove all fields but SQNR
        r_ll.remove(|f| f.name != "W2");
        assert_eq!(r_ll.count(), 1);
    }

    {
        let r_nb = layout.get_mut("NB").unwrap();
        r_nb.remove(|f| !["N1", "N2"].contains(&&*f.name));
        assert_eq!(r_nb.count(), 2);
    }
}

#[test]
fn record_iterator() {
    // loop through r_ll record
    let mut layout = layout_load_layout_ascii();

    // remove one field only

    // non-consuming iterator (r_ll is already a ref)
    {
        let r_ll = layout.get("LL").unwrap();

        // check out loops
        for f in &r_ll.flist {
            assert!(f.length < 27);
        }
    }

    // non-consuming mutable iterator (r_ll is already a ref)
    {
        {
            let r_ll = layout.get_mut("LL").unwrap();

            // check out loops
            for f in &mut r_ll.flist {
                f.length = 10;
            }
        }

        let r_ll = layout.get("LL").unwrap();
        let count = r_ll.count();
        let lengths: Vec<usize> = r_ll.flist.iter().map(|f| f.length).collect();
        let sum: usize = lengths.iter().sum();
        assert_eq!(sum, 10 * count);
    }
}

#[test]
fn field_multiplicity() {
    // load our layout
    let layout = layout_load_layout_ascii();

    // find r_dp duplicated: 10 occurences
    let r_dp = layout
        .get("DP")
        .unwrap()
        .filter(|f| f.name == "F5")
        .unwrap();
    assert_eq!(r_dp.len(), 4);

    // check multiplicity
    for (i, f) in r_dp.iter().enumerate() {
        assert_eq!(f.multiplicity, i);
    }
}

#[test]
fn reader_lazy() {
    // load our layout
    let layout = layout_load_layout_utf8();

    // create reader
    let mut reader = Reader::<UTF8Mode>::new("./tests/test_utf8.data", 0, layout);

    // useful vars
    let letters = "ABCDEFGHIJKLMNOPQRSTUVWXYZ";
    let digits = "123456789";
    let greek = "αβγδεζηθικλμνξοπρστυφχψω";

    // read file and loop through records
    let lines = test_lines(letters);
    let mut seen = 0;
    for line in &lines {
        let rec = match reader.read_line(line) {
            Outcome::Yield(rec) => rec,
            _ => continue,
        };
        seen += 1;
        match rec.name.as_ref() {
            "LL" => {
                assert_eq!(rec.get_value("ID"), "LL");

                // test every field
                for (i, l) in letters.chars().enumerate() {
                    let fname = format!("W{}", i + 1);
                    assert_eq!(rec.get_value(&fname), l.to_string().repeat(i + 1));
                }
            }
            "NB" => {
                assert_eq!(rec.get_value("ID"), "NB");
                // test every field
                for (i, n) in digits.chars().enumerate() {
                    let fname = format!("N{}", i + 1);
                    assert_eq!(rec.get_value(&fname), n.to_string().repeat(i + 1));
                }
            }
            "GL" => {
                assert_eq!(rec.get_value("ID"), "GL");
                for (i, l) in greek.chars().enumerate() {
                    let fname = format!("G{}", i + 1);
                    assert_eq!(rec.get_value(&fname), l.to_string().repeat(i + 1));
                }
            }
            "DP" => {
                assert_eq!(rec.get_value("ID"), "DP");
                assert_eq!(rec.get("F5").unwrap()[0].value(), "AAAAA");
                assert_eq!(rec.get("F5").unwrap()[1].value(), "BBBBB");
                assert_eq!(rec.get("F5").unwrap()[2].value(), "CCCCC");
                assert_eq!(rec.get("F5").unwrap()[3].value(), "DDDDD");
            }
            _ => panic!(
                "record name <{}> not found in file <{}>",
                rec.name, "./tests/test.data"
            ),
        }
    }
    assert_eq!(seen, 6);
}

#[test]
fn layout_is_loaded_from_its_file() {
    let layout = layout_load_layout_ascii();

    // check layout methods
    assert_eq!(layout.contains_record("LL"), true);
    assert_eq!(layout.contains_record("100"), false);
    assert_eq!(layout.len(), 4);
    assert_eq!(layout.get("LL").unwrap().count(), 27);
    assert!(layout.get("100").is_none());
    assert!(layout.contains_field("W1"));
    assert!(!layout.contains_field("FOO"));
    assert_eq!(layout.xml_file, "./tests/test.xml");
    assert_eq!(layout.rec_length, 0);
    assert_eq!(layout.version, "1.0");
    assert_eq!(layout.description, "Test layout");
    assert_eq!(layout.schema, "TEST");

    let names: Vec<&str> = layout.rec_map.iter().map(|r| r.name.as_str()).collect();
    assert_eq!(names, vec!["LL", "NB", "GL", "DP"]);
    for rec in &layout.rec_map {
        assert!(rec.name.len() >= 2);
        assert!(rec.name.len() <= 3);
    }
    assert_eq!(layout.get("NB").unwrap().declared_length, 47);
    assert_eq!(layout.get("NB").unwrap().calculated_length, 47);
    assert_eq!(layout.get("GL").unwrap().declared_length, 0);
    assert_eq!(layout.get("GL").unwrap().calculated_length, 302);
    assert_eq!(layout.get("DP").unwrap().calculated_length, 22);
    assert_eq!(layout.get("DP").unwrap().description, "Duplicated fields");

    let ft = layout.get_type("A").unwrap();
    assert_eq!(ft.pattern.as_str(), "\\w+");
    assert_eq!(ft.type_as_string, "string");
    assert_eq!(layout.get_type("D").unwrap().base_type_format(), "%Y%m%d");
    assert!(layout.get_type("Z").is_none());
    assert_eq!(layout.ftypes.len(), 3);

    match &layout.mapper.func {
        RecordHasher::Range(a, b) => assert_eq!((*a, *b), (0, 2)),
        _ => panic!("the mapper cuts a range"),
    }
    assert_eq!(layout.mapper.call("LLxyz"), "LL");

    // fields by offsets
    let dp = layout.get("DP").unwrap();
    let bounds: Vec<(usize, usize, usize)> = dp
        .flist
        .iter()
        .map(|f| (f.lower_offset, f.upper_offset, f.length))
        .collect();
    assert_eq!(bounds, vec![(0, 1, 2), (2, 6, 5), (7, 11, 5), (12, 16, 5), (17, 21, 5)]);
    let ids: Vec<&str> = dp.flist.iter().map(|f| f.id.as_str()).collect();
    assert_eq!(ids, vec!["ID0", "F50", "F51", "F52", "F53"]);
}

#[test]
fn layout_is_checked_for_lengths() {
    let layout = layout_load_layout_ascii();
    assert!(layout.is_valid().0);
    assert_eq!(layout.is_valid(), (true, "", 0, 0));
    assert!(layout.validate().is_ok());

    // a record that declares another length than its fields make
    let xml = "<rbfile><map type=\"constant\" domain=\"R\"/><fieldtype name=\"A\" type=\"string\"/>\
        <record name=\"OK\" description=\"\" length=\"3\"><field name=\"F\" description=\"\" type=\"A\" length=\"3\"/></record>\
        <record name=\"KO\" description=\"\" length=\"4\"><field name=\"F\" description=\"\" type=\"A\" length=\"3\"/></record>\
        <record name=\"KO2\" description=\"\" length=\"5\"><field name=\"F\" description=\"\" type=\"A\" length=\"3\"/></record>\
        </rbfile>";
    let layout = Layout::<AsciiMode>::new("bad.xml", xml.as_bytes()).unwrap();
    assert_eq!(layout.is_valid(), (false, "KO", 4, 3));
    match layout.validate() {
        Err(RbfError::LayoutInvalid(name, expected, actual)) => {
            assert_eq!((name.as_str(), expected, actual), ("KO", 4, 3));
        }
        _ => panic!("the record KO is one short"),
    }
    assert_eq!(
        layout.validate().err().unwrap().to_string(),
        "record <KO> should have length 4 but has length 3"
    );

    // a layout that declares one length for all records
    let xml = "<rbfile><meta reclength=\"3\"/><map type=\"constant\" domain=\"R\"/><fieldtype name=\"A\" type=\"string\"/>\
        <record name=\"OK\" description=\"\"><field name=\"F\" description=\"\" type=\"A\" length=\"3\"/></record>\
        <record name=\"KO\" description=\"\" length=\"4\"><field name=\"F\" description=\"\" type=\"A\" length=\"4\"/></record>\
        </rbfile>";
    let layout = Layout::<AsciiMode>::new("bad.xml", xml.as_bytes()).unwrap();
    assert_eq!(layout.rec_length, 3);
    assert_eq!(layout.is_valid(), (false, "KO", 3, 4));
}

#[test]
fn layout_is_pruned() {
    let mut layout = layout_load_layout_ascii();
    assert_eq!(layout.contains_field("ID"), true);

    // remove all "ID" fields from all records
    layout.remove(vec!["ID"]);
    assert_eq!(layout.contains_field("ID"), false);

    // remove a list
    layout.remove(vec!["W26", "N9", "G24"]);
    assert_eq!(layout.contains_field("ID"), false);

    assert_eq!(layout.get("LL").unwrap().count(), 25);
    assert_eq!(layout.get("NB").unwrap().count(), 8);
    assert_eq!(layout.get("GL").unwrap().count(), 23);

    // build list of rec/fields to retain
    let mut layout = layout_load_layout_ascii();
    let rec_map = vec![("LL", vec!["ID"]), ("NB", vec!["ID", "N2"])];

    // prune records and fields
    layout.retain(rec_map);

    assert_eq!(layout.get("LL").unwrap().count(), 1);
    assert_eq!(layout.get("NB").unwrap().count(), 2);
    assert_eq!(layout.contains_record("GL"), false);
    assert_eq!(layout.len(), 2);

    // of two entries for one record the last counts
    let mut layout = layout_load_layout_ascii();
    layout.retain(vec![("DP", vec!["ID"]), ("XX", vec!["ID"]), ("DP", vec!["F5"])]);
    assert_eq!(layout.len(), 1);
    assert_eq!(layout.get("DP").unwrap().count(), 4);
}

#[test]
fn layout_file_with_faults_is_refused() {
    fn cause(xml: &str) -> String {
        match Layout::<AsciiMode>::new("f.xml", xml.as_bytes()) {
            Err(RbfError::ErrorReadingLayoutFile(file, cause)) => {
                assert_eq!(file, "f.xml");
                cause
            }
            Err(e) => panic!("another error: {}", e.to_string()),
            Ok(_) => panic!("the layout was loaded from {:?}", xml),
        }
    }
    let invalid = |element: &str, attribute: &str| {
        format!(
            "element <{}>: attribute <{}> is missing or not valid",
            element, attribute
        )
    };
    let head = "<l><map type=\"constant\" domain=\"R\"/><fieldtype name=\"A\" type=\"string\"/>";

    // what is no XML
    assert!(!cause("<l><record name=\"R\"").is_empty());
    assert!(!cause("").is_empty());
    assert!(!cause("<a></b>").is_empty());

    // the mapper
    assert_eq!(cause("<l></l>"), invalid("map", "type"));
    assert_eq!(cause("<l><map type=\"fancy\" domain=\"R\"/></l>"), invalid("map", "type"));
    assert_eq!(cause("<l><map type=\"range\" domain=\"R\"/></l>"), invalid("map", "domain"));
    assert_eq!(cause("<l><map type=\"range\" domain=\"2..\"/></l>"), invalid("map", "domain"));

    // the properties
    assert_eq!(cause("<l><meta reclength=\"ten\"/></l>"), invalid("meta", "reclength"));

    // field types
    assert_eq!(cause("<l><fieldtype type=\"int\"/></l>"), invalid("fieldtype", "name"));
    assert_eq!(cause("<l><fieldtype name=\"\" type=\"int\"/></l>"), invalid("fieldtype", "name"));
    assert_eq!(cause("<l><fieldtype name=\"I\"/></l>"), invalid("fieldtype", "type"));
    assert_eq!(
        cause("<l><fieldtype name=\"I\" type=\"complex\"/></l>"),
        invalid("fieldtype", "type")
    );
    assert_eq!(
        cause("<l><fieldtype name=\"I\" type=\"int\" pattern=\"(\"/></l>"),
        invalid("fieldtype", "pattern")
    );

    // records
    let with = |rest: &str| format!("{}{}</l>", head, rest);
    assert_eq!(cause(&with("<record description=\"\"/>")), invalid("record", "name"));
    assert_eq!(cause(&with("<record name=\"\" description=\"\"/>")), invalid("record", "name"));
    assert_eq!(cause(&with("<record name=\"R\"/>")), invalid("record", "description"));
    assert_eq!(
        cause(&with("<record name=\"R\" description=\"\" length=\"-1\"/>")),
        invalid("record", "length")
    );

    // fields
    let field = |attributes: &str| {
        with(&format!(
            "<record name=\"R\" description=\"\"><field {}/></record>",
            attributes
        ))
    };
    assert_eq!(cause(&field("description=\"\" type=\"A\" length=\"1\"")), invalid("field", "name"));
    assert_eq!(
        cause(&field("name=\"\" description=\"\" type=\"A\" length=\"1\"")),
        invalid("field", "name")
    );
    assert_eq!(cause(&field("name=\"F\" type=\"A\" length=\"1\"")), invalid("field", "description"));
    assert_eq!(cause(&field("name=\"F\" description=\"\" length=\"1\"")), invalid("field", "type"));
    assert_eq!(
        cause(&field("name=\"F\" description=\"\" type=\"A\" length=\"1.5\"")),
        invalid("field", "length")
    );
    assert_eq!(cause(&field("name=\"F\" description=\"\" type=\"A\"")), invalid("field", "start"));
    assert_eq!(
        cause(&field("name=\"F\" description=\"\" type=\"A\" length=\"0\" start=\"0\" end=\"4\"")),
        invalid("field", "start")
    );
    assert_eq!(
        cause(&field("name=\"F\" description=\"\" type=\"A\" start=\"x\" end=\"4\"")),
        invalid("field", "start")
    );
    assert_eq!(
        cause(&field("name=\"F\" description=\"\" type=\"A\" start=\"5\" end=\"4\"")),
        invalid("field", "end")
    );
    assert_eq!(
        cause(&field("name=\"F\" description=\"\" type=\"A\" start=\"5\"")),
        invalid("field", "end")
    );
    assert_eq!(
        cause(&with("<field name=\"F\" description=\"\" type=\"A\" length=\"1\"/>")),
        "field <F> stands outside any record"
    );
    // a field may reach as far as the machine counts
    let far = field(&format!(
        "name=\"F\" description=\"\" type=\"A\" start=\"1\" end=\"{}\"",
        usize::MAX
    ));
    let layout = Layout::<AsciiMode>::new("f.xml", far.as_bytes()).unwrap();
    assert_eq!(layout.get("R").unwrap().calculated_length, usize::MAX);
    let two = with(&format!(
        "<record name=\"R\" description=\"\"><field name=\"E\" description=\"\" type=\"A\" length=\"2\"/>\
         <field name=\"F\" description=\"\" type=\"A\" length=\"{}\"/></record>",
        usize::MAX - 1
    ));
    assert_eq!(cause(&two), "field <F> does not fit in its record");

    // a field of a type that the layout does not define
    match Layout::<AsciiMode>::new(
        "f.xml",
        field("name=\"F\" description=\"\" type=\"Z\" length=\"1\"").as_bytes(),
    ) {
        Err(RbfError::ErrorLayoutNoFieldType(file, name, ty)) => {
            assert_eq!((file.as_str(), name.as_str(), ty.as_str()), ("f.xml", "F", "Z"));
        }
        _ => panic!("there is no field type Z"),
    }
    let err = Layout::<AsciiMode>::new(
        "f.xml",
        field("name=\"F\" description=\"\" type=\"Z\" length=\"1\"").as_bytes(),
    )
    .err()
    .unwrap();
    assert_eq!(
        err.to_string(),
        "no field type <Z> for field name <F> found in layout file <f.xml>"
    );
    assert_eq!(err.description(), "an error occured when reading the layout file");

    // the first fault counts: the field comes before the end of the file
    let xml = format!(
        "{}<record name=\"R\" description=\"\"><field name=\"F\" description=\"\" type=\"Z\" length=\"1\"/>",
        head
    );
    assert!(matches!(
        Layout::<AsciiMode>::new("f.xml", xml.as_bytes()),
        Err(RbfError::ErrorLayoutNoFieldType(_, _, _))
    ));
}

#[test]
fn layout_is_built_from_events() {
    let attributes = |pairs: &[(&str, &str)]| -> Vec<(String, String)> {
        pairs.iter().map(|(n, v)| (n.to_string(), v.to_string())).collect()
    };
    let start = |name: &str, pairs: &[(&str, &str)]| {
        SchemaEvent::Start(rbf::schema::Element {
            name: name.to_string(),
            attributes: attributes(pairs),
        })
    };
    let events = vec![
        SchemaEvent::Other,
        start("meta", &[("reclength", "5"), ("version", "2")]),
        start("map", &[("type", "constant"), ("domain", "R")]),
        start("fieldtype", &[("name", "A"), ("type", "string")]),
        start("fieldtype", &[("name", "B"), ("type", "int")]),
        // the same id again: the type takes the place of the first
        start("fieldtype", &[("name", "A"), ("type", "uint"), ("type", "decimal")]),
        start("record", &[("name", "R"), ("description", "first")]),
        start("field", &[("name", "F"), ("description", ""), ("type", "A"), ("length", "9")]),
        start("record", &[("name", "S"), ("description", "")]),
        SchemaEvent::Other,
        // the same name again: the record starts anew
        start("record", &[("name", "R"), ("description", "second"), ("length", "5")]),
        start("field", &[("name", "G"), ("description", ""), ("type", "A"), ("length", "5")]),
        start("unknown", &[("name", "R")]),
    ];
    let layout = Layout::<UTF8Mode>::from_events("l.xml", &events, None).unwrap();
    assert_eq!(layout.rec_length, 5);
    assert_eq!(layout.version, "2");
    assert_eq!(layout.description, "");
    let names: Vec<&str> = layout.rec_map.iter().map(|r| r.name.as_str()).collect();
    assert_eq!(names, vec!["R", "S"]);
    let r = layout.get("R").unwrap();
    assert_eq!(r.description, "second");
    assert_eq!(r.count(), 1);
    assert_eq!(r.flist[0].name, "G");
    assert_eq!(r.flist[0].ftype.type_as_string, "decimal");
    assert_eq!(layout.get("S").unwrap().count(), 0);
    let ids: Vec<&str> = layout.ftypes.iter().map(|t| t.id.as_str()).collect();
    assert_eq!(ids, vec!["A", "B"]);
    assert_eq!(layout.mapper.call("anything"), "R");
    assert_eq!(layout.is_valid(), (false, "S", 5, 0));

    // the error on which the reading of the file ended
    match Layout::<UTF8Mode>::from_events("l.xml", &events, Some(String::from("1:1 oops"))) {
        Err(RbfError::ErrorReadingLayoutFile(file, cause)) => {
            assert_eq!((file.as_str(), cause.as_str()), ("l.xml", "1:1 oops"));
        }
        _ => panic!("the file was not read to its end"),
    }
    let err = Layout::<UTF8Mode>::from_events("l.xml", &events, Some(String::from("1:1 oops")))
        .err()
        .unwrap();
    assert_eq!(
        err.to_string(),
        "an error occured when reading the layout file <l.xml>, xml error=1:1 oops"
    );
}

#[test]
fn mapper_tells_the_record_of_a_line() {
    // our tst string
    let s = "01XX02AAAAAAAAAAAAAAAAAAA";

    // constant
    let m1 = RecordMapper::new("constant", "FOO").unwrap();
    assert_eq!(m1.call(s), "FOO");

    // linear
    let m2 = RecordMapper::new("range", "0..2").unwrap();
    assert_eq!(m2.call(s), "01");
    let m3 = RecordMapper::new("range", " 4..6 ").unwrap();
    assert_eq!(m3.call(s), "02");
    assert_eq!(m3.call("01XX0"), "0");
    assert_eq!(m3.call("01X"), "");
    assert_eq!(m3.call(""), "");
    assert_eq!(m3.call("αβγδεζηθ"), "εζ");
    let m4 = RecordMapper::new("range", "6..4").unwrap();
    assert_eq!(m4.call(s), "");
    assert_eq!(RecordMapper::default().call(s), s);

    assert!(RecordMapper::new("complex", "foo").is_none());
    assert!(RecordMapper::new("fancy", "type:2 map:0..2,4..6").is_none());
    assert!(RecordMapper::new("", "").is_none());
    for domain in ["", "2", "2..", "..2", "a..b", "1...2", "1..2..3", "-1..2", "1 .. 2", "0..99999999999999999999999"] {
        assert!(RecordMapper::new("range", domain).is_none(), "{:?} gave a range", domain);
    }
}

#[test]
fn reader_counts_every_line() {
    let layout = layout_load_layout_utf8();
    let mut reader = Reader::<UTF8Mode>::new("./tests/test_utf8.data", 1234, layout);
    assert_eq!(reader.file_size, 1234);
    assert_eq!(reader.rbf_file, "./tests/test_utf8.data");
    assert!(reader.ignore_line("^#"));
    assert!(!reader.ignore_line("^(#"));

    let lines = test_lines("ABCDEFGHIJKLMNOPQRSTUVWXYZ");
    let refs: Vec<&str> = lines.iter().map(|l| l.as_str()).collect();
    let bytes: usize = lines.iter().map(|l| l.len()).sum();
    let (records, failure) = reader.read_lines(&refs);
    assert!(failure.is_none());
    let names: Vec<&str> = records.iter().map(|r| r.name.as_str()).collect();
    assert_eq!(names, vec!["LL", "NB", "GL", "DP", "LL", "NB"]);
    assert_eq!(reader.stats.nb_lines_read, 9);
    assert_eq!(reader.stats.nb_lines_skipped, 2);
    assert_eq!(reader.stats.nb_chars_read, bytes);
    // records handed out, lines skipped and lines ignored make up the lines
    let ignored = 1;
    assert_eq!(records.len() + reader.stats.nb_lines_skipped + ignored, lines.len());
    // each record holds its own line
    assert_eq!(records[3].value(), "DPAAAAABBBBBCCCCCDDDDD");
    assert_eq!(records[0].value(), lines[0]);
    assert_eq!(records[4].value(), lines[7]);
    // the layout keeps no value
    assert_eq!(reader.layout.get("DP").unwrap().value(), "");

    // line by line the outcomes are the same
    let mut reader = Reader::<UTF8Mode>::new("f", 0, layout_load_layout_utf8());
    assert!(reader.ignore_line("^#"));
    let mut outcomes = Vec::new();
    for (i, line) in lines.iter().enumerate() {
        let outcome = reader.read_line(line);
        assert_eq!(reader.stats.nb_lines_read, i + 1);
        outcomes.push(match outcome {
            Outcome::Yield(_) => 'y',
            Outcome::Ignored => 'i',
            Outcome::Skipped => 's',
            Outcome::Failed(_) => 'f',
        });
    }
    let outcomes: String = outcomes.into_iter().collect();
    assert_eq!(outcomes, "yyisyysyy");
}

#[test]
fn reader_strict_fails_on_a_line_of_no_record() {
    let layout = layout_load_layout_ascii();
    let mut reader = Reader::<AsciiMode>::new("./tests/test_ascii.data", 0, layout);
    reader.set_lazyness(ReaderLazyness::Strict);
    assert_eq!(reader.lazyness, ReaderLazyness::Strict);

    let lines = vec!["NB1223334444555556666667777777888888889999999999", "XX?", "DPAAAAABBBBBCCCCCDDDDD"];
    let (records, failure) = reader.read_lines(&lines);
    assert_eq!(records.len(), 1);
    assert_eq!(records[0].get_value("N9"), "999999999");
    match failure {
        Some(RbfError::UnknownRecord(line, name)) => {
            assert_eq!(line, 2);
            assert_eq!(name, "XX");
        }
        _ => panic!("the second line belongs to no record"),
    }
    // the reading stopped at the second line
    assert_eq!(reader.stats.nb_lines_read, 2);
    assert_eq!(reader.stats.nb_lines_skipped, 0);
    assert_eq!(reader.stats.nb_chars_read, lines[0].len() + 3);

    match reader.read_line("ZZ") {
        Outcome::Failed(e) => {
            assert_eq!(e.to_string(), "line 3: no record named <ZZ> in the layout");
            assert_eq!(e.description(), "a line belongs to no record of the layout");
        }
        _ => panic!("no record is named ZZ"),
    }

    // a lazy reader skips such lines
    reader.set_lazyness(ReaderLazyness::Lazy);
    assert!(matches!(reader.read_line("ZZ"), Outcome::Skipped));
    assert_eq!(reader.stats.nb_lines_skipped, 1);
    assert_eq!(reader.stats.nb_lines_read, 4);
}

#[test]
fn record_filter_holds_of_any_occurrence() {
    let layout = layout_load_layout_ascii();
    let mut rec = layout.get("DP").unwrap().clone();
    rec.set_value("DPAAAAABBBBBCCCCCDDDDD");

    assert!(rec.is_filter_matched(&RecordFilter::from("F5 ~ ^D").unwrap()).unwrap());
    assert!(!rec.is_filter_matched(&RecordFilter::from("F5 = ZZZZZ").unwrap()).unwrap());
    assert!(rec.is_filter_matched(&RecordFilter::from("F_absent = X").unwrap()).unwrap());
    assert!(rec.is_filter_matched(&RecordFilter::from("F5 = CCCCC;ID = DP").unwrap()).unwrap());
    assert!(!rec.is_filter_matched(&RecordFilter::from("F5 = CCCCC;ID != DP").unwrap()).unwrap());
    assert!(!rec.is_filter_matched(&RecordFilter::from("ID = XX;F5 ~ A").unwrap()).unwrap());
    assert!(rec
        .is_filter_matched(&RecordFilter::from("F5 > CCCCC; F5 < BBBBB;NONE ~ .").unwrap())
        .unwrap());
    assert!(rec.is_filter_matched(&RecordFilter { expr: Vec::new() }).unwrap());

    let filters = RecordFilter::from("W10 = AA;N5 != 20").unwrap();
    assert!(filters.check(&layout).is_ok());
    let filters = RecordFilter::from("FIELD1 = AA;N5 != 20").unwrap();
    match filters.check(&layout) {
        Err(RbfError::InvalidFilter(expr)) => assert_eq!(expr, "FIELD1=AA"),
        _ => panic!("no record holds a field FIELD1"),
    }

    // a typed comparison that cannot be made
    let mut nb = layout.get("NB").unwrap().clone();
    nb.set_value("NB1  333");
    assert!(nb.is_filter_matched(&RecordFilter::from("N1 = 1;N3 > 300").unwrap()).unwrap());
    assert!(matches!(
        nb.is_filter_matched(&RecordFilter::from("N1 = 2;N2 = 22").unwrap()),
        Err(RbfError::TypedCompareFailed(_, _))
    ));
}

#[test]
fn layout_is_rendered_as_html() {
    let xml = "<l><meta version=\"1\" description=\"Two records\" schema=\"S\"/><map type=\"range\" domain=\"0..1\"/>\
        <fieldtype name=\"N\" type=\"int\" pattern=\"\\d+\"/><fieldtype name=\"A\" type=\"string\"/>\
        <record name=\"B\" description=\"second\"><field name=\"F\" description=\"a field\" type=\"A\" length=\"3\"/></record>\
        <record name=\"A\" description=\"first\"><field name=\"G\" description=\"\" type=\"N\" start=\"2\" end=\"10\"/></record>\
        </l>";
    let layout = Layout::<AsciiMode>::new("l.xml", xml.as_bytes()).unwrap();
    let b = "<h2><span class=\"label label-primary\">B-second-3</span></h2>\
        <table class=\"table table-striped\">\
        <thead><tr><th>#</th><th>Field name</th><th>Description</th>\
        <th>Type</th><th>Length</th><th>Start</th><th>End</th></tr></thead>\
        <tr><td>1</td><td><strong>F</strong></td><td>a field</td><td>A</td><td>3</td><td>1</td><td>3</td></tr>\
        </table>";
    assert_eq!(layout.get("B").unwrap().to_html(), b);
    let a = "<h2><span class=\"label label-primary\">A-first-10</span></h2>\
        <table class=\"table table-striped\">\
        <thead><tr><th>#</th><th>Field name</th><th>Description</th>\
        <th>Type</th><th>Length</th><th>Start</th><th>End</th></tr></thead>\
        <tr><td>1</td><td><strong>G</strong></td><td></td><td>N</td><td>9</td><td>2</td><td>10</td></tr>\
        </table>";
    assert_eq!(layout.get("A").unwrap().to_html(), a);
    let page = format!(
        "<!DOCTYPE output><html lang=\"en\"><head><meta charset=\"utf-8\">\
        <link rel=\"stylesheet\" href=\"https://maxcdn.bootstrapcdn.com/bootstrap/3.3.5/css/bootstrap.min.css\"></head>\
        <style>@media print {{ h2 {{page-break-before: always;}} }}</style>\
        <body role=\"document\"><div class=\"container theme-showcase\" role=\"main\">\
        <div class=\"jumbotron\"><h1 class=\"text-center\">Two records (1)</h1></div>\
        <div class=\"container\">\
        <h2><span class=\"label label-primary\">Metadata</span></h2>\
        <table class=\"table table-striped\">\
        <tr><td><strong>Record length</strong></td><td>0</td></tr>\
        <tr><td><strong>Version</strong></td><td>1</td></tr>\
        <tr><td><strong>Description</strong></td><td>Two records</td></tr>\
        <tr><td><strong>schema</strong></td><td>S</td></tr>\
        </table><br>\
        <h2><span class=\"label label-primary\">Field types</span></h2>\
        <table class=\"table table-striped\">\
        <thead><tr><th>Field type</th><th>Type of data</th><th>Pattern</th></tr></thead>\
        <tr><td>A</td><td>string</td><td></td></tr>\
        <tr><td>N</td><td>int</td><td>\\d+</td></tr>\
        </table><br>\
        {}<br>{}<br></div></div></body></html>",
        a, b
    );
    assert_eq!(layout.to_html(), page);
}

#[should_panic]
#[allow(unused_variables)]
#[test]
fn reader_stringent() {
    // load our layout
    let layout = layout_load_layout_ascii();

    // create reader
    let mut reader = Reader::<AsciiMode>::new("./tests/test_ascii.data", 0, layout);

    // set stringent mode
    reader.set_lazyness(ReaderLazyness::Strict);

    // at some point, this should panic
    for line in test_lines("ABCDEFGHIJKLMNOPQRSTUVWXYZ") {
        if !line.is_ascii() {
            continue;
        }
        if let Outcome::Failed(e) = reader.read_line(&line) {
            panic!("{}", e.to_string());
        }
    }
}
