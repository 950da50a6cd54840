use rbf::error::RbfError;
use rbf::filter::fieldfilter::{FieldFilter, FieldFilterOp};
use rbf::filter::recordfilter::RecordFilter;
use rbf::util::{into_field_list, into_rec_map};

#[test]
fn field_filter_is_made_of_three_parts() {
    let expr = FieldFilter::new("  FIELD1  ", " =  ", " FOO  ").unwrap();
    assert_eq!(expr.fname, "FIELD1");
    assert_eq!(expr.op, FieldFilterOp::OpEqual);
    assert_eq!(expr.op_string, "=");
    assert_eq!(expr.freg_or_value.as_str(), "FOO");

    let expr = FieldFilter::new("  FIELD1  ", " !=  ", " FOO  ").unwrap();
    assert_eq!(expr.to_string(), "FIELD1!=FOO");

    // the right-hand side of a comparison is no regular expression
    let expr = FieldFilter::new("F", "<", "(").unwrap();
    assert_eq!(expr.freg_or_value, "(");
    match FieldFilter::new("F", "~", "(") {
        Err(RbfError::InvalidFilter(what)) => assert_eq!(what, "("),
        _ => panic!("an open bracket is no regular expression"),
    }
    match FieldFilter::new("F", " # ", "1") {
        Err(RbfError::InvalidFilter(what)) => assert_eq!(what, "#"),
        _ => panic!("# is no operator"),
    }
}

#[test]
fn field_filter_operators() {
    assert_eq!(FieldFilterOp::from("="), Some(FieldFilterOp::OpEqual));
    assert_eq!(FieldFilterOp::from("!="), Some(FieldFilterOp::OpNotEqual));
    assert_eq!(FieldFilterOp::from("~"), Some(FieldFilterOp::OpSimilar));
    assert_eq!(FieldFilterOp::from("!~"), Some(FieldFilterOp::OpNotSimilar));
    assert_eq!(FieldFilterOp::from("<"), Some(FieldFilterOp::OpLessThan));
    assert_eq!(FieldFilterOp::from(">"), Some(FieldFilterOp::OpGreaterThan));
    for other in ["#", "", "==", "=~", "<=", " =", "!"] {
        assert_eq!(FieldFilterOp::from(other), None);
    }
}

#[test]
fn field_filter_is_read_from_an_expression() {
    let mut expr = FieldFilter::from("  FIELD1 = FOO   ").unwrap();
    assert_eq!(expr.fname, "FIELD1");
    assert_eq!(expr.op, FieldFilterOp::OpEqual);
    assert_eq!(expr.freg_or_value.as_str(), "FOO");

    expr = FieldFilter::from("FIELD1 != FOO").unwrap();
    assert_eq!(expr.fname, "FIELD1");
    assert_eq!(expr.op, FieldFilterOp::OpNotEqual);
    assert_eq!(expr.freg_or_value.as_str(), "FOO");

    expr = FieldFilter::from("FIELD1 ~ ^FOO").unwrap();
    assert_eq!(expr.fname, "FIELD1");
    assert_eq!(expr.op, FieldFilterOp::OpSimilar);
    assert_eq!(expr.freg_or_value.as_str(), "^FOO");

    expr = FieldFilter::from("FIELD1 !~ ^FOO").unwrap();
    assert_eq!(expr.fname, "FIELD1");
    assert_eq!(expr.op, FieldFilterOp::OpNotSimilar);
    assert_eq!(expr.freg_or_value.as_str(), "^FOO");

    expr = FieldFilter::from("FIELD1 < 10").unwrap();
    assert_eq!(expr.fname, "FIELD1");
    assert_eq!(expr.op, FieldFilterOp::OpLessThan);
    assert_eq!(expr.freg_or_value.as_str(), "10");

    expr = FieldFilter::from("FIELD1 > 10").unwrap();
    assert_eq!(expr.fname, "FIELD1");
    assert_eq!(expr.op, FieldFilterOp::OpGreaterThan);
    assert_eq!(expr.freg_or_value.as_str(), "10");
}

// what the regular expression of the grammar finds in an expression
fn by_regex(expr: &str) -> Option<(String, String, String)> {
    let re = regex::Regex::new(r"(?P<field>\w+)\s+(?P<op>=|!=|~|!~|<|>)\s+(?P<re>.+)$").unwrap();
    re.captures(expr).map(|caps| {
        (
            caps["field"].trim().to_string(),
            caps["op"].trim().to_string(),
            caps["re"].trim().to_string(),
        )
    })
}

#[test]
fn field_filter_follows_the_grammar() {
    let expressions = [
        "FIELD1 = FOO",
        "  FIELD1 = FOO   ",
        "F=1",
        "F =1",
        "F= 1",
        "F = ",
        "F =  ",
        "F = \t ",
        "F = 1 = 2",
        "a b = c",
        "#abc = x",
        "a-b ~ c",
        "= = =",
        "A != B",
        "A ! = B",
        "A !~ B",
        "A =~ B",
        "A == B",
        "A <= B",
        "A < = B",
        "\u{3b1}\u{3b2} > \u{3b3}",
        "caf\u{e9}_1 ~ x",
        "F\u{a0}=\u{2003}v",
        "F = a\nb",
        "F = \n b",
        "F =\n b",
        "F =\nb\n",
        "F\n= x",
        "F = x\n",
        "x\nF = y",
        "",
        " ",
        "F",
        "F =",
        "F9 ~ ^[0-9]+$",
        "1 < 2",
        "_ > _",
        "F\t!=\tlong value with  blanks ",
        "a = b; c = d",
        "A < B > C",
    ];
    for expr in expressions {
        let expected = by_regex(expr);
        match (FieldFilter::from(expr), expected) {
            (Ok(f), Some((name, op, value))) => {
                assert_eq!(f.fname, name, "name of {:?}", expr);
                assert_eq!(f.op_string, op, "operator of {:?}", expr);
                assert_eq!(f.freg_or_value, value, "value of {:?}", expr);
                assert_eq!(Some(f.op), FieldFilterOp::from(&op));
            }
            (Err(RbfError::InvalidFilter(what)), None) => assert_eq!(what, expr),
            (Ok(f), None) => panic!("{:?} was read as {}", expr, f.to_string()),
            (Err(e), _) => panic!("{:?} was not read: {}", expr, e.to_string()),
        }
    }
}

#[test]
fn field_filter_reports_what_it_cannot_read() {
    match FieldFilter::from("FIELD1 # FOO") {
        Err(RbfError::InvalidFilter(expr)) => assert_eq!(expr, "FIELD1 # FOO"),
        _ => panic!("# is no operator"),
    }
    let err = FieldFilter::from("F ~ (").err().unwrap();
    assert_eq!(err.to_string(), "unable to find a suitable operator for filter \"(\"");
    assert_eq!(err.description(), "a filter expression is malformed");
}

#[test]
fn record_filter_is_a_list_of_field_filters() {
    let filters = RecordFilter::from("FIELD1 = 10;FIELD2 != 20; FIELD3 ~ ^#").unwrap();
    assert_eq!(filters.expr.len(), 3);
    assert_eq!(filters.expr[0].to_string(), "FIELD1=10");
    assert_eq!(filters.expr[1].to_string(), "FIELD2!=20");
    assert_eq!(filters.expr[2].to_string(), "FIELD3~^#");

    for (expr, bad) in [
        ("", ""),
        ("A = 1;", ""),
        ("A = 1;;B = 2", ""),
        ("A = 1; B 2 ;C", " B 2 "),
        ("A = 1;B is 2", "B is 2"),
    ] {
        match RecordFilter::from(expr) {
            Err(RbfError::InvalidFilter(what)) => assert_eq!(what, bad),
            _ => panic!("{:?} is no record filter", expr),
        }
    }
}

#[test]
fn lists_of_fields_are_read() {
    let s = into_field_list("AA, BB, CC, DD  ");
    assert_eq!(s, vec!("AA", "BB", "CC", "DD"));
    assert_eq!(into_field_list(""), vec![""]);
    assert_eq!(into_field_list("A"), vec!["A"]);
    assert_eq!(into_field_list(",A ,, \u{3b1}\u{3b2} ,"), vec!["", "A", "", "\u{3b1}\u{3b2}", ""]);
    assert_eq!(into_field_list("ID , W26,    N9 ,   G24 "), vec!["ID", "W26", "N9", "G24"]);
}

#[test]
fn lists_of_records_are_read() {
    let v = into_rec_map("F1:AA,  BB, CC ; F2: DD, EE, FF   ; F3: GG, HH  ", ';').unwrap();
    let get = |name: &str| v.iter().rev().find(|e| e.0 == name).map(|e| e.1.clone());
    assert_eq!(get("F1").unwrap(), vec!("AA", "BB", "CC"));
    assert_eq!(get("F2").unwrap(), vec!("DD", "EE", "FF"));
    assert_eq!(get("F3").unwrap(), vec!("GG", "HH"));
    assert_eq!(v.len(), 3);

    let v = into_rec_map("LL: ID\nNB : ID, N2:N3", '\n').unwrap();
    assert_eq!(v, vec![("LL", vec!["ID"]), ("NB", vec!["ID", "N2"])]);
    assert_eq!(into_rec_map("A:", ';').unwrap(), vec![("A", vec![""])]);

    // an entry without a colon
    assert!(into_rec_map("F1:AA;F2", ';').is_none());
    assert!(into_rec_map("", ';').is_none());
    assert!(into_rec_map("F1:AA;", ';').is_none());
}
