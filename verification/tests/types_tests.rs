use rbf::error::RbfError;
use rbf::types::base::{base_type_from, BaseType, Kind};
use rbf::types::compare::Compare;
use rbf::types::decimal::Decimal;
use rbf::types::fieldtype::FieldType;
use rbf::types::root::RootType;

#[test]
fn comparison() {
    // test all types
    let target: Vec<&str> = "FOO;3.14;-100;100;20170101;120000".split(';').collect();
    let behind: Vec<&str> = "FOM;3.13;-101;99;20161231;115959".split(';').collect();
    let over: Vec<&str> = "FOP;3.15;-99;101;20170102;120001".split(';').collect();

    // string, etc
    let st = base_type_from("string").unwrap();
    assert!(st.eq(target[0], target[0]).unwrap());
    assert!(st.lt(behind[0], target[0]).unwrap());
    assert!(st.gt(over[0], target[0]).unwrap());

    let ft = base_type_from("decimal").unwrap();
    assert!(ft.eq(target[1], target[1]).unwrap());
    assert!(ft.lt(behind[1], target[1]).unwrap());
    assert!(ft.gt(over[1], target[1]).unwrap());

    let it = base_type_from("int").unwrap();
    assert!(it.eq(target[2], target[2]).unwrap());
    assert!(it.lt(behind[2], target[2]).unwrap());
    assert!(it.gt(over[2], target[2]).unwrap());

    let ut = base_type_from("uint").unwrap();
    assert!(ut.eq(target[3], target[3]).unwrap());
    assert!(ut.lt(behind[3], target[3]).unwrap());
    assert!(ut.gt(over[3], target[3]).unwrap());

    let mut dt = base_type_from("date").unwrap();
    dt.set_format("%Y%m%d");
    assert!(dt.eq(target[4], target[4]).unwrap());
    assert!(dt.lt(behind[4], target[4]).unwrap());
    assert!(dt.gt(over[4], target[4]).unwrap());

    let mut tt = base_type_from("time").unwrap();
    tt.set_format("%H%M%S");
    assert!(tt.eq(target[5], target[5]).unwrap());
    assert!(tt.lt(behind[5], target[5]).unwrap());
    assert!(tt.gt(over[5], target[5]).unwrap());
}

#[test]
fn comparison_says_no_too() {
    let st = base_type_from("string").unwrap();
    assert!(!st.eq("FOO", "FOP").unwrap());
    assert!(!st.lt("FOO", "FOO").unwrap());
    assert!(!st.gt("FOM", "FOO").unwrap());
    assert!(st.lt("FO", "FOO").unwrap());
    assert!(st.lt("", "A").unwrap());
    assert!(st.lt("Z", "α").unwrap());

    let it = base_type_from("int").unwrap();
    assert!(!it.lt("-99", "-100").unwrap());
    assert!(it.lt("9", "10").unwrap());
    assert!(it.eq("+7", "7").unwrap());
    assert!(it.eq("-0", "0").unwrap());
    assert!(it.eq("007", "7").unwrap());
    assert!(it.gt("9223372036854775807", "-9223372036854775808").unwrap());

    let mut dt = base_type_from("date").unwrap();
    dt.set_format("%Y%m%d");
    assert!(!dt.lt("20170101", "20161231").unwrap());
    assert!(!dt.eq("20170101", "20170102").unwrap());
    dt.set_format("%d/%m/%Y");
    assert!(dt.lt("31/12/2016", "01/01/2017").unwrap());

    let mut tt = base_type_from("time").unwrap();
    tt.set_format("%H%M%S");
    assert!(!tt.gt("115959", "120000").unwrap());
    assert!(tt.lt("000001", "000100").unwrap());
}

#[test]
fn decimal_is_compared_exactly() {
    assert!(Compare::<Decimal>::eq("3.140", "3.14").unwrap());
    assert!(Compare::<Decimal>::eq("-0", "0.0").unwrap());
    assert!(Compare::<Decimal>::eq("003.5", "+3.50").unwrap());
    assert!(Compare::<Decimal>::eq(".5", "0.5").unwrap());
    assert!(Compare::<Decimal>::eq("5.", "5").unwrap());
    assert!(Compare::<Decimal>::lt("-3.15", "-3.14").unwrap());
    assert!(Compare::<Decimal>::lt("-0.01", "0").unwrap());
    assert!(!Compare::<Decimal>::lt("0", "-0.0").unwrap());
    assert!(!Compare::<Decimal>::lt("0.0", "-0").unwrap());
    assert!(Compare::<Decimal>::lt("9.99", "10").unwrap());
    assert!(Compare::<Decimal>::lt("2", "10").unwrap());
    assert!(Compare::<Decimal>::gt("10", "9.999999999999999999999999999999").unwrap());
    assert!(Compare::<Decimal>::lt(
        "123456789012345678901234567890.1",
        "123456789012345678901234567890.10000000000000000001"
    )
    .unwrap());
    assert!(!Compare::<Decimal>::gt("1.5", "1.50").unwrap());
    assert!(Compare::<Decimal>::gt("0.1", "-100").unwrap());
}

#[test]
fn integers_are_read_strictly() {
    assert!(Compare::<i64>::eq("12", "12").unwrap());
    assert!(Compare::<u64>::lt("18446744073709551614", "18446744073709551615").unwrap());
    assert!(Compare::<u64>::eq("+5", "5").unwrap());
    for bad in ["", "+", "-", " 1", "1 ", "1_000", "0x10", "12a", "9223372036854775808", "١٢"] {
        assert!(Compare::<i64>::eq(bad, "1").is_err(), "{:?} was read", bad);
    }
    for bad in ["-1", "-0", "18446744073709551616", "1.0"] {
        assert!(Compare::<u64>::eq(bad, "1").is_err(), "{:?} was read", bad);
    }
    for bad in ["", ".", "-", "+.", "1e5", "inf", "NaN", "1.2.3", " 1", "1,5"] {
        assert!(Compare::<Decimal>::eq(bad, "1").is_err(), "{:?} was read", bad);
    }
}

#[test]
fn unreadable_operand_is_reported() {
    let it = base_type_from("int").unwrap();
    match it.eq("abc", "xyz") {
        Err(RbfError::TypedCompareFailed(value, ty)) => {
            assert_eq!(value, "abc");
            assert_eq!(ty, "int");
        }
        _ => panic!("the left operand is not a number"),
    }
    match it.lt("12", "xyz") {
        Err(RbfError::TypedCompareFailed(value, ty)) => {
            assert_eq!(value, "xyz");
            assert_eq!(ty, "int");
        }
        _ => panic!("the right operand is not a number"),
    }
    let mut dt = base_type_from("date").unwrap();
    dt.set_format("%Y%m%d");
    match dt.gt("20171301", "20170101") {
        Err(RbfError::TypedCompareFailed(value, ty)) => {
            assert_eq!(value, "20171301");
            assert_eq!(ty, "date");
        }
        _ => panic!("there is no thirteenth month"),
    }
    let tt = base_type_from("time").unwrap();
    // without a format no time can be read
    assert!(tt.eq("120000", "120000").is_err());
    let err = Compare::<Decimal>::to_t("1e5").err().unwrap();
    assert_eq!(
        err.to_string(),
        "unable to convert string value 1e5 to type <decimal>"
    );
    assert_eq!(err.description(), "a value cannot be read as its field type");
}

#[test]
fn base_type_names() {
    for name in ["string", "decimal", "int", "uint", "date", "time"] {
        let mut bt = base_type_from(name).unwrap();
        assert_eq!(bt.get_name(), name);
        assert_eq!(bt.get_format(), "");
        bt.set_format("%Y");
        assert_eq!(bt.get_format(), "%Y");
        assert_eq!(bt.get_name(), name);
        assert_eq!(Kind::from_name(name).unwrap().name(), name);
    }
    assert!(base_type_from("complex").is_none());
    assert!(base_type_from("").is_none());
    assert!(base_type_from("String").is_none());
}

#[test]
fn root_type_keeps_its_format() {
    let mut rt = RootType::<u64>::new("%d");
    assert_eq!(rt.get_format(), "%d");
    assert_eq!(rt.format, "%d");
    rt.set_format("%H%M");
    assert_eq!(rt.get_format(), "%H%M");
}

#[test]
fn fieldtype_all() {
    let ft = FieldType::new("S", "string");
    assert_eq!(&ft.id, "S");
    assert_eq!(ft.type_as_string, "string");

    let ft = FieldType::new("N", "decimal");
    assert_eq!(&ft.id, "N");
    assert_eq!(ft.type_as_string, "decimal");

    let ft = FieldType::new("I", "int");
    assert_eq!(&ft.id, "I");
    assert_eq!(ft.type_as_string, "int");

    let ft = FieldType::new("U", "uint");
    assert_eq!(&ft.id, "U");
    assert_eq!(ft.type_as_string, "uint");
}

#[test]
fn fieldtype_is_made_of_known_types_only() {
    assert!(FieldType::try_new("C", "complex").is_none());
    assert!(FieldType::try_new("", "int").is_none());
    let mut ft = FieldType::try_new("D", "date").unwrap();
    assert_eq!(ft.base_type.get_name(), "date");
    assert_eq!(ft.pattern, "");
    ft.set_format("%Y%m%d");
    assert_eq!(ft.base_type.get_format(), "%Y%m%d");
    assert!(ft.set_pattern("\\d{8}"));
    assert_eq!(ft.pattern, "\\d{8}");
    // what is no regular expression is not taken
    assert!(!ft.set_pattern("(\\d{8}"));
    assert_eq!(ft.pattern, "\\d{8}");
}

#[test]
fn fieldtype_is_written_out() {
    let mut ft = FieldType::new("D", "date");
    ft.set_format("%Y%m%d");
    assert!(ft.set_pattern("\\d{8}"));
    assert_eq!(
        ft.to_string(),
        "id=<D> type_as_string=<date> pattern=<\\d{8}> format=<%Y%m%d>"
    );
}

#[test]
fn errors_are_written_out() {
    let e = RbfError::ErrorOpeningLayoutFile(String::from("l.xml"), String::from("not found"));
    assert_eq!(
        e.to_string(),
        "the layout file <l.xml> could not be opened, io error=not found"
    );
    assert_eq!(e.description(), "the layout file could not be opened");
    let e = RbfError::NoFieldTypeFound;
    assert_eq!(e.to_string(), "");
    assert_eq!(e.description(), "The field type specified in layout is not existing");
    let e = RbfError::UnknownRecord(1234567890, String::from("XX"));
    assert_eq!(e.to_string(), "line 1234567890: no record named <XX> in the layout");
    let e = RbfError::LayoutInvalid(String::from("R"), 0, usize::MAX);
    assert_eq!(
        e.to_string(),
        format!("record <R> should have length 0 but has length {}", usize::MAX)
    );
    assert_eq!(e.description(), "a record has not the expected length");
}

#[test]
#[should_panic]
#[allow(unused_variables)]
fn unknown_fieldtype() {
    let ft = FieldType::try_new("C", "complex").unwrap();
}
