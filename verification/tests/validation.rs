use cmd_args::CmdArgError;
use cmd_args::FieldKind;
use cmd_args::FieldSchema;
use cmd_args::FieldValue;
use cmd_args::Record;
use cmd_args::Schema;

fn test_schema() -> Schema {
    Schema::new(
        String::from("help text"),
        vec![
            FieldSchema::new(String::from("help"), FieldKind::BoolPresence),
            FieldSchema::new(String::from("opt_bool"), FieldKind::OptionalBoolToggle),
            FieldSchema::new(String::from("opt_string"), FieldKind::OptionalKeyValue),
        ],
    )
}

fn assert_text_is(record: &Record, i: usize, expected: Option<&str>) {
    match record.value(i) {
        FieldValue::Text(Some(s)) => assert_eq!(Some(s.as_str()), expected),
        FieldValue::Text(None) => assert_eq!(None, expected),
        _ => panic!("field {} is not a text field", i),
    }
}

#[test]
fn validation() {
    let schema = test_schema();
    assert_eq!(schema.help(), "help text");

    let r = schema.parse("").unwrap();
    assert!(matches!(r.value(0), FieldValue::Flag(false)));
    assert!(matches!(r.value(1), FieldValue::Toggle(None)));
    assert_text_is(&r, 2, None);

    let r = schema.parse("help").unwrap();
    assert!(matches!(r.value(0), FieldValue::Flag(true)));
    assert!(matches!(r.value(1), FieldValue::Toggle(None)));
    assert_text_is(&r, 2, None);

    assert!(schema.parse("+help").is_err());
    assert!(schema.parse("-help").is_err());
    assert!(schema.parse("help=abc").is_err());

    let r = schema.parse("+opt_bool").unwrap();
    assert!(matches!(r.value(0), FieldValue::Flag(false)));
    assert!(matches!(r.value(1), FieldValue::Toggle(Some(true))));
    assert_text_is(&r, 2, None);

    let r = schema.parse("-opt_bool").unwrap();
    assert!(matches!(r.value(0), FieldValue::Flag(false)));
    assert!(matches!(r.value(1), FieldValue::Toggle(Some(false))));
    assert_text_is(&r, 2, None);

    assert!(schema.parse("opt_bool").is_err());
    assert!(schema.parse("opt_bool=abc").is_err());

    let r = schema.parse("opt_string=abc").unwrap();
    assert!(matches!(r.value(0), FieldValue::Flag(false)));
    assert!(matches!(r.value(1), FieldValue::Toggle(None)));
    assert_text_is(&r, 2, Some("abc"));

    assert!(schema.parse("opt_string").is_err());
    assert!(schema.parse("+opt_string").is_err());
    assert!(schema.parse("-opt_string").is_err());
}

#[test]
fn rejected_token_is_rendered_canonically() {
    let schema = test_schema();
    match schema.parse("opt_bool") {
        Err(CmdArgError::UnrecognizedOrIllFormed(t)) => assert_eq!(t, "opt_bool"),
        _ => panic!("expected an unrecognized-token error"),
    }
    match schema.parse("help=abc") {
        Err(CmdArgError::UnrecognizedOrIllFormed(t)) => assert_eq!(t, "help=abc"),
        _ => panic!("expected an unrecognized-token error"),
    }
    match schema.parse("+help") {
        Err(CmdArgError::UnrecognizedOrIllFormed(t)) => assert_eq!(t, "+help"),
        _ => panic!("expected an unrecognized-token error"),
    }
}

#[test]
fn fail_fast_reports_first_invalid_token() {
    let schema = test_schema();
    match schema.parse("zzz qqq") {
        Err(CmdArgError::UnrecognizedOrIllFormed(t)) => assert_eq!(t, "zzz"),
        _ => panic!("expected an unrecognized-token error"),
    }
    match schema.parse("help zzz qqq") {
        Err(CmdArgError::UnrecognizedOrIllFormed(t)) => assert_eq!(t, "zzz"),
        _ => panic!("expected an unrecognized-token error"),
    }
}

#[test]
fn ambiguous_token_wins_regardless_of_schema() {
    let schema = test_schema();
    assert!(matches!(
        schema.parse("+opt_string=abc"),
        Err(CmdArgError::UnsupportedBoolKVOption)
    ));
    assert!(matches!(
        schema.parse("-undeclared=1"),
        Err(CmdArgError::UnsupportedBoolKVOption)
    ));
    assert!(matches!(
        schema.parse("zzz +opt_bool=1"),
        Err(CmdArgError::UnsupportedBoolKVOption)
    ));
}

#[test]
fn whitespace_runs_do_not_matter() {
    let schema = test_schema();
    let a = schema.parse("help +opt_bool opt_string=abc").unwrap();
    let b = schema.parse("  help \t\t +opt_bool \n opt_string=abc  ").unwrap();
    assert!(matches!(a.value(0), FieldValue::Flag(true)));
    assert!(matches!(b.value(0), FieldValue::Flag(true)));
    assert!(matches!(a.value(1), FieldValue::Toggle(Some(true))));
    assert!(matches!(b.value(1), FieldValue::Toggle(Some(true))));
    assert_text_is(&a, 2, Some("abc"));
    assert_text_is(&b, 2, Some("abc"));
    let blank = schema.parse(" \t ").unwrap();
    assert!(matches!(blank.value(0), FieldValue::Flag(false)));
    assert!(matches!(blank.value(1), FieldValue::Toggle(None)));
    assert_text_is(&blank, 2, None);
}

#[test]
fn last_token_for_a_field_wins() {
    let schema = test_schema();
    let r = schema.parse("opt_string=a opt_string=b").unwrap();
    assert_text_is(&r, 2, Some("b"));
    let r = schema.parse("+opt_bool -opt_bool").unwrap();
    assert!(matches!(r.value(1), FieldValue::Toggle(Some(false))));
}

#[test]
fn record_len_matches_schema() {
    let schema = test_schema();
    let r = schema.parse("help").unwrap();
    assert_eq!(r.len(), 3);
}

#[test]
fn error_messages() {
    let schema = test_schema();
    let e = schema.parse("opt_bool").unwrap_err();
    assert_eq!(
        e.message(),
        "unrecognized or ill-formed argument: opt_bool"
    );
    let e = schema.parse("+x=1").unwrap_err();
    assert_eq!(e.message(), "+/-option with =value is not supported yet");
}
