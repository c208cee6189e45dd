use cmd_args::Arg;
use cmd_args::CmdArgError;
use cmd_args::FieldKind;
use cmd_args::FieldSchema;
use cmd_args::FieldValue;
use cmd_args::Schema;

#[test]
fn classification_and_rendering_round_trip() {
    let a = Arg::parse("+opt").unwrap();
    assert_eq!(a.to_text(), "+opt");
    let a = Arg::parse("-opt").unwrap();
    assert_eq!(a.to_text(), "-opt");
    let a = Arg::parse("key=value").unwrap();
    assert_eq!(a.to_text(), "key=value");
    let a = Arg::parse("bare").unwrap();
    assert_eq!(a.to_text(), "bare");
    let a = Arg::parse("k=a=b").unwrap();
    assert_eq!(a.to_text(), "k=a=b");
    let a = Arg::parse("=v").unwrap();
    assert_eq!(a.to_text(), "=v");
}

#[test]
fn degenerate_tokens_classify_and_render() {
    let a = Arg::parse("+").unwrap();
    assert_eq!(a.to_text(), "+");
    let a = Arg::parse("-").unwrap();
    assert_eq!(a.to_text(), "-");
    let a = Arg::parse("=").unwrap();
    assert_eq!(a.to_text(), "=");
    let a = Arg::parse("a=").unwrap();
    assert_eq!(a.to_text(), "a=");
}

#[test]
fn empty_value_is_kept() {
    let schema = Schema::new(
        String::from("one text field"),
        vec![FieldSchema::new(
            String::from("opt_string"),
            FieldKind::OptionalKeyValue,
        )],
    );
    let r = schema.parse("opt_string=").unwrap();
    match r.value(0) {
        FieldValue::Text(Some(v)) => assert_eq!(v, ""),
        _ => panic!("an empty value must still set the field"),
    }
    match schema.parse("+") {
        Err(CmdArgError::UnrecognizedOrIllFormed(t)) => assert_eq!(t, "+"),
        _ => panic!("a lone sign matches no field"),
    }
}

#[test]
fn ambiguous_token_is_rejected_at_classification() {
    assert!(matches!(
        Arg::parse("+a=b"),
        Err(CmdArgError::UnsupportedBoolKVOption)
    ));
    assert!(matches!(
        Arg::parse("-a=b"),
        Err(CmdArgError::UnsupportedBoolKVOption)
    ));
    assert!(matches!(
        Arg::parse("+="),
        Err(CmdArgError::UnsupportedBoolKVOption)
    ));
}

#[test]
fn round_trip_of_a_parsed_record() {
    let schema = Schema::new(
        String::from("schema help"),
        vec![
            FieldSchema::new(String::from("help"), FieldKind::BoolPresence),
            FieldSchema::new(String::from("opt_bool"), FieldKind::OptionalBoolToggle),
            FieldSchema::new(String::from("opt_string"), FieldKind::OptionalKeyValue),
        ],
    );
    let noisy = "  help \t -opt_bool   opt_string=xy  ";
    let first = schema.parse(noisy).unwrap();

    let rendered: Vec<String> = noisy
        .split_whitespace()
        .map(|t| Arg::parse(t).unwrap().to_text())
        .collect();
    let joined = rendered.join(" ");
    assert_eq!(joined, "help -opt_bool opt_string=xy");

    let again = schema.parse(&joined).unwrap();
    assert!(matches!(first.value(0), FieldValue::Flag(true)));
    assert!(matches!(again.value(0), FieldValue::Flag(true)));
    assert!(matches!(first.value(1), FieldValue::Toggle(Some(false))));
    assert!(matches!(again.value(1), FieldValue::Toggle(Some(false))));
    match (first.value(2), again.value(2)) {
        (FieldValue::Text(Some(a)), FieldValue::Text(Some(b))) => {
            assert_eq!(a, "xy");
            assert_eq!(b, "xy");
        },
        _ => panic!("expected both records to hold the text value"),
    }
}

#[test]
fn first_caption_selection() {
    let captions = vec![None, Some(String::from("a")), Some(String::from("b"))];
    assert_eq!(cmd_args::first_caption_index(&captions), Some(1));
    let none: Vec<Option<String>> = vec![None, None];
    assert_eq!(cmd_args::first_caption_index(&none), None);
    let empty: Vec<Option<String>> = Vec::new();
    assert_eq!(cmd_args::first_caption_index(&empty), None);
}

#[test]
fn first_declared_field_wins() {
    let schema = Schema::new(
        String::from("duplicate names"),
        vec![
            FieldSchema::new(String::from("x"), FieldKind::BoolPresence),
            FieldSchema::new(String::from("x"), FieldKind::OptionalKeyValue),
        ],
    );
    let r = schema.parse("x x=1").unwrap();
    assert!(matches!(r.value(0), FieldValue::Flag(true)));
    match r.value(1) {
        FieldValue::Text(Some(v)) => assert_eq!(v, "1"),
        _ => panic!("the key/value token must reach the second field"),
    }
}
