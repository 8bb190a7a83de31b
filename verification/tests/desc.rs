use alpm::alpm_desc::de;
use alpm::alpm_desc::de::{parse_bool, parse_byte, parse_key, parse_signed, parse_unsigned};
use alpm::alpm_desc::de_error::ErrorKind as DeErrorKind;
use alpm::alpm_desc::record::{Record, Scalar, ScalarShape, SchemaField, Shape, Value};
use alpm::alpm_desc::ser;

#[test]
fn test_parse_key() {
    assert_eq!(
        parse_key("%NAME%\n sef", "\n").unwrap(),
        (" sef".to_string(), "NAME".to_string())
    );
    assert_eq!(
        parse_key("%NAME%\r\n sef", "\r\n").unwrap(),
        (" sef".to_string(), "NAME".to_string())
    );
}

#[test]
fn test_parse_byte() {
    assert_eq!(parse_byte(b"00"), Some(0));
    assert_eq!(parse_byte(b"09"), Some(9));
    assert_eq!(parse_byte(b"0a"), Some(10));
    assert_eq!(parse_byte(b"0f"), Some(15));
    assert_eq!(parse_byte(b"1a"), Some(16 + 10));
    assert_eq!(parse_byte(b"1A"), Some(16 + 10));
    assert_eq!(parse_byte(b"aa"), Some(16 * 10 + 10));
    assert_eq!(parse_byte(b"ff"), Some(255));
    assert_eq!(parse_byte(b"FF"), Some(255));
    assert!(parse_byte(b"000").is_none());
    assert!(parse_byte(b"0").is_none());
    assert!(parse_byte(b"").is_none());
    assert!(parse_byte(b"..12jsf389iosnfei8osjfi9302jf3").is_none());
    assert!(parse_byte(b"gc").is_none());
}

fn record_schema() -> Vec<SchemaField> {
    vec![
        SchemaField { name: "name".to_string(), shape: Shape::Scalar(ScalarShape::Text) },
        SchemaField { name: "age".to_string(), shape: Shape::Scalar(ScalarShape::Unsigned) },
        SchemaField { name: "age_diff".to_string(), shape: Shape::Scalar(ScalarShape::Signed) },
        SchemaField { name: "height".to_string(), shape: Shape::Scalar(ScalarShape::Text) },
        SchemaField { name: "friends".to_string(), shape: Shape::List },
        SchemaField { name: "best_friend".to_string(), shape: Shape::List },
    ]
}

#[test]
fn it_works() {
    fn check_record(rec: Record, schema: &Vec<SchemaField>) {
        let serialized = ser::to_string(&rec).unwrap();
        let deserialized: Record = de::from_str(&serialized, schema).unwrap();
        assert_eq!(deserialized, rec);
    }
    let mut rec = Record::new();
    rec.push_field("name".to_string(), Value::Scalar(Scalar::Text("Me".to_string())));
    rec.push_field("age".to_string(), Value::Scalar(Scalar::Unsigned(60)));
    rec.push_field("age_diff".to_string(), Value::Scalar(Scalar::Signed(-1)));
    rec.push_field("height".to_string(), Value::Scalar(Scalar::Text("3".to_string())));
    rec.push_field(
        "friends".to_string(),
        Value::List(vec!["some".to_string(), "friends".to_string()]),
    );
    rec.push_field(
        "best_friend".to_string(),
        Value::List(vec!["Arthur".to_string(), "20".to_string()]),
    );
    check_record(rec, &record_schema());
}

#[test]
fn round_trip_edges() {
    // empty list, absent optional, and multi-byte UTF-8 text all survive
    let schema = vec![
        SchemaField { name: "title".to_string(), shape: Shape::Scalar(ScalarShape::Text) },
        SchemaField { name: "nick".to_string(), shape: Shape::Optional(ScalarShape::Text) },
        SchemaField { name: "tags".to_string(), shape: Shape::List },
        SchemaField { name: "empty".to_string(), shape: Shape::Scalar(ScalarShape::Text) },
    ];
    let mut rec = Record::new();
    rec.push_field("title".to_string(), Value::Scalar(Scalar::Text("grüße 世界".to_string())));
    rec.push_field("nick".to_string(), Value::Optional(None));
    rec.push_field("tags".to_string(), Value::List(vec![]));
    rec.push_field("empty".to_string(), Value::Scalar(Scalar::Text(String::new())));
    let text = ser::to_string(&rec).unwrap();
    let back = de::from_str(&text, &schema).unwrap();
    assert_eq!(back, rec);
}

#[test]
fn serialized_form_is_exact() {
    let mut rec = Record::new();
    rec.push_field("name".to_string(), Value::Scalar(Scalar::Text("foo".to_string())));
    rec.push_field("depends".to_string(), Value::List(vec!["a".to_string(), "b".to_string()]));
    rec.push_field("url".to_string(), Value::Optional(None));
    let text = ser::to_string(&rec).unwrap();
    assert_eq!(text, "%NAME%\nfoo\n\n%DEPENDS%\na\nb\n\n%URL%\n\n");
}

#[test]
fn scalar_parsers() {
    assert_eq!(parse_bool("true").unwrap(), true);
    assert_eq!(parse_bool("false").unwrap(), false);
    assert_eq!(*parse_bool("yes").unwrap_err().kind(), DeErrorKind::ExpectedBool);
    // only the exact literal tokens are booleans
    assert_eq!(*parse_bool("truex").unwrap_err().kind(), DeErrorKind::ExpectedBool);
    assert_eq!(*parse_bool("false ").unwrap_err().kind(), DeErrorKind::ExpectedBool);
    assert_eq!(parse_unsigned("60").unwrap(), 60);
    assert_eq!(parse_unsigned("+7").unwrap(), 7);
    assert_eq!(parse_unsigned("18446744073709551615").unwrap(), u64::MAX);
    assert_eq!(
        *parse_unsigned("18446744073709551616").unwrap_err().kind(),
        DeErrorKind::ExpectedUnsigned
    );
    assert_eq!(*parse_unsigned("").unwrap_err().kind(), DeErrorKind::ExpectedUnsigned);
    assert_eq!(*parse_unsigned("12a").unwrap_err().kind(), DeErrorKind::ExpectedUnsigned);
    assert_eq!(parse_signed("-60").unwrap(), -60);
    assert_eq!(parse_signed("60").unwrap(), 60);
    assert_eq!(parse_signed("-9223372036854775808").unwrap(), i64::MIN);
    assert_eq!(parse_signed("9223372036854775807").unwrap(), i64::MAX);
    assert_eq!(
        *parse_signed("9223372036854775808").unwrap_err().kind(),
        DeErrorKind::ExpectedSigned
    );
}

#[test]
fn unknown_keys_are_ignored_and_case_folds() {
    let schema = vec![
        SchemaField { name: "name".to_string(), shape: Shape::Scalar(ScalarShape::Text) },
    ];
    let text = "%EXTRA%\nstuff\n\n%NaMe%\nfoo\n\n";
    let rec = de::from_str(text, &schema).unwrap();
    assert_eq!(rec.fields.len(), 1);
    assert_eq!(rec.fields[0].name, "name");
    assert_eq!(rec.fields[0].value, Value::Scalar(Scalar::Text("foo".to_string())));
}

#[test]
fn colliding_schema_is_refused() {
    let schema = vec![
        SchemaField { name: "name".to_string(), shape: Shape::Scalar(ScalarShape::Text) },
        SchemaField { name: "NAME".to_string(), shape: Shape::List },
    ];
    let err = de::from_str("%NAME%\nx\n\n", &schema).unwrap_err();
    assert!(matches!(err.kind(), DeErrorKind::Unsupported(_)));
}

#[test]
fn missing_fields_policy() {
    let schema = vec![
        SchemaField { name: "name".to_string(), shape: Shape::Scalar(ScalarShape::Text) },
        SchemaField { name: "url".to_string(), shape: Shape::Optional(ScalarShape::Text) },
        SchemaField { name: "groups".to_string(), shape: Shape::List },
    ];
    let rec = de::from_str("%NAME%\nfoo\n\n", &schema).unwrap();
    assert_eq!(rec.fields[1].value, Value::Optional(None));
    assert_eq!(rec.fields[2].value, Value::List(vec![]));
    // a missing mandatory scalar is an error
    let err = de::from_str("%URL%\nx\n\n", &schema).unwrap_err();
    assert!(matches!(err.kind(), DeErrorKind::Custom(_)));
    // a malformed key line is an error
    let err = de::from_str("NAME\nfoo\n\n", &schema).unwrap_err();
    assert!(matches!(err.kind(), DeErrorKind::ExpectedKey));
}

#[test]
fn custom_line_ending() {
    let mut d = de::Deserializer::from_str_line_ending("%A%\r\nx\r\n\r\n%B%\r\ny\r\n\r\n", "\r\n", "\r\n\r\n");
    let pairs = d.read_records().unwrap();
    assert_eq!(pairs, vec![
        ("A".to_string(), "x".to_string()),
        ("B".to_string(), "y".to_string()),
    ]);
}
