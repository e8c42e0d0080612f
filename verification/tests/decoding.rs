use shape_resolver::codec::{decode, encode_record};
use shape_resolver::error::{BindingError, DecodeError, ResolveError};
use shape_resolver::shape::{FieldSpec, FieldType, ShapeDescriptor};
use shape_resolver::value::{IntermediateValue, NumberValue};

fn person_company() -> Vec<ShapeDescriptor> {
    vec![
        ShapeDescriptor::new(
            "Person".to_string(),
            vec![
                FieldSpec::required("id".to_string(), FieldType::Integer),
                FieldSpec::required("name".to_string(), FieldType::Text),
            ],
        ),
        ShapeDescriptor::new(
            "Company".to_string(),
            vec![
                FieldSpec::required("title".to_string(), FieldType::Text),
                FieldSpec::required("description".to_string(), FieldType::Text),
            ],
        ),
    ]
}

fn text(s: &str) -> IntermediateValue {
    IntermediateValue::Text(s.to_string())
}

fn num(i: i64) -> IntermediateValue {
    IntermediateValue::Number(NumberValue::Integer(i))
}

#[test]
fn decode_binds_company_from_bytes() {
    let bytes = br#"{"title":"T","description":"D"}"#;
    let rv = decode(bytes, &person_company()).unwrap();
    assert_eq!(rv.index, 1);
    assert_eq!(rv.shape, "Company");
    assert_eq!(rv.field(&"title".to_string()), Some(&text("T")));
    assert_eq!(rv.field(&"description".to_string()), Some(&text("D")));
}

#[test]
fn decode_rejects_a_bare_array_with_not_a_record() {
    let bytes = b"[1,2,3]";
    let err = decode(bytes, &person_company()).unwrap_err();
    match err {
        DecodeError::Resolve(ResolveError::NoMatch(agg)) => {
            assert_eq!(agg.failures.len(), 2);
            assert_eq!(agg.failures[0].errors, vec![BindingError::NotARecord]);
            assert_eq!(agg.failures[1].errors, vec![BindingError::NotARecord]);
        }
        other => panic!("expected NoMatch, got {:?}", other),
    }
}

#[test]
fn decode_reports_malformed_bytes_as_a_parse_error() {
    let err = decode(b"{not json", &person_company()).unwrap_err();
    assert!(matches!(err, DecodeError::Parse(_)));
}

#[test]
fn decode_reads_integers_and_fractions_apart() {
    let ok = decode(br#"{"id":42,"name":"Ada"}"#, &person_company()).unwrap();
    assert_eq!(ok.index, 0);
    assert_eq!(ok.field(&"id".to_string()), Some(&num(42)));

    let err = decode(br#"{"id":4.5,"name":"Ada"}"#, &person_company()).unwrap_err();
    match err {
        DecodeError::Resolve(ResolveError::NoMatch(agg)) => {
            assert!(matches!(
                agg.failures[0].errors[0],
                BindingError::TypeMismatch { .. }
            ));
        }
        other => panic!("expected NoMatch, got {:?}", other),
    }
}

#[test]
fn decode_reads_booleans_nulls_and_nesting() {
    let descs = vec![ShapeDescriptor::new(
        "Batch".to_string(),
        vec![
            FieldSpec::required("items".to_string(), FieldType::Sequence),
            FieldSpec::required("live".to_string(), FieldType::Flag),
        ],
    )];
    let rv = decode(br#"{"items":[1,null,{"a":true}],"live":false}"#, &descs).unwrap();
    assert_eq!(rv.index, 0);
    assert_eq!(
        rv.field(&"items".to_string()),
        Some(&IntermediateValue::Sequence(vec![
            num(1),
            IntermediateValue::Null,
            IntermediateValue::Mapping(vec![(
                "a".to_string(),
                IntermediateValue::Boolean(true)
            )]),
        ]))
    );
    assert_eq!(
        rv.field(&"live".to_string()),
        Some(&IntermediateValue::Boolean(false))
    );
}

#[test]
fn reencoded_payload_resolves_to_the_same_variant() {
    let descs = person_company();
    let rv = decode(br#"{"title":"T","description":"D","extra":9}"#, &descs).unwrap();
    assert_eq!(rv.index, 1);
    let bytes = encode_record(&rv.fields).unwrap();
    let again = decode(&bytes, &descs).unwrap();
    assert_eq!(again.index, rv.index);
    assert_eq!(again.shape, rv.shape);
    assert_eq!(again.fields.len(), rv.fields.len());
}

#[test]
fn reencoded_person_resolves_to_person_again() {
    let descs = person_company();
    let rv = decode(br#"{"name":"Ada","id":7}"#, &descs).unwrap();
    assert_eq!(rv.index, 0);
    let bytes = encode_record(&rv.fields).unwrap();
    let again = decode(&bytes, &descs).unwrap();
    assert_eq!(again.index, 0);
    assert_eq!(again.shape, "Person");
    assert_eq!(again.field(&"id".to_string()), Some(&num(7)));
    assert_eq!(again.field(&"name".to_string()), Some(&text("Ada")));
}

#[test]
fn encode_refuses_composite_or_duplicate_payloads() {
    let composite = vec![(
        "items".to_string(),
        IntermediateValue::Sequence(vec![num(1)]),
    )];
    assert_eq!(encode_record(&composite), None);

    let duplicate = vec![
        ("k".to_string(), num(1)),
        ("k".to_string(), num(2)),
    ];
    assert_eq!(encode_record(&duplicate), None);

    let fine = vec![
        ("k".to_string(), num(1)),
        ("s".to_string(), text("x")),
        ("b".to_string(), IntermediateValue::Boolean(true)),
    ];
    assert!(encode_record(&fine).is_some());
}

#[test]
fn decode_with_no_descriptors_is_a_configuration_error() {
    let err = decode(br#"{}"#, &vec![]).unwrap_err();
    assert!(matches!(
        err,
        DecodeError::Resolve(ResolveError::Configuration)
    ));
}

#[test]
fn huge_numbers_are_not_integers() {
    let descs = vec![ShapeDescriptor::new(
        "Count".to_string(),
        vec![FieldSpec::required("n".to_string(), FieldType::Integer)],
    )];
    let err = decode(br#"{"n":99999999999999999999}"#, &descs).unwrap_err();
    assert!(matches!(err, DecodeError::Resolve(_)));

    let loose = vec![ShapeDescriptor::new(
        "Count".to_string(),
        vec![FieldSpec::required("n".to_string(), FieldType::Number)],
    )];
    let rv = decode(br#"{"n":99999999999999999999}"#, &loose).unwrap();
    assert_eq!(
        rv.field(&"n".to_string()),
        Some(&IntermediateValue::Number(NumberValue::Fractional))
    );
}
