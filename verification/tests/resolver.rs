use shape_resolver::error::{BindingError, ResolveError};
use shape_resolver::shape::{FieldSpec, FieldType, ShapeDescriptor};
use shape_resolver::resolve::{resolve, resolve_strict};
use shape_resolver::value::{IntermediateValue, NumberValue, ValueKind};

fn person_company() -> Vec<ShapeDescriptor> {
    vec![
        ShapeDescriptor::new(
            "Person".to_string(),
            vec![
                FieldSpec::required("id".to_string(), FieldType::Integer),
                FieldSpec::required("name".to_string(), FieldType::Text),
            ],
        ),
        ShapeDescriptor::new(
            "Company".to_string(),
            vec![
                FieldSpec::required("title".to_string(), FieldType::Text),
                FieldSpec::required("description".to_string(), FieldType::Text),
            ],
        ),
    ]
}

fn text(s: &str) -> IntermediateValue {
    IntermediateValue::Text(s.to_string())
}

fn num(i: i64) -> IntermediateValue {
    IntermediateValue::Number(NumberValue::Integer(i))
}

#[test]
fn mixed_fields_fail_both_descriptors() {
    let value = IntermediateValue::Mapping(vec![
        ("name".to_string(), text("John")),
        ("age".to_string(), num(30)),
    ]);
    let err = resolve(value, &person_company()).unwrap_err();
    match err {
        ResolveError::NoMatch(agg) => {
            assert_eq!(agg.failures.len(), 2);
            assert_eq!(agg.failures[0].shape, "Person");
            assert_eq!(
                agg.failures[0].errors,
                vec![BindingError::MissingField("id".to_string())]
            );
            assert_eq!(agg.failures[1].shape, "Company");
            assert_eq!(
                agg.failures[1].errors,
                vec![
                    BindingError::MissingField("title".to_string()),
                    BindingError::MissingField("description".to_string()),
                ]
            );
        }
        other => panic!("expected NoMatch, got {:?}", other),
    }
}

#[test]
fn company_payload_binds_to_second_variant() {
    let value = IntermediateValue::Mapping(vec![
        ("title".to_string(), text("T")),
        ("description".to_string(), text("D")),
    ]);
    let rv = resolve(value, &person_company()).unwrap();
    assert_eq!(rv.index, 1);
    assert_eq!(rv.shape, "Company");
    assert_eq!(
        rv.fields,
        vec![
            ("title".to_string(), text("T")),
            ("description".to_string(), text("D")),
        ]
    );
}

#[test]
fn empty_mapping_reports_missing_fields_per_descriptor() {
    let value = IntermediateValue::Mapping(vec![]);
    let err = resolve(value, &person_company()).unwrap_err();
    match err {
        ResolveError::NoMatch(agg) => {
            assert_eq!(agg.failures.len(), 2);
            assert_eq!(
                agg.failures[0].errors,
                vec![
                    BindingError::MissingField("id".to_string()),
                    BindingError::MissingField("name".to_string()),
                ]
            );
            assert_eq!(
                agg.failures[1].errors,
                vec![
                    BindingError::MissingField("title".to_string()),
                    BindingError::MissingField("description".to_string()),
                ]
            );
        }
        other => panic!("expected NoMatch, got {:?}", other),
    }
}

#[test]
fn person_payload_binds_to_first_variant() {
    let value = IntermediateValue::Mapping(vec![
        ("id".to_string(), num(7)),
        ("name".to_string(), text("Ada")),
    ]);
    let rv = resolve(value, &person_company()).unwrap();
    assert_eq!(rv.index, 0);
    assert_eq!(rv.shape, "Person");
    assert_eq!(rv.field(&"id".to_string()), Some(&num(7)));
    assert_eq!(rv.field(&"name".to_string()), Some(&text("Ada")));
    assert_eq!(rv.field(&"title".to_string()), None);
}

#[test]
fn identical_inputs_resolve_identically() {
    let mk = || {
        IntermediateValue::Mapping(vec![
            ("title".to_string(), text("T")),
            ("description".to_string(), text("D")),
        ])
    };
    let r1 = resolve(mk(), &person_company());
    let r2 = resolve(mk(), &person_company());
    assert_eq!(r1, r2);
}

#[test]
fn swapping_descriptors_changes_the_winner() {
    let ambiguous = ShapeDescriptor::new(
        "Loose".to_string(),
        vec![FieldSpec::optional("note".to_string(), FieldType::Text)],
    );
    let other = ShapeDescriptor::new(
        "Open".to_string(),
        vec![FieldSpec::optional("hint".to_string(), FieldType::Text)],
    );
    let mk = || IntermediateValue::Mapping(vec![]);
    let forward = resolve(mk(), &vec![ambiguous.clone(), other.clone()]).unwrap();
    assert_eq!(forward.index, 0);
    assert_eq!(forward.shape, "Loose");
    let backward = resolve(mk(), &vec![other, ambiguous]).unwrap();
    assert_eq!(backward.index, 0);
    assert_eq!(backward.shape, "Open");
}

#[test]
fn fractional_number_rejects_integer_field() {
    let value = IntermediateValue::Mapping(vec![
        ("id".to_string(), IntermediateValue::Number(NumberValue::Fractional)),
        ("name".to_string(), text("Ada")),
    ]);
    let err = resolve(value, &person_company()).unwrap_err();
    match err {
        ResolveError::NoMatch(agg) => {
            assert_eq!(
                agg.failures[0].errors,
                vec![BindingError::TypeMismatch {
                    field: "id".to_string(),
                    expected: FieldType::Integer,
                    actual: ValueKind::FractionalNumber,
                }]
            );
        }
        other => panic!("expected NoMatch, got {:?}", other),
    }
}

#[test]
fn number_field_accepts_fractional_values() {
    let descs = vec![ShapeDescriptor::new(
        "Reading".to_string(),
        vec![FieldSpec::required("level".to_string(), FieldType::Number)],
    )];
    let value = IntermediateValue::Mapping(vec![(
        "level".to_string(),
        IntermediateValue::Number(NumberValue::Fractional),
    )]);
    let rv = resolve(value, &descs).unwrap();
    assert_eq!(rv.index, 0);
}

#[test]
fn mismatch_and_missing_reported_in_field_order() {
    let value = IntermediateValue::Mapping(vec![("id".to_string(), text("x"))]);
    let err = resolve(value, &person_company()).unwrap_err();
    match err {
        ResolveError::NoMatch(agg) => {
            assert_eq!(
                agg.failures[0].errors,
                vec![
                    BindingError::TypeMismatch {
                        field: "id".to_string(),
                        expected: FieldType::Integer,
                        actual: ValueKind::Text,
                    },
                    BindingError::MissingField("name".to_string()),
                ]
            );
        }
        other => panic!("expected NoMatch, got {:?}", other),
    }
}

#[test]
fn empty_descriptor_sequence_is_a_configuration_error() {
    let value = IntermediateValue::Mapping(vec![]);
    let err = resolve(value, &vec![]).unwrap_err();
    assert_eq!(err, ResolveError::Configuration);
}

#[test]
fn strict_mode_rejects_undeclared_fields() {
    let value = IntermediateValue::Mapping(vec![
        ("id".to_string(), num(1)),
        ("name".to_string(), text("Ada")),
        ("age".to_string(), num(30)),
    ]);
    let err = resolve_strict(value, &person_company()).unwrap_err();
    match err {
        ResolveError::NoMatch(agg) => {
            assert_eq!(
                agg.failures[0].errors,
                vec![BindingError::UnknownField("age".to_string())]
            );
        }
        other => panic!("expected NoMatch, got {:?}", other),
    }
}

#[test]
fn default_policy_ignores_undeclared_fields() {
    let value = IntermediateValue::Mapping(vec![
        ("id".to_string(), num(1)),
        ("name".to_string(), text("Ada")),
        ("age".to_string(), num(30)),
    ]);
    let rv = resolve(value, &person_company()).unwrap();
    assert_eq!(rv.index, 0);
    assert_eq!(
        rv.fields,
        vec![
            ("id".to_string(), num(1)),
            ("name".to_string(), text("Ada")),
        ]
    );
}

#[test]
fn optional_fields_bind_only_when_present_and_compatible() {
    let descs = vec![ShapeDescriptor::new(
        "Note".to_string(),
        vec![
            FieldSpec::required("body".to_string(), FieldType::Text),
            FieldSpec::optional("stars".to_string(), FieldType::Integer),
        ],
    )];
    let absent = IntermediateValue::Mapping(vec![("body".to_string(), text("hi"))]);
    let rv = resolve(absent, &descs).unwrap();
    assert_eq!(rv.fields, vec![("body".to_string(), text("hi"))]);

    let present = IntermediateValue::Mapping(vec![
        ("body".to_string(), text("hi")),
        ("stars".to_string(), num(5)),
    ]);
    let rv = resolve(present, &descs).unwrap();
    assert_eq!(
        rv.fields,
        vec![("body".to_string(), text("hi")), ("stars".to_string(), num(5))]
    );

    let incompatible = IntermediateValue::Mapping(vec![
        ("body".to_string(), text("hi")),
        ("stars".to_string(), text("five")),
    ]);
    let rv = resolve(incompatible, &descs).unwrap();
    assert_eq!(rv.fields, vec![("body".to_string(), text("hi"))]);
}

#[test]
fn composite_field_types_bind_by_kind() {
    let descs = vec![ShapeDescriptor::new(
        "Batch".to_string(),
        vec![
            FieldSpec::required("items".to_string(), FieldType::Sequence),
            FieldSpec::required("meta".to_string(), FieldType::Mapping),
            FieldSpec::required("live".to_string(), FieldType::Flag),
        ],
    )];
    let value = IntermediateValue::Mapping(vec![
        (
            "items".to_string(),
            IntermediateValue::Sequence(vec![num(1), num(2)]),
        ),
        (
            "meta".to_string(),
            IntermediateValue::Mapping(vec![("k".to_string(), IntermediateValue::Null)]),
        ),
        ("live".to_string(), IntermediateValue::Boolean(true)),
    ]);
    let rv = resolve(value, &descs).unwrap();
    assert_eq!(rv.index, 0);
    assert_eq!(rv.fields.len(), 3);
}

#[test]
fn payload_keeps_the_value_entry_order() {
    let value = IntermediateValue::Mapping(vec![
        ("name".to_string(), text("Ada")),
        ("id".to_string(), num(7)),
    ]);
    let rv = resolve(value, &person_company()).unwrap();
    assert_eq!(
        rv.fields,
        vec![
            ("name".to_string(), text("Ada")),
            ("id".to_string(), num(7)),
        ]
    );
}
