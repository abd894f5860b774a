use protodef_schema::ast::{
    BitFieldEntry, ContainerField, Count, ErrorKind, ParseError, PathSegment, Type,
};
use protodef_schema::json::JsonValue;
use protodef_schema::parser::{parse_call, parse_count, parse_type};
use protodef_schema::tables::{parse_protocol, parse_types_table};

fn text(s: &str) -> JsonValue {
    JsonValue::Text(s.to_string())
}

fn obj(entries: Vec<(&str, JsonValue)>) -> JsonValue {
    JsonValue::Object(entries.into_iter().map(|(k, v)| (k.to_string(), v)).collect())
}

fn arr(items: Vec<JsonValue>) -> JsonValue {
    JsonValue::Array(items)
}

fn call(name: &str, arg: JsonValue) -> JsonValue {
    arr(vec![text(name), arg])
}

fn reference(name: &str) -> Type {
    Type::TypeReference(name.to_string())
}

#[test]
fn string_parses_to_type_reference() {
    let r = parse_type(&text("varint"));
    assert_eq!(r, Ok(reference("varint")));
}

#[test]
fn unknown_function_fails_at_the_array() {
    let r = parse_type(&call("bogusFn", obj(vec![])));
    let e = r.unwrap_err();
    assert_eq!(e.kind, ErrorKind::UnknownFunction("bogusFn".to_string()));
    assert_eq!(e.path, vec![]);
}

#[test]
fn array_without_count_is_missing_argument() {
    let r = parse_type(&call("array", obj(vec![("type", text("string"))])));
    let e = r.unwrap_err();
    assert_eq!(e.kind, ErrorKind::MissingOrMalformedArgument("array".to_string()));
    assert_eq!(e.path, vec![PathSegment::Index(1)]);
}

#[test]
fn container_keeps_field_order() {
    let doc = call(
        "container",
        arr(vec![
            obj(vec![("name", text("a")), ("type", text("i32"))]),
            obj(vec![("anon", JsonValue::Bool(true)), ("type", text("void"))]),
        ]),
    );
    let r = parse_type(&doc).unwrap();
    assert_eq!(
        r,
        Type::Container {
            fields: vec![
                ContainerField::Named { name: "a".to_string(), field_type: reference("i32") },
                ContainerField::Anon { field_type: reference("void") },
            ],
        }
    );
}

#[test]
fn count_number_is_literal() {
    let doc = call("pstring", obj(vec![("count", JsonValue::Uint(5))]));
    let r = parse_type(&doc).unwrap();
    assert_eq!(r, Type::PString { count: Count::Literal(5), encoding: None });
}

#[test]
fn count_string_is_nested_type() {
    let doc = call("pstring", obj(vec![("count", text("varint"))]));
    let r = parse_type(&doc).unwrap();
    assert_eq!(
        r,
        Type::PString {
            count: Count::Dynamic(Box::new(reference("varint"))),
            encoding: None,
        }
    );
}

#[test]
fn count_alias_spellings_are_synonyms() {
    let via_count = call("buffer", obj(vec![("count", text("varint"))]));
    let via_count_type = call("buffer", obj(vec![("countType", text("varint"))]));
    assert_eq!(parse_type(&via_count).unwrap(), parse_type(&via_count_type).unwrap());
}

#[test]
fn deep_nesting_parses_to_matching_depth() {
    let mut doc = call(
        "container",
        arr(vec![obj(vec![(
            "name",
            text("s"),
        ), (
            "type",
            call(
                "switch",
                obj(vec![
                    ("compareTo", text("kind")),
                    ("fields", obj(vec![("0", text("void"))])),
                ]),
            ),
        )])]),
    );
    for _ in 0..50 {
        doc = call("array", obj(vec![("count", JsonValue::Uint(1)), ("type", doc)]));
    }
    let mut t = parse_type(&doc).unwrap();
    let mut depth = 0;
    while let Type::Array { element, .. } = t {
        t = *element;
        depth += 1;
    }
    assert_eq!(depth, 50);
    match t {
        Type::Container { fields } => {
            assert_eq!(fields.len(), 1);
            match &fields[0] {
                ContainerField::Named { name, field_type } => {
                    assert_eq!(name, "s");
                    assert!(matches!(field_type, Type::Switch { .. }));
                }
                other => panic!("expected a named field, got {other:?}"),
            }
        }
        other => panic!("expected a container, got {other:?}"),
    }
}

#[test]
fn parsing_twice_yields_equal_trees() {
    let doc = call(
        "switch",
        obj(vec![
            ("compareTo", text("kind")),
            (
                "fields",
                obj(vec![("0", text("void")), ("1", call("option", text("i8")))]),
            ),
            ("default", text("varint")),
        ]),
    );
    assert_eq!(parse_type(&doc), parse_type(&doc));
    let table = obj(vec![("a", text("i8")), ("b", doc)]);
    assert_eq!(parse_types_table(&table), parse_types_table(&table));
}

#[test]
fn shape_mismatch_in_type_position() {
    for bad in [
        JsonValue::Null,
        JsonValue::Bool(true),
        JsonValue::Uint(3),
        JsonValue::OtherNumber,
        arr(vec![text("array")]),
        arr(vec![text("array"), obj(vec![]), obj(vec![])]),
        obj(vec![]),
    ] {
        let e = parse_type(&bad).unwrap_err();
        assert_eq!(e.kind, ErrorKind::ShapeMismatch, "value: {bad:?}");
        assert_eq!(e.path, vec![]);
    }
}

#[test]
fn non_string_function_name_is_rejected() {
    let e = parse_type(&arr(vec![JsonValue::Uint(1), obj(vec![])])).unwrap_err();
    assert_eq!(e.kind, ErrorKind::MissingFunctionName);
    assert_eq!(e.path, vec![]);
}

#[test]
fn nested_error_paths_reach_the_offending_node() {
    let doc = call(
        "array",
        obj(vec![
            ("count", JsonValue::Uint(1)),
            ("type", call("container", arr(vec![obj(vec![("name", text("x")), (
                "type",
                call("nope", obj(vec![])),
            )])]))),
        ]),
    );
    let e = parse_type(&doc).unwrap_err();
    assert_eq!(e.kind, ErrorKind::UnknownFunction("nope".to_string()));
    assert_eq!(
        e.path,
        vec![
            PathSegment::Index(1),
            PathSegment::Key("type".to_string()),
            PathSegment::Index(1),
            PathSegment::Index(0),
            PathSegment::Key("type".to_string()),
        ]
    );
}

#[test]
fn mapper_parses_and_last_duplicate_key_wins() {
    let doc = call(
        "mapper",
        obj(vec![
            ("type", text("varint")),
            (
                "mappings",
                JsonValue::Object(vec![
                    ("1".to_string(), text("a")),
                    ("2".to_string(), text("b")),
                    ("1".to_string(), text("c")),
                ]),
            ),
        ]),
    );
    let r = parse_type(&doc).unwrap();
    assert_eq!(
        r,
        Type::Mapper {
            key_type: "varint".to_string(),
            mapping: vec![
                ("1".to_string(), "c".to_string()),
                ("2".to_string(), "b".to_string()),
            ],
        }
    );
}

#[test]
fn mapper_non_string_value_is_malformed_subfield() {
    let doc = call(
        "mapper",
        obj(vec![
            ("type", text("varint")),
            ("mappings", obj(vec![("1", JsonValue::Uint(2))])),
        ]),
    );
    let e = parse_type(&doc).unwrap_err();
    assert_eq!(e.kind, ErrorKind::MalformedSubField);
    assert_eq!(
        e.path,
        vec![
            PathSegment::Index(1),
            PathSegment::Key("mappings".to_string()),
            PathSegment::Key("1".to_string()),
        ]
    );
}

#[test]
fn switch_parses_cases_and_default() {
    let doc = call(
        "switch",
        obj(vec![
            ("compareTo", text("kind")),
            ("fields", obj(vec![("0", text("void")), ("1", text("i8"))])),
            ("default", text("varint")),
        ]),
    );
    let r = parse_type(&doc).unwrap();
    assert_eq!(
        r,
        Type::Switch {
            compare_to: Box::new(reference("kind")),
            cases: vec![
                ("0".to_string(), reference("void")),
                ("1".to_string(), reference("i8")),
            ],
            default_case: Some(Box::new(reference("varint"))),
        }
    );
}

#[test]
fn bitfield_parses_entries_in_order() {
    let doc = call(
        "bitfield",
        arr(vec![
            obj(vec![
                ("name", text("x")),
                ("size", JsonValue::Uint(26)),
                ("signed", JsonValue::Bool(true)),
            ]),
            obj(vec![
                ("name", text("y")),
                ("size", JsonValue::Uint(6)),
                ("signed", JsonValue::Bool(false)),
            ]),
        ]),
    );
    let r = parse_type(&doc).unwrap();
    assert_eq!(
        r,
        Type::BitField {
            fields: vec![
                BitFieldEntry { name: "x".to_string(), size: 26, signed: true },
                BitFieldEntry { name: "y".to_string(), size: 6, signed: false },
            ],
        }
    );
}

#[test]
fn bitfield_bad_entry_is_malformed_subfield() {
    let doc = call(
        "bitfield",
        arr(vec![obj(vec![("name", text("x")), ("size", text("wide"))])]),
    );
    let e = parse_type(&doc).unwrap_err();
    assert_eq!(e.kind, ErrorKind::MalformedSubField);
    assert_eq!(e.path, vec![PathSegment::Index(1), PathSegment::Index(0)]);
}

#[test]
fn container_field_without_name_or_anon_fails() {
    let doc = call("container", arr(vec![obj(vec![("type", text("i8"))])]));
    let e = parse_type(&doc).unwrap_err();
    assert_eq!(e.kind, ErrorKind::MalformedSubField);
    assert_eq!(e.path, vec![PathSegment::Index(1), PathSegment::Index(0)]);
}

#[test]
fn option_wraps_any_type_expression() {
    let r = parse_type(&call("option", text("i8"))).unwrap();
    assert_eq!(r, Type::Optional(Box::new(reference("i8"))));
    let nested = parse_type(&call(
        "option",
        call("buffer", obj(vec![("countType", text("varint"))])),
    ))
    .unwrap();
    assert_eq!(
        nested,
        Type::Optional(Box::new(Type::Buffer {
            count: Count::Dynamic(Box::new(reference("varint"))),
        }))
    );
}

#[test]
fn entity_metadata_and_particle_functions_parse() {
    let lp = parse_type(&call(
        "entityMetadataLoop",
        obj(vec![("endVal", JsonValue::Uint(255)), ("type", text("entry"))]),
    ))
    .unwrap();
    assert_eq!(
        lp,
        Type::EntityMetadataLoop { end_val: 255, element: Box::new(reference("entry")) }
    );
    let item = parse_type(&call(
        "entityMetadataItem",
        obj(vec![("compareTo", text("metadata_kind"))]),
    ))
    .unwrap();
    assert_eq!(item, Type::EntityMetadataItem { compare_to: "metadata_kind".to_string() });
    let particle = parse_type(&call(
        "particleData",
        obj(vec![("compareTo", text("particle_id"))]),
    ))
    .unwrap();
    assert_eq!(particle, Type::ParticleData { compare_to: "particle_id".to_string() });
    let top = parse_type(&call(
        "topBitSetTerminatedArray",
        obj(vec![("type", text("slot"))]),
    ))
    .unwrap();
    assert_eq!(top, Type::TopBitSetTerminatedArray { element: Box::new(reference("slot")) });
}

#[test]
fn pstring_encoding_must_be_a_string() {
    let doc = call(
        "pstring",
        obj(vec![("count", JsonValue::Uint(1)), ("encoding", JsonValue::Uint(8))]),
    );
    let e = parse_type(&doc).unwrap_err();
    assert_eq!(e.kind, ErrorKind::MissingOrMalformedArgument("pstring".to_string()));
    assert_eq!(
        e.path,
        vec![PathSegment::Index(1), PathSegment::Key("encoding".to_string())]
    );
}

#[test]
fn count_too_large_for_u32_fails() {
    let doc = call("buffer", obj(vec![("count", JsonValue::Uint(5_000_000_000))]));
    let e = parse_type(&doc).unwrap_err();
    assert_eq!(e.kind, ErrorKind::ShapeMismatch);
    assert_eq!(
        e.path,
        vec![PathSegment::Index(1), PathSegment::Key("count".to_string())]
    );
}

#[test]
fn parse_call_reports_the_given_name() {
    let e = parse_call(&"frobnicate".to_string(), &obj(vec![])).unwrap_err();
    assert_eq!(e.kind, ErrorKind::UnknownFunction("frobnicate".to_string()));
}

#[test]
fn parse_count_entry_point() {
    assert_eq!(parse_count(&JsonValue::Uint(7)), Ok(Count::Literal(7)));
    assert_eq!(
        parse_count(&text("u16")),
        Ok(Count::Dynamic(Box::new(reference("u16"))))
    );
    let e = parse_count(&JsonValue::Bool(false)).unwrap_err();
    assert_eq!(e.kind, ErrorKind::ShapeMismatch);
}

#[test]
fn types_table_keeps_order_and_last_duplicate_wins() {
    let doc = JsonValue::Object(vec![
        ("a".to_string(), text("i8")),
        ("b".to_string(), text("i16")),
        ("a".to_string(), text("i32")),
    ]);
    let table = parse_types_table(&doc).unwrap();
    assert_eq!(
        table,
        vec![
            ("a".to_string(), reference("i32")),
            ("b".to_string(), reference("i16")),
        ]
    );
}

#[test]
fn types_table_error_carries_the_type_name() {
    let doc = obj(vec![("x", text("i8")), ("bad", call("array", obj(vec![])))]);
    let e = parse_types_table(&doc).unwrap_err();
    assert_eq!(e.kind, ErrorKind::MissingOrMalformedArgument("array".to_string()));
    assert_eq!(
        e.path,
        vec![PathSegment::Key("bad".to_string()), PathSegment::Index(1)]
    );
}

#[test]
fn protocol_document_reads_its_types_member() {
    let doc = obj(vec![
        ("ignored", JsonValue::Uint(1)),
        ("types", obj(vec![("a", text("i8"))])),
    ]);
    let table = parse_protocol(&doc).unwrap();
    assert_eq!(table, vec![("a".to_string(), reference("i8"))]);
}

#[test]
fn protocol_document_without_types_is_a_shape_mismatch() {
    let e = parse_protocol(&obj(vec![("other", text("x"))])).unwrap_err();
    assert_eq!(e.kind, ErrorKind::ShapeMismatch);
    assert_eq!(e.path, vec![]);
    let e2 = parse_protocol(&text("nope")).unwrap_err();
    assert_eq!(e2.kind, ErrorKind::ShapeMismatch);
}

#[test]
fn anon_field_must_say_true() {
    let doc = call(
        "container",
        arr(vec![obj(vec![("anon", JsonValue::Bool(false)), ("type", text("void"))])]),
    );
    let e = parse_type(&doc).unwrap_err();
    assert_eq!(e.kind, ErrorKind::MalformedSubField);
    assert_eq!(e.path, vec![PathSegment::Index(1), PathSegment::Index(0)]);
}

#[test]
fn error_kind_and_error_equality_are_structural() {
    let a = ParseError {
        kind: ErrorKind::UnknownFunction("f".to_string()),
        path: vec![PathSegment::Index(1)],
    };
    let b = ParseError {
        kind: ErrorKind::UnknownFunction("f".to_string()),
        path: vec![PathSegment::Index(1)],
    };
    assert_eq!(a, b);
}

#[test]
fn switch_accepts_both_case_spellings_and_compare_to_spellings() {
    let via_fields = call(
        "switch",
        obj(vec![
            ("compareTo", text("kind")),
            ("fields", obj(vec![("0", text("void"))])),
        ]),
    );
    let via_cases = call(
        "switch",
        obj(vec![
            ("compare_to", text("kind")),
            ("cases", obj(vec![("0", text("void"))])),
        ]),
    );
    assert_eq!(parse_type(&via_fields).unwrap(), parse_type(&via_cases).unwrap());
}

#[test]
fn entity_metadata_loop_accepts_end_val_spelling() {
    let a = call(
        "entityMetadataLoop",
        obj(vec![("endVal", JsonValue::Uint(9)), ("type", text("entry"))]),
    );
    let b = call(
        "entityMetadataLoop",
        obj(vec![("end_val", JsonValue::Uint(9)), ("type", text("entry"))]),
    );
    assert_eq!(parse_type(&a).unwrap(), parse_type(&b).unwrap());
}

#[test]
fn first_spelling_wins_when_both_are_present() {
    let doc = call(
        "buffer",
        obj(vec![("countType", text("u8")), ("count", JsonValue::Uint(4))]),
    );
    let r = parse_type(&doc).unwrap();
    assert_eq!(r, Type::Buffer { count: Count::Literal(4) });
}

#[test]
fn duplicate_object_key_resolves_to_last_occurrence() {
    let doc = call(
        "buffer",
        JsonValue::Object(vec![
            ("count".to_string(), JsonValue::Uint(1)),
            ("count".to_string(), JsonValue::Uint(2)),
        ]),
    );
    let r = parse_type(&doc).unwrap();
    assert_eq!(r, Type::Buffer { count: Count::Literal(2) });
}
