use parallax::error::AppError;
use parallax::modes::ModeRegistry;
use parallax::schema::flat::assert_flat;
use parallax::schema::json::Json;
use parallax::schema::sanitize::sanitize;

fn s(x: &str) -> Json {
    Json::Str(x.to_string())
}

fn n(x: &str) -> Json {
    Json::Number(x.to_string())
}

fn arr(items: Vec<Json>) -> Json {
    Json::Array(items)
}

fn obj(entries: Vec<(&str, Json)>) -> Json {
    Json::Object(entries.into_iter().map(|(k, v)| (k.to_string(), v)).collect())
}

fn at<'a>(j: &'a Json, path: &[&str]) -> &'a Json {
    let mut cur = j;
    for key in path {
        cur = cur.get(key).unwrap_or_else(|| panic!("no {key}"));
    }
    cur
}

fn nth(j: &Json, i: usize) -> &Json {
    &j.as_array().unwrap()[i]
}

fn strs(j: &Json) -> Vec<String> {
    j.as_array()
        .unwrap()
        .iter()
        .map(|v| v.as_str().unwrap().to_string())
        .collect()
}

const UNSUPPORTED: [&str; 11] = [
    "minimum",
    "maximum",
    "exclusiveMinimum",
    "exclusiveMaximum",
    "multipleOf",
    "minLength",
    "maxLength",
    "pattern",
    "maxItems",
    "minProperties",
    "maxProperties",
];

fn assert_grammar_legal(node: &Json) {
    let Some(map) = node.as_object() else { return };
    for key in UNSUPPORTED {
        assert!(map.iter().all(|(k, _)| k != key), "unsupported keyword {key} remains");
    }
    if node.get("type").and_then(|t| t.as_str()) == Some("object") {
        assert!(
            matches!(node.get("additionalProperties"), Some(Json::Bool(false))),
            "object lacks additionalProperties:false"
        );
        let props: Vec<String> = node
            .get("properties")
            .and_then(|p| p.as_object())
            .map(|p| p.iter().map(|(k, _)| k.clone()).collect())
            .unwrap_or_default();
        let required: Vec<String> = node
            .get("required")
            .and_then(|r| r.as_array())
            .map(|r| r.iter().filter_map(|v| v.as_str()).map(String::from).collect())
            .unwrap_or_default();
        for p in props {
            assert!(required.contains(&p), "property {p} not in required");
        }
    }
    if let Some(children) = node.get("properties").and_then(|p| p.as_object()) {
        for (_, child) in children {
            assert_grammar_legal(child);
        }
    }
    for key in ["items", "anyOf", "allOf", "$defs"] {
        match node.get(key) {
            Some(Json::Array(children)) => children.iter().for_each(assert_grammar_legal),
            Some(child @ Json::Object(_)) => assert_grammar_legal(child),
            _ => {}
        }
    }
}

fn flat_schema() -> Json {
    obj(vec![
        ("type", s("object")),
        (
            "properties",
            obj(vec![
                ("verdict", obj(vec![("type", s("string")), ("enum", arr(vec![s("supported"), s("refuted")]))])),
                ("findings", obj(vec![("type", s("array")), ("items", obj(vec![("type", s("string"))]))])),
            ]),
        ),
        ("required", arr(vec![s("verdict"), s("findings")])),
    ])
}

#[test]
fn registers_a_flat_mode_and_derives_the_sanitized_schema() {
    let mut registry = ModeRegistry::new();
    registry
        .register("verify", "desc", "template {claim}", flat_schema(), 3)
        .unwrap();

    let mode = registry.get("verify").unwrap();
    assert_eq!(mode.ensemble_k, 3);
    assert!(matches!(mode.sanitized_schema.get("additionalProperties"), Some(Json::Bool(false))));
    // Sanitized derivation happened once, at registration.
    assert!(mode.output_schema.get("additionalProperties").is_none());
}

#[test]
fn rejects_a_nested_object_schema_at_boot() {
    let nested = obj(vec![
        ("type", s("object")),
        (
            "properties",
            obj(vec![(
                "inner",
                obj(vec![("type", s("object")), ("properties", obj(vec![("x", obj(vec![("type", s("string"))]))]))]),
            )]),
        ),
    ]);
    let err = ModeRegistry::new()
        .register("bad", "d", "t", nested, 1)
        .unwrap_err();
    assert!(err.message().contains("not flat+closed"), "{}", err.message());
    assert!(err.message().contains("'inner'"));
}

#[test]
fn rejects_arrays_of_objects_refs_and_unions() {
    let array_of_objects = obj(vec![
        ("type", s("object")),
        (
            "properties",
            obj(vec![("list", obj(vec![("type", s("array")), ("items", obj(vec![("type", s("object"))]))]))]),
        ),
    ]);
    assert!(ModeRegistry::new()
        .register("a", "d", "t", array_of_objects, 1)
        .is_err());

    let with_ref = obj(vec![
        ("type", s("object")),
        ("$defs", obj(vec![("X", obj(vec![("type", s("string"))]))])),
        ("properties", obj(vec![("x", obj(vec![("type", s("string"))]))])),
    ]);
    assert!(ModeRegistry::new()
        .register("b", "d", "t", with_ref, 1)
        .is_err());

    let non_object_root = obj(vec![("type", s("array")), ("items", obj(vec![("type", s("string"))]))]);
    assert!(ModeRegistry::new()
        .register("c", "d", "t", non_object_root, 1)
        .is_err());
}

#[test]
fn unknown_mode_is_none() {
    assert!(ModeRegistry::new().get("nope").is_none());
}

#[test]
fn nullable_scalar_unions_are_flat_but_object_unions_are_not() {
    let nullable_scalar = obj(vec![
        ("type", s("object")),
        ("properties", obj(vec![("x", obj(vec![("type", arr(vec![s("string"), s("null")]))]))])),
    ]);
    assert!(ModeRegistry::new()
        .register("ok", "d", "t", nullable_scalar, 1)
        .is_ok());

    let object_union = obj(vec![
        ("type", s("object")),
        ("properties", obj(vec![("x", obj(vec![("type", arr(vec![s("object"), s("null")]))]))])),
    ]);
    assert!(ModeRegistry::new()
        .register("bad", "d", "t", object_union, 1)
        .is_err());

    // Heterogeneous scalar unions are not yet validated against the
    // grammar — the flat check admits exactly nullable scalars.
    let heterogeneous = obj(vec![
        ("type", s("object")),
        ("properties", obj(vec![("x", obj(vec![("type", arr(vec![s("string"), s("integer")]))]))])),
    ]);
    assert!(ModeRegistry::new()
        .register("het", "d", "t", heterogeneous, 1)
        .is_err());
}

#[test]
fn duplicate_mode_id_fails_boot_instead_of_shadowing() {
    let mut registry = ModeRegistry::new();
    registry
        .register("verify", "d", "t", flat_schema(), 3)
        .unwrap();
    let err = registry
        .register("verify", "other", "t2", flat_schema(), 1)
        .unwrap_err();
    assert!(err.message().contains("duplicate mode id"), "{}", err.message());
}

#[test]
fn strips_metadata_and_constraints_and_closes_objects() {
    let schema = obj(vec![
        ("$schema", s("https://json-schema.org/draft/2020-12/schema")),
        ("title", s("Verdict")),
        ("type", s("object")),
        (
            "properties",
            obj(vec![
                ("verdict", obj(vec![("type", s("string")), ("enum", arr(vec![s("supported"), s("refuted")]))])),
                (
                    "findings",
                    obj(vec![
                        ("type", s("array")),
                        ("items", obj(vec![("type", s("string")), ("minLength", n("1"))])),
                        ("maxItems", n("50")),
                    ]),
                ),
                ("confidence", obj(vec![("type", s("number")), ("minimum", n("0")), ("maximum", n("1"))])),
            ]),
        ),
        ("required", arr(vec![s("verdict")])),
    ]);

    let out = sanitize(&schema);
    assert_grammar_legal(&out);

    // Stripped everywhere, including nested levels.
    assert!(out.get("$schema").is_none());
    assert!(out.get("title").is_none());
    assert!(at(&out, &["properties", "confidence"]).get("minimum").is_none());
    assert!(at(&out, &["properties", "findings", "items"]).get("minLength").is_none());
    assert!(at(&out, &["properties", "findings"]).get("maxItems").is_none());

    // Closed and fully required.
    assert!(matches!(out.get("additionalProperties"), Some(Json::Bool(false))));
    let required = strs(at(&out, &["required"]));
    assert!(required.contains(&"verdict".to_string()));
    assert!(required.contains(&"findings".to_string()));
    assert!(required.contains(&"confidence".to_string()));

    // Supported keywords survive.
    assert_eq!(
        strs(at(&out, &["properties", "verdict", "enum"])),
        vec!["supported".to_string(), "refuted".to_string()]
    );
}

#[test]
fn min_items_survives_only_as_zero_or_one() {
    let schema = obj(vec![
        ("type", s("object")),
        (
            "properties",
            obj(vec![
                ("a", obj(vec![("type", s("array")), ("items", obj(vec![("type", s("string"))])), ("minItems", n("1"))])),
                ("b", obj(vec![("type", s("array")), ("items", obj(vec![("type", s("string"))])), ("minItems", n("4"))])),
            ]),
        ),
    ]);
    let out = sanitize(&schema);
    assert_eq!(at(&out, &["properties", "a", "minItems"]).as_u64(), Some(1));
    assert!(at(&out, &["properties", "b"]).get("minItems").is_none());
}

#[test]
fn nested_objects_in_defs_and_unions_are_sanitized() {
    let schema = obj(vec![
        ("type", s("object")),
        (
            "properties",
            obj(vec![(
                "x",
                obj(vec![(
                    "anyOf",
                    arr(vec![
                        obj(vec![
                            ("type", s("object")),
                            ("properties", obj(vec![("n", obj(vec![("type", s("integer")), ("minimum", n("0"))]))])),
                        ]),
                        obj(vec![("type", s("null"))]),
                    ]),
                )]),
            )]),
        ),
        (
            "$defs",
            obj(vec![(
                "Inner",
                obj(vec![
                    ("type", s("object")),
                    ("properties", obj(vec![("s", obj(vec![("type", s("string")), ("maxLength", n("9"))]))])),
                ]),
            )]),
        ),
    ]);
    let out = sanitize(&schema);
    assert_grammar_legal(&out);
    let branch = nth(at(&out, &["properties", "x", "anyOf"]), 0);
    assert!(at(branch, &["properties", "n"]).get("minimum").is_none());
    assert!(matches!(at(&out, &["$defs", "Inner"]).get("additionalProperties"), Some(Json::Bool(false))));
    assert!(at(&out, &["$defs", "Inner", "properties", "s"]).get("maxLength").is_none());
}

#[test]
fn collapses_doc_commented_enums_to_plain_enum() {
    // A doc-commented enum arrives as oneOf-of-consts; oneOf is not in the
    // grammar subset.
    let schema = obj(vec![
        ("type", s("object")),
        (
            "properties",
            obj(vec![(
                "verdict",
                obj(vec![
                    ("description", s("supported | refuted.")),
                    (
                        "oneOf",
                        arr(vec![
                            obj(vec![("description", s("ok")), ("type", s("string")), ("const", s("supported"))]),
                            obj(vec![("description", s("bad")), ("type", s("string")), ("const", s("refuted"))]),
                        ]),
                    ),
                ]),
            )]),
        ),
    ]);
    let out = sanitize(&schema);
    assert!(at(&out, &["properties", "verdict"]).get("oneOf").is_none());
    assert_eq!(at(&out, &["properties", "verdict", "type"]).as_str(), Some("string"));
    assert_eq!(
        strs(at(&out, &["properties", "verdict", "enum"])),
        vec!["supported".to_string(), "refuted".to_string()]
    );

    // A oneOf that is NOT all scalar consts is left alone (recursed only).
    let mixed = obj(vec![
        ("type", s("object")),
        (
            "properties",
            obj(vec![(
                "x",
                obj(vec![(
                    "oneOf",
                    arr(vec![obj(vec![("type", s("string")), ("const", s("a"))]), obj(vec![("type", s("null"))])]),
                )]),
            )]),
        ),
    ]);
    let out = sanitize(&mixed);
    assert!(at(&out, &["properties", "x"]).get("oneOf").is_some());
}

#[test]
fn does_not_mutate_the_input() {
    let schema = obj(vec![
        ("type", s("object")),
        ("properties", obj(vec![("n", obj(vec![("type", s("number")), ("minimum", n("0"))]))])),
    ]);
    let _ = sanitize(&schema);
    assert_eq!(at(&schema, &["properties", "n", "minimum"]).as_u64(), Some(0));
}

#[test]
fn flat_check_names_each_refusal_exactly() {
    let cases = vec![
        (s("x"), "root is not an object schema"),
        (obj(vec![("type", s("array"))]), "root type must be 'object'"),
        (
            obj(vec![("type", s("object")), ("anyOf", arr(vec![]))]),
            "references and object/union schemas are not allowed (nullable scalars are)",
        ),
        (obj(vec![("type", s("object"))]), "root has no properties"),
        (
            obj(vec![("type", s("object")), ("properties", obj(vec![("p", obj(vec![]))]))]),
            "property 'p' has no concrete type",
        ),
        (
            obj(vec![("type", s("object")), ("properties", obj(vec![("p", obj(vec![("type", s("object"))]))]))]),
            "property 'p' has non-scalar type 'object' (one level only)",
        ),
        (
            obj(vec![("type", s("object")), ("properties", obj(vec![("p", obj(vec![("type", s("array"))]))]))]),
            "property 'p' is not an array of scalars",
        ),
        (
            obj(vec![
                ("type", s("object")),
                ("properties", obj(vec![("p", obj(vec![("type", arr(vec![s("string"), s("integer")]))]))])),
            ]),
            "property 'p' has a type union that is not a nullable scalar",
        ),
    ];
    for (schema, what) in cases {
        let err = assert_flat("m", &schema).unwrap_err();
        assert!(
            matches!(&err, AppError::ValidationFailure(m) if *m == format!("mode 'm' output schema is not flat+closed: {what}")),
            "{err:?}"
        );
    }
}

#[test]
fn scalar_enums_pass_the_flat_check_in_both_forms() {
    let plain = obj(vec![
        ("type", s("object")),
        ("properties", obj(vec![("v", obj(vec![("enum", arr(vec![s("a"), n("1"), Json::Null]))]))])),
    ]);
    assert!(assert_flat("m", &plain).is_ok());
    let consts = obj(vec![
        ("type", s("object")),
        (
            "properties",
            obj(vec![("v", obj(vec![("oneOf", arr(vec![obj(vec![("const", s("a"))]), obj(vec![("const", Json::Bool(true))])]))]))]),
        ),
    ]);
    assert!(assert_flat("m", &consts).is_ok());
    let empty_one_of = obj(vec![
        ("type", s("object")),
        ("properties", obj(vec![("v", obj(vec![("oneOf", arr(vec![]))]))])),
    ]);
    assert!(assert_flat("m", &empty_one_of).is_err());
}

#[test]
fn a_duplicate_registration_replaces_the_first_and_is_reported() {
    let mut registry = ModeRegistry::new();
    registry.register("verify", "first", "t", flat_schema(), 3).unwrap();
    registry.register("other", "o", "t", flat_schema(), 2).unwrap();
    let err = registry.register("verify", "second", "t2", flat_schema(), 1).unwrap_err();
    assert!(matches!(&err, AppError::ValidationFailure(m) if m == "duplicate mode id 'verify' would shadow an existing tool"));
    assert_eq!(registry.get("verify").unwrap().description, "second");
    assert_eq!(registry.get("other").unwrap().ensemble_k, 2);
}

#[test]
fn an_illegal_schema_leaves_the_registry_unchanged() {
    let mut registry = ModeRegistry::new();
    registry.register("verify", "first", "t", flat_schema(), 3).unwrap();
    assert!(registry.register("verify", "again", "t", s("no"), 1).is_err());
    assert_eq!(registry.get("verify").unwrap().description, "first");
}

#[test]
fn a_non_object_schema_sanitizes_to_itself() {
    let out = sanitize(&arr(vec![s("x"), n("2")]));
    assert_eq!(strs(&arr(vec![nth(&out, 0).copy()])), vec!["x".to_string()]);
    assert_eq!(nth(&out, 1).as_u64(), Some(2));
}

#[test]
fn numbers_read_as_u64_only_when_written_with_digits_that_fit() {
    assert_eq!(n("18446744073709551615").as_u64(), Some(u64::MAX));
    assert_eq!(n("18446744073709551616").as_u64(), None);
    assert_eq!(n("4.0").as_u64(), None);
    assert_eq!(n("-1").as_u64(), None);
    assert_eq!(n("").as_u64(), None);
    assert_eq!(s("4").as_u64(), None);
}

#[test]
fn a_lookup_finds_the_first_entry_with_the_key() {
    let j = obj(vec![("k", n("1")), ("k", n("2"))]);
    assert_eq!(j.get("k").unwrap().as_u64(), Some(1));
    assert!(s("k").get("k").is_none());
}

#[test]
fn sanitized_output_is_legal_at_every_visited_level() {
    let schema = obj(vec![
        ("type", s("object")),
        ("title", s("T")),
        ("minItems", n("3")),
        (
            "properties",
            obj(vec![(
                "list",
                obj(vec![
                    ("type", s("array")),
                    ("items", obj(vec![("type", s("object")), ("properties", obj(vec![("q", obj(vec![("type", s("string")), ("pattern", s("x"))]))]))])),
                ]),
            )]),
        ),
    ]);
    let out = sanitize(&schema);
    assert_grammar_legal(&out);
    assert!(out.get("minItems").is_none());
    let items = at(&out, &["properties", "list", "items"]);
    assert!(matches!(items.get("additionalProperties"), Some(Json::Bool(false))));
    assert_eq!(strs(at(items, &["required"])), vec!["q".to_string()]);
}

use parallax::schema::validate::{report_result, validate, violation_text};

fn verdict_schema() -> Json {
    obj(vec![
        ("type", s("object")),
        (
            "properties",
            obj(vec![
                ("verdict", obj(vec![("type", s("string")), ("enum", arr(vec![s("supported"), s("refuted")]))])),
                ("findings", obj(vec![("type", s("array")), ("items", obj(vec![("type", s("string"))]))])),
                ("confidence", obj(vec![("type", s("number")), ("minimum", n("0")), ("maximum", n("1"))])),
            ]),
        ),
        ("required", arr(vec![s("verdict"), s("findings"), s("confidence")])),
        ("additionalProperties", Json::Bool(false)),
    ])
}

fn failure_message(r: Result<(), AppError>) -> String {
    match r {
        Err(AppError::ValidationFailure(m)) => m,
        other => panic!("not a validation failure: {other:?}"),
    }
}

#[test]
fn accepts_a_conforming_value() {
    let value = obj(vec![
        ("verdict", s("refuted")),
        ("findings", arr(vec![s("wrong year")])),
        ("confidence", n("1.0")),
    ]);
    validate(&verdict_schema(), &value).unwrap();
}

#[test]
fn reimposes_the_range_constraint_the_sanitizer_strips() {
    // After sanitize(), the grammar would happily emit confidence: 7.
    let sanitized = sanitize(&verdict_schema());
    assert!(at(&sanitized, &["properties", "confidence"]).get("maximum").is_none());

    let out_of_range = obj(vec![
        ("verdict", s("supported")),
        ("findings", arr(vec![])),
        ("confidence", n("7.0")),
    ]);
    let msg = failure_message(validate(&verdict_schema(), &out_of_range));
    assert!(msg.contains("confidence"), "{msg}");
}

#[test]
fn rejects_undeclared_fields_and_wrong_enum() {
    let bad = obj(vec![
        ("verdict", s("maybe")),
        ("findings", arr(vec![])),
        ("confidence", n("0.5")),
        ("extra", n("1")),
    ]);
    let msg = failure_message(validate(&verdict_schema(), &bad));
    assert!(msg.contains("maybe") || msg.contains("enum"), "{msg}");
    assert!(msg.contains("extra") || msg.contains("additional"), "{msg}");
}

#[test]
fn a_noncompiling_schema_is_a_loud_error() {
    let broken = obj(vec![("type", n("12"))]);
    let msg = failure_message(validate(&broken, &obj(vec![])));
    assert!(msg.contains("schema does not compile"), "{msg}");
}

#[test]
fn a_report_becomes_the_result_exactly() {
    assert!(report_result(Ok(vec![])).is_ok());
    assert_eq!(
        failure_message(report_result(Ok(vec![
            ("a".to_string(), "/x".to_string()),
            ("b".to_string(), "/y".to_string()),
        ]))),
        "a at /x; b at /y"
    );
    assert_eq!(
        failure_message(report_result(Err((true, "bad".to_string())))),
        "schema does not compile: bad"
    );
    assert_eq!(
        failure_message(report_result(Err((false, "eof".to_string())))),
        "value does not read as JSON: eof"
    );
}

#[test]
fn a_violation_line_names_where_it_occurred() {
    let line: String = violation_text("7.0 is greater than 1", "/confidence").into_iter().collect();
    assert_eq!(line, "7.0 is greater than 1 at /confidence");
}

#[test]
fn json_text_is_compact_ordered_and_escaped() {
    let j = obj(vec![
        ("a", arr(vec![Json::Null, Json::Bool(true), n("1.5")])),
        ("q\"uote", s("line\nbreak\t\u{1}\\")),
        ("e", obj(vec![])),
    ]);
    assert_eq!(
        j.to_text(),
        "{\"a\":[null,true,1.5],\"q\\\"uote\":\"line\\nbreak\\t\\u0001\\\\\",\"e\":{}}"
    );
    assert_eq!(arr(vec![]).to_text(), "[]");
}
