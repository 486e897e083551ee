//! Scenario tests for the binding engine: key collection, apply, and the
//! error cases, on concrete schemas.

use apollo_bind::engine::{apply, collect_keys, validate_schema, ApplyError, NoCustomDecode,
    SchemaError};
use apollo_bind::field_type::{CollKind, FieldDecl, PrimKind, Schema, TypeRef};
use apollo_bind::flat::FlatConfig;
use apollo_bind::value::{default_record, CfgValue};

fn field(name: &str, ty: TypeRef) -> FieldDecl {
    FieldDecl { name: String::from(name), ty, attr: None }
}

fn field_with(name: &str, ty: TypeRef, attr: &str) -> FieldDecl {
    FieldDecl { name: String::from(name), ty, attr: Some(String::from(attr)) }
}

/// The example schema: `{ port: integer, name: optional(string),
/// server: { host: string } }`.
fn example_schema() -> Schema {
    Schema {
        fields: vec![
            field("port", TypeRef::Primitive(PrimKind::Int)),
            field(
                "name",
                TypeRef::Optional(Box::new(TypeRef::Primitive(PrimKind::Text))),
            ),
            field(
                "server",
                TypeRef::Nested(Schema {
                    fields: vec![field("host", TypeRef::Primitive(PrimKind::Text))],
                }),
            ),
        ],
    }
}

fn cfg_of(pairs: &[(&str, &str)]) -> FlatConfig {
    let mut cfg = FlatConfig::new();
    for (k, v) in pairs {
        cfg.insert(String::from(*k), String::from(*v));
    }
    cfg
}

#[test]
fn example_schema_is_valid() {
    let s = example_schema();
    assert!(validate_schema(&s, &NoCustomDecode).is_ok());
}

#[test]
fn collect_keys_example() {
    let s = example_schema();
    let mut out: Vec<String> = Vec::new();
    collect_keys(&s, &String::new(), &mut out);
    assert_eq!(out, vec!["port", "name", "server.host"]);
}

#[test]
fn collect_keys_nonempty_prefix() {
    let s = example_schema();
    let mut out: Vec<String> = Vec::new();
    collect_keys(&s, &String::from("app"), &mut out);
    assert_eq!(out, vec!["app.port", "app.name", "app.server.host"]);
}

#[test]
fn collect_keys_flat_one_key_per_field() {
    let s = Schema {
        fields: vec![
            field("a", TypeRef::Primitive(PrimKind::Int)),
            field("b", TypeRef::Primitive(PrimKind::Boolean)),
            field(
                "c",
                TypeRef::Optional(Box::new(TypeRef::Primitive(PrimKind::Int))),
            ),
        ],
    };
    let mut out: Vec<String> = Vec::new();
    collect_keys(&s, &String::from("p"), &mut out);
    assert_eq!(out, vec!["p.a", "p.b", "p.c"]);
}

#[test]
fn apply_example_success() {
    let s = example_schema();
    let mut vals = default_record(&s);
    let cfg = cfg_of(&[("port", "8080"), ("server.host", "localhost")]);
    let r = apply(&s, &NoCustomDecode, &mut vals, &String::new(), &cfg);
    assert!(r.is_ok());
    assert!(matches!(vals[0], CfgValue::IntV(8080)));
    assert!(matches!(vals[1], CfgValue::OptV(None)));
    match &vals[2] {
        CfgValue::RecV(inner) => match &inner[0] {
            CfgValue::StrV(h) => assert_eq!(h, "localhost"),
            _ => panic!("host should be a string"),
        },
        _ => panic!("server should be a record"),
    }
}

#[test]
fn apply_missing_primitive_key_fails() {
    let s = example_schema();
    let mut vals = default_record(&s);
    let cfg = cfg_of(&[("server.host", "localhost")]);
    let r = apply(&s, &NoCustomDecode, &mut vals, &String::new(), &cfg);
    match r {
        Err(ApplyError::MissingKey { key }) => assert_eq!(key, "port"),
        _ => panic!("apply should fail with the missing key"),
    }
}

#[test]
fn apply_missing_optional_key_leaves_field_unchanged() {
    let s = Schema {
        fields: vec![field(
            "name",
            TypeRef::Optional(Box::new(TypeRef::Primitive(PrimKind::Text))),
        )],
    };
    let mut vals = vec![CfgValue::OptV(Some(Box::new(CfgValue::StrV(String::from(
        "kept",
    )))))];
    let cfg = cfg_of(&[]);
    let r = apply(&s, &NoCustomDecode, &mut vals, &String::new(), &cfg);
    assert!(r.is_ok());
    match &vals[0] {
        CfgValue::OptV(Some(b)) => match &**b {
            CfgValue::StrV(v) => assert_eq!(v, "kept"),
            _ => panic!("inner should be a string"),
        },
        _ => panic!("field should stay set"),
    }
}

#[test]
fn apply_parse_failure_names_key_and_raw() {
    let s = Schema {
        fields: vec![field("port", TypeRef::Primitive(PrimKind::Int))],
    };
    let mut vals = default_record(&s);
    let cfg = cfg_of(&[("port", "not-a-number")]);
    let r = apply(&s, &NoCustomDecode, &mut vals, &String::new(), &cfg);
    match r {
        Err(ApplyError::ParseFailure { key, raw, kind }) => {
            assert_eq!(key, "port");
            assert_eq!(raw, "not-a-number");
            assert_eq!(kind, PrimKind::Int);
        },
        _ => panic!("apply should fail with a parse error"),
    }
}

#[test]
fn json_map_collection_decodes() {
    let s = Schema {
        fields: vec![field_with(
            "tags",
            TypeRef::Collection(CollKind::StrMap),
            "with = \"json\"",
        )],
    };
    assert!(validate_schema(&s, &NoCustomDecode).is_ok());
    let mut vals = default_record(&s);
    let cfg = cfg_of(&[("tags", "{\"a\":\"1\"}")]);
    let r = apply(&s, &NoCustomDecode, &mut vals, &String::new(), &cfg);
    assert!(r.is_ok());
    match &vals[0] {
        CfgValue::MapV(pairs) => {
            assert_eq!(pairs.len(), 1);
            assert_eq!(pairs[0].0, "a");
            assert_eq!(pairs[0].1, "1");
        },
        _ => panic!("tags should decode to a mapping"),
    }
}

#[test]
fn json_collection_decode_failure_names_key() {
    let s = Schema {
        fields: vec![field("tags", TypeRef::Collection(CollKind::StrMap))],
    };
    let mut vals = default_record(&s);
    let cfg = cfg_of(&[("tags", "not-json")]);
    let r = apply(&s, &NoCustomDecode, &mut vals, &String::new(), &cfg);
    match r {
        Err(ApplyError::DecodeFailure { key, raw }) => {
            assert_eq!(key, "tags");
            assert_eq!(raw, "not-json");
        },
        _ => panic!("apply should fail with a decode error"),
    }
}

#[test]
fn json_string_sequence_decodes() {
    let s = Schema {
        fields: vec![field("hosts", TypeRef::Collection(CollKind::StrSeq))],
    };
    let mut vals = default_record(&s);
    let cfg = cfg_of(&[("hosts", "[\"a\",\"b\"]")]);
    let r = apply(&s, &NoCustomDecode, &mut vals, &String::new(), &cfg);
    assert!(r.is_ok());
    match &vals[0] {
        CfgValue::SeqV(items) => assert_eq!(items, &vec![String::from("a"), String::from("b")]),
        _ => panic!("hosts should decode to a sequence"),
    }
}

#[test]
fn nested_with_json_decodes_record() {
    let inner = Schema {
        fields: vec![
            field("host", TypeRef::Primitive(PrimKind::Text)),
            field("port", TypeRef::Primitive(PrimKind::Int)),
        ],
    };
    let s = Schema {
        fields: vec![field_with("server", TypeRef::Nested(inner), "with = \"json\"")],
    };
    assert!(validate_schema(&s, &NoCustomDecode).is_ok());
    let mut vals = default_record(&s);
    let cfg = cfg_of(&[("server", "{\"host\":\"h1\",\"port\":99}")]);
    let r = apply(&s, &NoCustomDecode, &mut vals, &String::new(), &cfg);
    assert!(r.is_ok());
    match &vals[0] {
        CfgValue::RecV(inner_vals) => {
            match &inner_vals[0] {
                CfgValue::StrV(h) => assert_eq!(h, "h1"),
                _ => panic!("host should be a string"),
            }
            assert!(matches!(inner_vals[1], CfgValue::IntV(99)));
        },
        _ => panic!("server should decode to a record"),
    }
}

#[test]
fn nested_optional_schema_is_rejected() {
    let s = Schema {
        fields: vec![field(
            "x",
            TypeRef::Optional(Box::new(TypeRef::Optional(Box::new(TypeRef::Primitive(
                PrimKind::Int,
            ))))),
        )],
    };
    match validate_schema(&s, &NoCustomDecode) {
        Err(SchemaError::NestedOption { field }) => assert_eq!(field, "x"),
        _ => panic!("nested optional must be rejected"),
    }
}

#[test]
fn malformed_directive_is_rejected() {
    let s = Schema {
        fields: vec![field_with(
            "tags",
            TypeRef::Collection(CollKind::StrMap),
            "with json",
        )],
    };
    match validate_schema(&s, &NoCustomDecode) {
        Err(SchemaError::MalformedDirective { field }) => assert_eq!(field, "tags"),
        _ => panic!("malformed directive must be rejected"),
    }
}

#[test]
fn bad_field_name_is_rejected() {
    let s = Schema {
        fields: vec![field("not a name", TypeRef::Primitive(PrimKind::Int))],
    };
    match validate_schema(&s, &NoCustomDecode) {
        Err(SchemaError::BadFieldName { field }) => assert_eq!(field, "not a name"),
        _ => panic!("a field name must be an identifier"),
    }
}

#[test]
fn unknown_function_is_rejected() {
    let inner = Schema {
        fields: vec![field("host", TypeRef::Primitive(PrimKind::Text))],
    };
    let s = Schema {
        fields: vec![field_with("server", TypeRef::Nested(inner), "with = \"mk\"")],
    };
    match validate_schema(&s, &NoCustomDecode) {
        Err(SchemaError::UnknownFunction { field, func }) => {
            assert_eq!(field, "server");
            assert_eq!(func, "mk");
        },
        _ => panic!("an unresolvable function must be rejected"),
    }
}

#[test]
fn optional_nested_default_constructs_and_recurses() {
    let inner = Schema {
        fields: vec![field("host", TypeRef::Primitive(PrimKind::Text))],
    };
    let s = Schema {
        fields: vec![field("server", TypeRef::Optional(Box::new(TypeRef::Nested(inner))))],
    };
    assert!(validate_schema(&s, &NoCustomDecode).is_ok());

    let mut out: Vec<String> = Vec::new();
    collect_keys(&s, &String::new(), &mut out);
    assert_eq!(out, vec!["server.host"]);

    let mut vals = default_record(&s);
    assert!(matches!(vals[0], CfgValue::OptV(None)));
    let cfg = cfg_of(&[("server.host", "h2")]);
    let r = apply(&s, &NoCustomDecode, &mut vals, &String::new(), &cfg);
    assert!(r.is_ok());
    match &vals[0] {
        CfgValue::OptV(Some(b)) => match &**b {
            CfgValue::RecV(inner_vals) => match &inner_vals[0] {
                CfgValue::StrV(h) => assert_eq!(h, "h2"),
                _ => panic!("host should be a string"),
            },
            _ => panic!("inner should be a record"),
        },
        _ => panic!("server should be default-constructed and set"),
    }
}

#[test]
fn partial_update_kept_on_failure() {
    let s = Schema {
        fields: vec![
            field("a", TypeRef::Primitive(PrimKind::Int)),
            field("b", TypeRef::Primitive(PrimKind::Int)),
        ],
    };
    let mut vals = default_record(&s);
    let cfg = cfg_of(&[("a", "7")]);
    let r = apply(&s, &NoCustomDecode, &mut vals, &String::new(), &cfg);
    match r {
        Err(ApplyError::MissingKey { key }) => assert_eq!(key, "b"),
        _ => panic!("apply should fail on the second field"),
    }
    assert!(matches!(vals[0], CfgValue::IntV(7)));
    assert!(matches!(vals[1], CfgValue::IntV(0)));
}

#[test]
fn round_trip_example() {
    let s = example_schema();
    let mut original = default_record(&s);
    let cfg = cfg_of(&[("port", "4242"), ("name", "svc"), ("server.host", "db")]);
    let r = apply(&s, &NoCustomDecode, &mut original, &String::new(), &cfg);
    assert!(r.is_ok());

    // Encode the instance's leaf values back under the collected keys, then
    // apply a fresh default instance against that map.
    let enc = cfg_of(&[("port", "4242"), ("name", "svc"), ("server.host", "db")]);
    let mut fresh = default_record(&s);
    let r2 = apply(&s, &NoCustomDecode, &mut fresh, &String::new(), &enc);
    assert!(r2.is_ok());
    assert!(matches!(fresh[0], CfgValue::IntV(4242)));
    match (&original[1], &fresh[1]) {
        (CfgValue::OptV(Some(a)), CfgValue::OptV(Some(b))) => match (&**a, &**b) {
            (CfgValue::StrV(x), CfgValue::StrV(y)) => assert_eq!(x, y),
            _ => panic!("name should be a string"),
        },
        _ => panic!("name should be set in both"),
    }
}

#[test]
fn round_trip_collection_through_json() {
    let s = Schema {
        fields: vec![field("tags", TypeRef::Collection(CollKind::StrMap))],
    };
    let mut vals = default_record(&s);
    let cfg = cfg_of(&[("tags", "{\"a\":\"1\",\"b\":\"2\"}")]);
    assert!(apply(&s, &NoCustomDecode, &mut vals, &String::new(), &cfg).is_ok());
    let pairs = match &vals[0] {
        CfgValue::MapV(p) => p.clone(),
        _ => panic!("tags should be a mapping"),
    };
    // Re-encode the decoded pairs as JSON text and apply a fresh instance.
    let mut body = String::new();
    for (k, v) in &pairs {
        if !body.is_empty() {
            body.push(',');
        }
        body.push_str(&format!("\"{}\":\"{}\"", k, v));
    }
    let text = format!("{{{}}}", body);
    let enc = cfg_of(&[("tags", text.as_str())]);
    let mut fresh = default_record(&s);
    assert!(apply(&s, &NoCustomDecode, &mut fresh, &String::new(), &enc).is_ok());
    match &fresh[0] {
        CfgValue::MapV(p) => assert_eq!(p, &pairs),
        _ => panic!("tags should be a mapping"),
    }
}

#[test]
fn optional_collection_decodes_when_present() {
    let s = Schema {
        fields: vec![field(
            "hosts",
            TypeRef::Optional(Box::new(TypeRef::Collection(CollKind::StrSeq))),
        )],
    };
    assert!(validate_schema(&s, &NoCustomDecode).is_ok());
    let mut vals = default_record(&s);
    let r = apply(&s, &NoCustomDecode, &mut vals, &String::new(), &cfg_of(&[]));
    assert!(r.is_ok());
    assert!(matches!(vals[0], CfgValue::OptV(None)));

    let cfg = cfg_of(&[("hosts", "[\"x\"]")]);
    assert!(apply(&s, &NoCustomDecode, &mut vals, &String::new(), &cfg).is_ok());
    match &vals[0] {
        CfgValue::OptV(Some(b)) => match &**b {
            CfgValue::SeqV(items) => assert_eq!(items, &vec![String::from("x")]),
            _ => panic!("inner should be a sequence"),
        },
        _ => panic!("hosts should be set"),
    }
}

#[test]
fn optional_nested_with_json_reads_one_key() {
    let inner = Schema {
        fields: vec![field("host", TypeRef::Primitive(PrimKind::Text))],
    };
    let s = Schema {
        fields: vec![field_with(
            "server",
            TypeRef::Optional(Box::new(TypeRef::Nested(inner))),
            "with = \"json\"",
        )],
    };
    assert!(validate_schema(&s, &NoCustomDecode).is_ok());

    let mut out: Vec<String> = Vec::new();
    collect_keys(&s, &String::new(), &mut out);
    assert_eq!(out, vec!["server"]);

    let mut vals = default_record(&s);
    let cfg = cfg_of(&[("server", "{\"host\":\"j\"}")]);
    assert!(apply(&s, &NoCustomDecode, &mut vals, &String::new(), &cfg).is_ok());
    match &vals[0] {
        CfgValue::OptV(Some(b)) => match &**b {
            CfgValue::RecV(inner_vals) => match &inner_vals[0] {
                CfgValue::StrV(h) => assert_eq!(h, "j"),
                _ => panic!("host should be a string"),
            },
            _ => panic!("inner should be a record"),
        },
        _ => panic!("server should be set"),
    }
}
