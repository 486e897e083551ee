//! Tests for the leaf pieces: scalar parsing, directive parsing, shape
//! classification, the flat map, and the custom decode registry.

use apollo_bind::engine::{apply, validate_schema, CustomDecode};
use apollo_bind::field_type::{
    decode_directive, field_type, get_deserialize_type, get_field_type, is_serde_with_json,
    CollKind, DecodeDirective, FieldDecl, FieldType, PrimKind, Schema, TypeRef,
};
use apollo_bind::flat::FlatConfig;
use apollo_bind::scalar::{parse_bool, parse_char, parse_i64};
use apollo_bind::value::{default_record, CfgValue};

#[test]
fn parse_i64_accepts_decimal() {
    assert_eq!(parse_i64("0"), Some(0));
    assert_eq!(parse_i64("8080"), Some(8080));
    assert_eq!(parse_i64("-17"), Some(-17));
    assert_eq!(parse_i64("007"), Some(7));
    assert_eq!(parse_i64("9223372036854775807"), Some(i64::MAX));
    assert_eq!(parse_i64("-9223372036854775808"), Some(i64::MIN));
}

#[test]
fn parse_i64_rejects_garbage_and_overflow() {
    assert_eq!(parse_i64(""), None);
    assert_eq!(parse_i64("-"), None);
    assert_eq!(parse_i64("1x"), None);
    assert_eq!(parse_i64("+1"), None);
    assert_eq!(parse_i64("9223372036854775808"), None);
    assert_eq!(parse_i64("-9223372036854775809"), None);
    assert_eq!(parse_i64("1 "), None);
}

#[test]
fn parse_bool_exact_texts() {
    assert_eq!(parse_bool("true"), Some(true));
    assert_eq!(parse_bool("false"), Some(false));
    assert_eq!(parse_bool("True"), None);
    assert_eq!(parse_bool("1"), None);
    assert_eq!(parse_bool(""), None);
}

#[test]
fn parse_char_single_character() {
    assert_eq!(parse_char("x"), Some('x'));
    assert_eq!(parse_char(""), None);
    assert_eq!(parse_char("xy"), None);
}

#[test]
fn classification_covers_the_four_shapes() {
    assert_eq!(get_field_type(&TypeRef::Primitive(PrimKind::Int)), FieldType::PRIMITIVE);
    assert_eq!(
        get_field_type(&TypeRef::Optional(Box::new(TypeRef::Primitive(PrimKind::Text)))),
        FieldType::OPTION
    );
    assert_eq!(get_field_type(&TypeRef::Collection(CollKind::StrSeq)), FieldType::COLLECTION);
    let s = Schema { fields: Vec::new() };
    assert_eq!(get_field_type(&TypeRef::Nested(s)), FieldType::STRUCT);
}

#[test]
fn field_type_uses_declared_type() {
    let f = FieldDecl {
        name: String::from("port"),
        ty: TypeRef::Primitive(PrimKind::Int),
        attr: None,
    };
    assert_eq!(field_type(&f), FieldType::PRIMITIVE);
}

#[test]
fn directive_parsing_exact_form() {
    let json_field = FieldDecl {
        name: String::from("tags"),
        ty: TypeRef::Collection(CollKind::StrMap),
        attr: Some(String::from("with = \"json\"")),
    };
    assert!(is_serde_with_json(&json_field));
    assert_eq!(get_deserialize_type(&json_field), Some(String::from("json")));
    assert!(matches!(decode_directive(&json_field), Some(DecodeDirective::WithJson)));

    let func_field = FieldDecl {
        name: String::from("server"),
        ty: TypeRef::Collection(CollKind::StrMap),
        attr: Some(String::from("with = \"decode_fn\"")),
    };
    assert!(!is_serde_with_json(&func_field));
    assert_eq!(get_deserialize_type(&func_field), Some(String::from("decode_fn")));
    match decode_directive(&func_field) {
        Some(DecodeDirective::WithFunction(n)) => assert_eq!(n, "decode_fn"),
        _ => panic!("directive should be a named function"),
    }
}

#[test]
fn malformed_directives_yield_none() {
    for bad in ["with json", "with = json", "with = \"\"", "with = \"1x\"", "w = \"json\"",
        "with = \"a b\""] {
        let f = FieldDecl {
            name: String::from("x"),
            ty: TypeRef::Collection(CollKind::StrMap),
            attr: Some(String::from(bad)),
        };
        assert!(decode_directive(&f).is_none(), "{bad:?} should be malformed");
        assert!(get_deserialize_type(&f).is_none(), "{bad:?} should be malformed");
    }
}

#[test]
fn flat_config_first_binding_wins() {
    let mut cfg = FlatConfig::new();
    cfg.insert(String::from("a"), String::from("1"));
    cfg.insert(String::from("a"), String::from("2"));
    assert_eq!(cfg.get(&String::from("a")), Some(&String::from("2")));
    assert_eq!(cfg.get(&String::from("b")), None);
    assert!(cfg.contains(&String::from("a")));
    assert!(!cfg.contains(&String::from("b")));
}

/// A registry with a single function, `mk_server`, that builds a
/// one-field record holding the raw string upper-cased.
struct UpperRegistry;

impl CustomDecode for UpperRegistry {
    // The ghost view of the registry; never run.
    fn resolves_spec(&self, _name: vstd::seq::Seq<char>) -> bool {
        false
    }

    // The ghost view of the decode result; never run.
    fn decode_spec(
        &self,
        _name: vstd::seq::Seq<char>,
        _raw: vstd::seq::Seq<char>,
    ) -> Option<apollo_bind::value::ValModel> {
        None
    }

    fn resolves(&self, name: &String) -> bool {
        name == "mk_server"
    }

    fn decode(&self, name: &String, raw: &String) -> Option<CfgValue> {
        if name == "mk_server" {
            Some(CfgValue::RecV(vec![CfgValue::StrV(raw.to_uppercase())]))
        } else {
            None
        }
    }
}

#[test]
fn custom_decode_function_runs() {
    let inner = Schema {
        fields: vec![FieldDecl {
            name: String::from("host"),
            ty: TypeRef::Primitive(PrimKind::Text),
            attr: None,
        }],
    };
    let s = Schema {
        fields: vec![FieldDecl {
            name: String::from("server"),
            ty: TypeRef::Nested(inner),
            attr: Some(String::from("with = \"mk_server\"")),
        }],
    };
    let reg = UpperRegistry;
    assert!(validate_schema(&s, &reg).is_ok());
    let mut vals = default_record(&s);
    let mut cfg = FlatConfig::new();
    cfg.insert(String::from("server"), String::from("local"));
    let r = apply(&s, &reg, &mut vals, &String::new(), &cfg);
    assert!(r.is_ok());
    match &vals[0] {
        CfgValue::RecV(inner_vals) => match &inner_vals[0] {
            CfgValue::StrV(h) => assert_eq!(h, "LOCAL"),
            _ => panic!("host should be a string"),
        },
        _ => panic!("server should be a record"),
    }
}

#[test]
fn apply_parses_each_scalar_kind() {
    let s = Schema {
        fields: vec![
            FieldDecl {
                name: String::from("n"),
                ty: TypeRef::Primitive(PrimKind::Int),
                attr: None,
            },
            FieldDecl {
                name: String::from("flag"),
                ty: TypeRef::Primitive(PrimKind::Boolean),
                attr: None,
            },
            FieldDecl {
                name: String::from("sep"),
                ty: TypeRef::Primitive(PrimKind::Character),
                attr: None,
            },
            FieldDecl {
                name: String::from("label"),
                ty: TypeRef::Primitive(PrimKind::Text),
                attr: None,
            },
        ],
    };
    let mut cfg = FlatConfig::new();
    cfg.insert(String::from("n"), String::from("-5"));
    cfg.insert(String::from("flag"), String::from("true"));
    cfg.insert(String::from("sep"), String::from(":"));
    cfg.insert(String::from("label"), String::from("svc"));
    let mut vals = default_record(&s);
    assert!(apply(&s, &apollo_bind::engine::NoCustomDecode, &mut vals, &String::new(), &cfg)
        .is_ok());
    assert!(matches!(vals[0], CfgValue::IntV(-5)));
    assert!(matches!(vals[1], CfgValue::BoolV(true)));
    assert!(matches!(vals[2], CfgValue::CharV(':')));
    match &vals[3] {
        CfgValue::StrV(v) => assert_eq!(v, "svc"),
        _ => panic!("label should be a string"),
    }
}
