//! The binding engine: schema validation, key collection, and apply.
//!
//! Both operations walk the schema in field declaration order and derive
//! each field's full dotted key from the record's prefix by one shared
//! rule, so the keys `apply` looks up and the keys `collect_keys` emits are
//! the same.

use vstd::prelude::*;

use crate::field_type::{
    decode_directive, digit_char, get_deserialize_type, ident_char, is_ident, spec_attr_name,
    spec_func_name, spec_is_json, DecodeDirective, FieldDecl, PrimKind, Schema, TypeRef,
};
use crate::json::{decode_raw, decode_ty, json_of, lemma_decode_conforms};
use crate::scalar::{
    fmt_bool_spec, fmt_char_spec, fmt_i64_spec, lemma_parse_fmt_bool, lemma_parse_fmt_char,
    lemma_parse_fmt_i64, parse_bool_spec, parse_char_spec, parse_i64_spec,
};
use crate::value::{
    conforms, default_rec_model, lemma_conforms_unfold, lemma_default_model_unfold,
    lemma_default_rec_conforms, lemma_default_rec_index, lemma_rec_conforms_unfold, opt_vview,
    prim_conforms, rec_conforms, CfgValue, ValModel,
};

pub use crate::apply::{apply, apply_record};
pub use crate::keys::collect_keys;

verus! {

/// A schema construction error: the schema is rejected before any apply or
/// key collection can be produced for it.
pub enum SchemaError {
    /// A field name is not an identifier.
    BadFieldName { field: String },
    /// An annotation is present but not of the `with = "<ident>"` form.
    MalformedDirective { field: String },
    /// A nested optional field: `Optional(Optional(_))` is illegal.
    NestedOption { field: String },
    /// A custom decode directive names a function the registry lacks.
    UnknownFunction { field: String, func: String },
}

/// An apply-time error, naming the offending dotted key.
pub enum ApplyError {
    /// A required key has no entry in the flat configuration.
    MissingKey { key: String },
    /// A raw value could not be parsed into its scalar target type.
    ParseFailure { key: String, raw: String, kind: PrimKind },
    /// A raw value could not be decoded (JSON or custom function).
    DecodeFailure { key: String, raw: String },
}

/// The mathematical model of an apply-time error.
pub enum ErrModel {
    MissingKey { key: Seq<char> },
    ParseFailure { key: Seq<char>, raw: Seq<char>, kind: PrimKind },
    DecodeFailure { key: Seq<char>, raw: Seq<char> },
}

/// The model of an apply-time error value.
pub open spec fn eview(e: ApplyError) -> ErrModel {
    match e {
        ApplyError::MissingKey { key } => ErrModel::MissingKey { key: key@ },
        ApplyError::ParseFailure { key, raw, kind } => ErrModel::ParseFailure {
            key: key@,
            raw: raw@,
            kind,
        },
        ApplyError::DecodeFailure { key, raw } => ErrModel::DecodeFailure { key: key@, raw: raw@ },
    }
}

/// The model of an optional apply-time error.
pub open spec fn opt_eview(e: Option<ApplyError>) -> Option<ErrModel> {
    match e {
        Some(x) => Some(eview(x)),
        None => None,
    }
}

/// The registry of user-supplied custom decode functions: the engine's
/// extensibility point.  A `with = "<function>"` directive resolves against
/// it at schema validation time and decodes through it at apply time.
pub trait CustomDecode {
    /// Whether the registry knows a function of this name.
    spec fn resolves_spec(&self, name: Seq<char>) -> bool;

    /// The value the named function decodes a raw string to, or `None` for
    /// a decode failure.
    spec fn decode_spec(&self, name: Seq<char>, raw: Seq<char>) -> Option<ValModel>;

    /// Whether the registry knows a function of this name.
    fn resolves(&self, name: &String) -> (r: bool)
        ensures
            r == self.resolves_spec(name@),
    ;

    /// Decode a raw string by the named function.
    fn decode(&self, name: &String, raw: &String) -> (r: Option<CfgValue>)
        requires
            self.resolves_spec(name@),
        ensures
            opt_vview(r) == self.decode_spec(name@, raw@),
    ;
}

/// The empty registry: no custom decode functions at all.
pub struct NoCustomDecode;

impl CustomDecode for NoCustomDecode {
    open spec fn resolves_spec(&self, name: Seq<char>) -> bool {
        false
    }

    open spec fn decode_spec(&self, name: Seq<char>, raw: Seq<char>) -> Option<ValModel> {
        None
    }

    fn resolves(&self, name: &String) -> (r: bool) {
        false
    }

    fn decode(&self, name: &String, raw: &String) -> (r: Option<CfgValue>) {
        None
    }
}

/// Whether one declared field is valid: its name is an identifier, its
/// annotation (if any) is well formed, optionals do not nest, a consulted
/// custom decode function resolves, and nested schemas are valid in turn.
pub open spec fn valid_field<R: CustomDecode>(reg: R, f: FieldDecl) -> bool
    decreases f, 0int,
{
    &&& is_ident(f.name@)
    &&& (f.attr is Some ==> spec_attr_name(f) is Some)
    &&& match f.ty {
        TypeRef::Primitive(_) => true,
        TypeRef::Collection(_) => true,
        TypeRef::Optional(inner) => match *inner {
            TypeRef::Optional(_) => false,
            TypeRef::Primitive(_) => true,
            TypeRef::Collection(_) => true,
            TypeRef::Nested(s2) => valid_schema(reg, s2),
        },
        TypeRef::Nested(s2) => {
            &&& valid_schema(reg, s2)
            &&& match spec_func_name(f) {
                Some(n) => reg.resolves_spec(n),
                None => true,
            }
        },
    }
}

/// Whether a schema is valid: every declared field is.
pub open spec fn valid_schema<R: CustomDecode>(reg: R, s: Schema) -> bool
    decreases s, s.fields@.len() + 1,
{
    forall|i: int| 0 <= i < s.fields@.len() ==> valid_field(reg, #[trigger] s.fields@[i])
}

/// The prefixing rule both operations share: the root prefix is empty, and
/// a descent appends the field name, with a separating dot after a
/// non-empty prefix.
pub open spec fn eff_prefix(prefix: Seq<char>, name: Seq<char>) -> Seq<char> {
    if prefix.len() == 0 {
        name
    } else {
        prefix + seq!['.'] + name
    }
}

/// The keys one field contributes: one key for every shape but an
/// undirected nested record, which contributes its own schema's keys under
/// the extended prefix.
pub open spec fn field_keys(f: FieldDecl, prefix: Seq<char>) -> Seq<Seq<char>>
    decreases f, 0int,
{
    let key = eff_prefix(prefix, f.name@);
    match f.ty {
        TypeRef::Nested(s2) => if spec_attr_name(f) is Some {
            seq![key]
        } else {
            rec_keys(s2, key)
        },
        TypeRef::Optional(inner) => match *inner {
            TypeRef::Nested(s2) => if spec_is_json(f) {
                seq![key]
            } else {
                rec_keys(s2, key)
            },
            _ => seq![key],
        },
        _ => seq![key],
    }
}

/// The keys a schema's fields contribute from index `i` on.
pub open spec fn keys_from(s: Schema, i: int, prefix: Seq<char>) -> Seq<Seq<char>>
    decreases s, s.fields@.len() - i,
{
    if i < 0 || i >= s.fields@.len() {
        Seq::empty()
    } else {
        field_keys(s.fields@[i], prefix) + keys_from(s, i + 1, prefix)
    }
}

/// Every key a record schema expects under a prefix, in declaration and
/// recursion order; duplicates are kept.
pub open spec fn rec_keys(s: Schema, prefix: Seq<char>) -> Seq<Seq<char>>
    decreases s, s.fields@.len() + 1,
{
    keys_from(s, 0, prefix)
}

/// Parse a raw string into a primitive value of the given kind.
pub open spec fn parse_prim(k: PrimKind, raw: Seq<char>) -> Option<ValModel> {
    match k {
        PrimKind::Int => match parse_i64_spec(raw) {
            Some(n) => Some(ValModel::IntV(n)),
            None => None,
        },
        PrimKind::Boolean => match parse_bool_spec(raw) {
            Some(b) => Some(ValModel::BoolV(b)),
            None => None,
        },
        PrimKind::Character => match parse_char_spec(raw) {
            Some(c) => Some(ValModel::CharV(c)),
            None => None,
        },
        PrimKind::Text => Some(ValModel::StrV(raw)),
    }
}

/// Apply one field: the new field value and the error, if any.  On an
/// error the field keeps its old value, except that an undirected nested
/// descent keeps the partial updates made before the failure.
pub open spec fn apply_field_spec<R: CustomDecode>(
    reg: R,
    f: FieldDecl,
    old_v: ValModel,
    key: Seq<char>,
    cfg: Map<Seq<char>, Seq<char>>,
) -> (ValModel, Option<ErrModel>)
    decreases f, 1int,
{
    match f.ty {
        TypeRef::Primitive(k) => if cfg.contains_key(key) {
            match parse_prim(k, cfg[key]) {
                Some(v) => (v, None),
                None => (
                    old_v,
                    Some(ErrModel::ParseFailure { key, raw: cfg[key], kind: k }),
                ),
            }
        } else {
            (old_v, Some(ErrModel::MissingKey { key }))
        },
        TypeRef::Optional(inner) => match *inner {
            TypeRef::Primitive(k) => if cfg.contains_key(key) {
                match parse_prim(k, cfg[key]) {
                    Some(v) => (ValModel::OptV(Some(Box::new(v))), None),
                    None => (
                        old_v,
                        Some(ErrModel::ParseFailure { key, raw: cfg[key], kind: k }),
                    ),
                }
            } else {
                (old_v, None)
            },
            TypeRef::Collection(_) => if cfg.contains_key(key) {
                match decode_raw(*inner, cfg[key]) {
                    Some(v) => (ValModel::OptV(Some(Box::new(v))), None),
                    None => (old_v, Some(ErrModel::DecodeFailure { key, raw: cfg[key] })),
                }
            } else {
                (old_v, None)
            },
            TypeRef::Nested(s2) => if spec_is_json(f) {
                if cfg.contains_key(key) {
                    match decode_raw(*inner, cfg[key]) {
                        Some(v) => (ValModel::OptV(Some(Box::new(v))), None),
                        None => (old_v, Some(ErrModel::DecodeFailure { key, raw: cfg[key] })),
                    }
                } else {
                    (old_v, None)
                }
            } else {
                let start = match old_v {
                    ValModel::OptV(o) => match o {
                        Some(b) => match *b {
                            ValModel::RecV(vs) => vs,
                            _ => default_rec_model(s2),
                        },
                        None => default_rec_model(s2),
                    },
                    _ => default_rec_model(s2),
                };
                let (nvs, err) = apply_fields_spec(reg, s2, 0, start, key, cfg);
                (ValModel::OptV(Some(Box::new(ValModel::RecV(nvs)))), err)
            },
            TypeRef::Optional(_) => (old_v, None),
        },
        TypeRef::Collection(_) => if cfg.contains_key(key) {
            match decode_raw(f.ty, cfg[key]) {
                Some(v) => (v, None),
                None => (old_v, Some(ErrModel::DecodeFailure { key, raw: cfg[key] })),
            }
        } else {
            (old_v, Some(ErrModel::MissingKey { key }))
        },
        TypeRef::Nested(s2) => match spec_func_name(f) {
            Some(n) => if cfg.contains_key(key) {
                match reg.decode_spec(n, cfg[key]) {
                    Some(v) => if conforms(v, f.ty) {
                        (v, None)
                    } else {
                        (old_v, Some(ErrModel::DecodeFailure { key, raw: cfg[key] }))
                    },
                    None => (old_v, Some(ErrModel::DecodeFailure { key, raw: cfg[key] })),
                }
            } else {
                (old_v, Some(ErrModel::MissingKey { key }))
            },
            None => if spec_is_json(f) {
                if cfg.contains_key(key) {
                    match decode_raw(f.ty, cfg[key]) {
                        Some(v) => (v, None),
                        None => (old_v, Some(ErrModel::DecodeFailure { key, raw: cfg[key] })),
                    }
                } else {
                    (old_v, Some(ErrModel::MissingKey { key }))
                }
            } else {
                let start = match old_v {
                    ValModel::RecV(vs) => vs,
                    _ => default_rec_model(s2),
                };
                let (nvs, err) = apply_fields_spec(reg, s2, 0, start, key, cfg);
                (ValModel::RecV(nvs), err)
            },
        },
    }
}

/// Apply a schema's fields from index `i` on, in declaration order,
/// stopping at the first error; fields before the failure keep their new
/// values.
pub open spec fn apply_fields_spec<R: CustomDecode>(
    reg: R,
    s: Schema,
    i: int,
    vals: Seq<ValModel>,
    prefix: Seq<char>,
    cfg: Map<Seq<char>, Seq<char>>,
) -> (Seq<ValModel>, Option<ErrModel>)
    decreases s, s.fields@.len() - i + 2,
{
    if i < 0 || i >= s.fields@.len() {
        (vals, None)
    } else {
        let f = s.fields@[i];
        let (nv, err) = apply_field_spec(reg, f, vals[i], eff_prefix(prefix, f.name@), cfg);
        let vals2 = vals.update(i, nv);
        match err {
            Some(e) => (vals2, Some(e)),
            None => apply_fields_spec(reg, s, i + 1, vals2, prefix, cfg),
        }
    }
}

/// Apply a whole record: all fields from the first on.
pub open spec fn apply_rec_spec<R: CustomDecode>(
    reg: R,
    s: Schema,
    vals: Seq<ValModel>,
    prefix: Seq<char>,
    cfg: Map<Seq<char>, Seq<char>>,
) -> (Seq<ValModel>, Option<ErrModel>)
    decreases s, s.fields@.len() + 3,
{
    apply_fields_spec(reg, s, 0, vals, prefix, cfg)
}

/// The defining equation of [`apply_rec_spec`].
pub proof fn lemma_apply_rec_unfold<R: CustomDecode>(
    reg: R,
    s: Schema,
    vals: Seq<ValModel>,
    prefix: Seq<char>,
    cfg: Map<Seq<char>, Seq<char>>,
)
    ensures
        apply_rec_spec(reg, s, vals, prefix, cfg) == apply_fields_spec(reg, s, 0, vals, prefix, cfg),
{
}

/// The defining equation of [`apply_fields_spec`] past the last field.
pub proof fn lemma_apply_fields_end<R: CustomDecode>(
    reg: R,
    s: Schema,
    i: int,
    vals: Seq<ValModel>,
    prefix: Seq<char>,
    cfg: Map<Seq<char>, Seq<char>>,
)
    requires
        i >= s.fields@.len(),
    ensures
        apply_fields_spec(reg, s, i, vals, prefix, cfg) == (vals, None::<ErrModel>),
{
}

/// The defining equation of [`apply_fields_spec`] at one field.
pub proof fn lemma_apply_fields_step<R: CustomDecode>(
    reg: R,
    s: Schema,
    i: int,
    vals: Seq<ValModel>,
    prefix: Seq<char>,
    cfg: Map<Seq<char>, Seq<char>>,
)
    requires
        0 <= i < s.fields@.len(),
    ensures
        ({
            let f = s.fields@[i];
            let (nv, err) = apply_field_spec(reg, f, vals[i], eff_prefix(prefix, f.name@), cfg);
            apply_fields_spec(reg, s, i, vals, prefix, cfg) == (match err {
                Some(e) => (vals.update(i, nv), Some(e)),
                None => apply_fields_spec(reg, s, i + 1, vals.update(i, nv), prefix, cfg),
            })
        }),
{
}

/// Whether a field name is an identifier.
fn check_ident(s: &String) -> (r: bool)
    ensures
        r == is_ident(s@),
{
    let n = s.as_str().unicode_len();
    if n == 0 {
        return false;
    }
    if digit_char(s.as_str().get_char(0)) {
        return false;
    }
    let mut i: usize = 0;
    while i < n
        invariant
            0 <= i <= n,
            n == s@.len(),
            forall|j: int| 0 <= j < i ==> crate::field_type::is_ident_char(#[trigger] s@[j]),
        decreases n - i,
    {
        if !ident_char(s.as_str().get_char(i)) {
            return false;
        }
        i += 1;
    }
    true
}

/// Validate one declared field.
fn validate_field<R: CustomDecode>(f: &FieldDecl, reg: &R) -> (r: Result<(), SchemaError>)
    ensures
        r is Ok <==> valid_field(*reg, *f),
    decreases *f, 0int,
{
    if !check_ident(&f.name) {
        return Err(SchemaError::BadFieldName { field: f.name.clone() });
    }
    let dir = match &f.attr {
        Some(_) => match get_deserialize_type(f) {
            Some(n) => Some(n),
            None => {
                return Err(SchemaError::MalformedDirective { field: f.name.clone() });
            },
        },
        None => None,
    };
    match &f.ty {
        TypeRef::Primitive(_) => Ok(()),
        TypeRef::Collection(_) => Ok(()),
        TypeRef::Optional(inner) => match &**inner {
            TypeRef::Optional(_) => Err(SchemaError::NestedOption { field: f.name.clone() }),
            TypeRef::Primitive(_) => Ok(()),
            TypeRef::Collection(_) => Ok(()),
            TypeRef::Nested(s2) => validate_schema(s2, reg),
        },
        TypeRef::Nested(s2) => {
            match decode_directive(f) {
                Some(DecodeDirective::WithFunction(n)) => {
                    if !reg.resolves(&n) {
                        return Err(SchemaError::UnknownFunction {
                            field: f.name.clone(),
                            func: n,
                        });
                    }
                },
                _ => {},
            }
            validate_schema(s2, reg)
        },
    }
}

/// Validate a schema: succeeds exactly when the schema is valid for the
/// given registry.  An invalid schema is rejected here, before any apply
/// or key collection is run for it.
pub fn validate_schema<R: CustomDecode>(s: &Schema, reg: &R) -> (r: Result<(), SchemaError>)
    ensures
        r is Ok <==> valid_schema(*reg, *s),
    decreases *s, s.fields@.len() + 1,
{
    let n = s.fields.len();
    let mut i: usize = 0;
    while i < n
        invariant
            0 <= i <= n,
            n == s.fields@.len(),
            forall|j: int| 0 <= j < i ==> valid_field(*reg, #[trigger] s.fields@[j]),
        decreases n - i,
    {
        match validate_field(&s.fields[i], reg) {
            Ok(()) => {},
            Err(e) => {
                return Err(e);
            },
        }
        i += 1;
    }
    Ok(())
}


/// A schema whose fields are all scalar: primitive or optional primitive.
pub open spec fn flat_schema(s: Schema) -> bool {
    forall|i: int|
        0 <= i < s.fields@.len() ==> (match (#[trigger] s.fields@[i]).ty {
            TypeRef::Primitive(_) => true,
            TypeRef::Optional(inner) => *inner is Primitive,
            _ => false,
        })
}

/// Key collection on a scalar-only schema: the keys from field `i` on are
/// exactly one key per field, `prefix` extended by the field's name, in
/// declaration order.
pub proof fn lemma_keys_from_flat(s: Schema, i: int, prefix: Seq<char>)
    requires
        flat_schema(s),
        0 <= i <= s.fields@.len(),
    ensures
        keys_from(s, i, prefix).len() == s.fields@.len() - i,
        forall|j: int|
            0 <= j < s.fields@.len() - i ==> keys_from(s, i, prefix)[j] == eff_prefix(
                prefix,
                s.fields@[i + j].name@,
            ),
    decreases s.fields@.len() - i,
{
    if i < s.fields@.len() {
        lemma_keys_from_flat(s, i + 1, prefix);
        assert(field_keys(s.fields@[i], prefix) == seq![
            eff_prefix(prefix, s.fields@[i].name@),
        ]);
    }
}

/// Scalar-only schemas collect exactly one key per field, the prefix
/// extended by the field's name, in declaration order.
pub proof fn lemma_collect_keys_flat(s: Schema, prefix: Seq<char>)
    requires
        flat_schema(s),
    ensures
        rec_keys(s, prefix).len() == s.fields@.len(),
        forall|i: int|
            0 <= i < s.fields@.len() ==> rec_keys(s, prefix)[i] == eff_prefix(
                prefix,
                s.fields@[i].name@,
            ),
{
    lemma_keys_from_flat(s, 0, prefix);
}

/// A nested optional field makes the whole schema invalid: no apply or key
/// collection is ever produced for it.
pub proof fn lemma_nested_optional_rejected<R: CustomDecode>(reg: R, s: Schema, i: int)
    requires
        0 <= i < s.fields@.len(),
        match s.fields@[i].ty {
            TypeRef::Optional(inner) => *inner is Optional,
            _ => false,
        },
    ensures
        !valid_schema(reg, s),
{
    assert(!valid_field(reg, s.fields@[i]));
}

/// Whether the flat configuration lets one field apply without error: a
/// required key is present with a raw value that parses or decodes, a
/// consulted custom function succeeds, and an optional field's key, where
/// present, holds a well-formed value.
pub open spec fn cfg_ok_field<R: CustomDecode>(
    reg: R,
    f: FieldDecl,
    key: Seq<char>,
    cfg: Map<Seq<char>, Seq<char>>,
) -> bool
    decreases f, 1int,
{
    match f.ty {
        TypeRef::Primitive(k) => cfg.contains_key(key) && parse_prim(k, cfg[key]) is Some,
        TypeRef::Optional(inner) => match *inner {
            TypeRef::Primitive(k) => cfg.contains_key(key) ==> parse_prim(k, cfg[key]) is Some,
            TypeRef::Collection(_) => cfg.contains_key(key) ==> decode_raw(
                *inner,
                cfg[key],
            ) is Some,
            TypeRef::Nested(s2) => if spec_is_json(f) {
                cfg.contains_key(key) ==> decode_raw(*inner, cfg[key]) is Some
            } else {
                cfg_ok_rec(reg, s2, key, cfg)
            },
            TypeRef::Optional(_) => true,
        },
        TypeRef::Collection(_) => cfg.contains_key(key) && decode_raw(f.ty, cfg[key]) is Some,
        TypeRef::Nested(s2) => match spec_func_name(f) {
            Some(n) => cfg.contains_key(key) && (match reg.decode_spec(n, cfg[key]) {
                Some(v) => conforms(v, f.ty),
                None => false,
            }),
            None => if spec_is_json(f) {
                cfg.contains_key(key) && decode_raw(f.ty, cfg[key]) is Some
            } else {
                cfg_ok_rec(reg, s2, key, cfg)
            },
        },
    }
}

/// Whether the flat configuration lets every field of the schema from
/// index `i` on apply without error.
pub open spec fn cfg_ok_from<R: CustomDecode>(
    reg: R,
    s: Schema,
    i: int,
    prefix: Seq<char>,
    cfg: Map<Seq<char>, Seq<char>>,
) -> bool
    decreases s, 2int,
{
    forall|j: int|
        0 <= j && i <= j && j < s.fields@.len() ==> cfg_ok_field(
            reg,
            #[trigger] s.fields@[j],
            eff_prefix(prefix, s.fields@[j].name@),
            cfg,
        )
}

/// Whether the flat configuration lets the whole record apply without
/// error.  Any map that binds every key the schema collects to a
/// well-formed raw value satisfies this.
pub open spec fn cfg_ok_rec<R: CustomDecode>(
    reg: R,
    s: Schema,
    prefix: Seq<char>,
    cfg: Map<Seq<char>, Seq<char>>,
) -> bool
    decreases s, 3int,
{
    cfg_ok_from(reg, s, 0, prefix, cfg)
}

/// One field applies without error whenever the configuration is
/// well formed for it, whatever the field's current value.
pub proof fn lemma_field_ok<R: CustomDecode>(
    reg: R,
    f: FieldDecl,
    old_v: ValModel,
    key: Seq<char>,
    cfg: Map<Seq<char>, Seq<char>>,
)
    requires
        cfg_ok_field(reg, f, key, cfg),
    ensures
        apply_field_spec(reg, f, old_v, key, cfg).1 is None,
    decreases f, 1int,
{
    match f.ty {
        TypeRef::Optional(inner) => match *inner {
            TypeRef::Nested(s2) => {
                if !spec_is_json(f) {
                    let start = match old_v {
                        ValModel::OptV(o) => match o {
                            Some(b) => match *b {
                                ValModel::RecV(vs) => vs,
                                _ => default_rec_model(s2),
                            },
                            None => default_rec_model(s2),
                        },
                        _ => default_rec_model(s2),
                    };
                    lemma_fields_ok(reg, s2, 0, start, key, cfg);
                }
            },
            _ => {},
        },
        TypeRef::Nested(s2) => {
            if spec_func_name(f) is None && !spec_is_json(f) {
                let start = match old_v {
                    ValModel::RecV(vs) => vs,
                    _ => default_rec_model(s2),
                };
                lemma_fields_ok(reg, s2, 0, start, key, cfg);
            }
        },
        _ => {},
    }
}

/// Every field from `i` on applies without error whenever the
/// configuration is well formed for them all.
pub proof fn lemma_fields_ok<R: CustomDecode>(
    reg: R,
    s: Schema,
    i: int,
    vals: Seq<ValModel>,
    prefix: Seq<char>,
    cfg: Map<Seq<char>, Seq<char>>,
)
    requires
        cfg_ok_from(reg, s, i, prefix, cfg),
    ensures
        apply_fields_spec(reg, s, i, vals, prefix, cfg).1 is None,
    decreases s, s.fields@.len() - i + 2,
{
    if 0 <= i < s.fields@.len() {
        let f = s.fields@[i];
        lemma_field_ok(reg, f, vals[i], eff_prefix(prefix, f.name@), cfg);
        let (nv, err) = apply_field_spec(reg, f, vals[i], eff_prefix(prefix, f.name@), cfg);
        lemma_fields_ok(reg, s, i + 1, vals.update(i, nv), prefix, cfg);
    }
}

/// Apply succeeds on any record whenever the configuration binds every key
/// the schema asks for to a well-formed raw value.
pub proof fn lemma_apply_total<R: CustomDecode>(
    reg: R,
    s: Schema,
    vals: Seq<ValModel>,
    prefix: Seq<char>,
    cfg: Map<Seq<char>, Seq<char>>,
)
    requires
        cfg_ok_rec(reg, s, prefix, cfg),
    ensures
        apply_rec_spec(reg, s, vals, prefix, cfg).1 is None,
{
    lemma_fields_ok(reg, s, 0, vals, prefix, cfg);
}

/// Applying the fields from `i` on never touches the values before `i`,
/// and never changes how many values there are.
pub proof fn lemma_fields_keep_prefix<R: CustomDecode>(
    reg: R,
    s: Schema,
    i: int,
    vals: Seq<ValModel>,
    prefix: Seq<char>,
    cfg: Map<Seq<char>, Seq<char>>,
)
    requires
        0 <= i,
        s.fields@.len() <= vals.len(),
    ensures
        apply_fields_spec(reg, s, i, vals, prefix, cfg).0.len() == vals.len(),
        forall|j: int|
            0 <= j < i && j < vals.len() ==> apply_fields_spec(reg, s, i, vals, prefix, cfg).0[j]
                == vals[j],
    decreases s, s.fields@.len() - i + 2,
{
    if i >= s.fields@.len() {
        assert(apply_fields_spec(reg, s, i, vals, prefix, cfg) == (vals, None::<ErrModel>));
    } else {
        let f = s.fields@[i];
        let (nv, err) = apply_field_spec(reg, f, vals[i], eff_prefix(prefix, f.name@), cfg);
        match err {
            Some(e) => {
                assert(apply_fields_spec(reg, s, i, vals, prefix, cfg) == (
                    vals.update(i, nv),
                    Some(e),
                ));
                assert(vals.update(i, nv).len() == vals.len());
                assert(forall|j: int|
                    0 <= j < vals.len() && j != i ==> vals.update(i, nv)[j] == vals[j]);
            },
            None => {
                lemma_fields_keep_prefix(reg, s, i + 1, vals.update(i, nv), prefix, cfg);
                assert(apply_fields_spec(reg, s, i, vals, prefix, cfg) == apply_fields_spec(
                    reg,
                    s,
                    i + 1,
                    vals.update(i, nv),
                    prefix,
                    cfg,
                ));
                assert forall|j: int|
                    0 <= j < i && j < vals.len() implies apply_fields_spec(
                    reg,
                    s,
                    i,
                    vals,
                    prefix,
                    cfg,
                ).0[j] == vals[j] by {
                    assert(apply_fields_spec(reg, s, i + 1, vals.update(i, nv), prefix, cfg).0[j]
                        == vals.update(i, nv)[j]);
                    assert(vals.update(i, nv)[j] == vals[j]);
                }
            },
        }
    }
}

/// A missing key for a primitive field, with every earlier field well
/// served, fails the whole apply with exactly that key's missing-key
/// error.
pub proof fn lemma_missing_primitive_key<R: CustomDecode>(
    reg: R,
    s: Schema,
    t: int,
    vals: Seq<ValModel>,
    prefix: Seq<char>,
    cfg: Map<Seq<char>, Seq<char>>,
)
    requires
        0 <= t < s.fields@.len(),
        forall|j: int|
            0 <= j < t ==> cfg_ok_field(
                reg,
                #[trigger] s.fields@[j],
                eff_prefix(prefix, s.fields@[j].name@),
                cfg,
            ),
        s.fields@[t].ty is Primitive,
        !cfg.contains_key(eff_prefix(prefix, s.fields@[t].name@)),
    ensures
        apply_rec_spec(reg, s, vals, prefix, cfg).1 == Some(ErrModel::MissingKey {
            key: eff_prefix(prefix, s.fields@[t].name@),
        }),
{
    lemma_missing_primitive_from(reg, s, 0, t, vals, prefix, cfg);
}

/// The induction behind [`lemma_missing_primitive_key`], from field `i`.
proof fn lemma_missing_primitive_from<R: CustomDecode>(
    reg: R,
    s: Schema,
    i: int,
    t: int,
    vals: Seq<ValModel>,
    prefix: Seq<char>,
    cfg: Map<Seq<char>, Seq<char>>,
)
    requires
        0 <= i <= t < s.fields@.len(),
        forall|j: int|
            i <= j < t ==> cfg_ok_field(
                reg,
                #[trigger] s.fields@[j],
                eff_prefix(prefix, s.fields@[j].name@),
                cfg,
            ),
        s.fields@[t].ty is Primitive,
        !cfg.contains_key(eff_prefix(prefix, s.fields@[t].name@)),
    ensures
        apply_fields_spec(reg, s, i, vals, prefix, cfg).1 == Some(ErrModel::MissingKey {
            key: eff_prefix(prefix, s.fields@[t].name@),
        }),
    decreases t - i,
{
    let f = s.fields@[i];
    let (nv, err) = apply_field_spec(reg, f, vals[i], eff_prefix(prefix, f.name@), cfg);
    if i < t {
        lemma_field_ok(reg, f, vals[i], eff_prefix(prefix, f.name@), cfg);
        lemma_missing_primitive_from(reg, s, i + 1, t, vals.update(i, nv), prefix, cfg);
    }
}

/// A missing key for an optional primitive field is no error: apply
/// succeeds (given the rest of the configuration is well formed) and the
/// field keeps its current value.
pub proof fn lemma_missing_optional_key<R: CustomDecode>(
    reg: R,
    s: Schema,
    t: int,
    vals: Seq<ValModel>,
    prefix: Seq<char>,
    cfg: Map<Seq<char>, Seq<char>>,
)
    requires
        cfg_ok_rec(reg, s, prefix, cfg),
        0 <= t < s.fields@.len(),
        s.fields@.len() <= vals.len(),
        match s.fields@[t].ty {
            TypeRef::Optional(inner) => *inner is Primitive,
            _ => false,
        },
        !cfg.contains_key(eff_prefix(prefix, s.fields@[t].name@)),
    ensures
        apply_rec_spec(reg, s, vals, prefix, cfg).1 is None,
        apply_rec_spec(reg, s, vals, prefix, cfg).0[t] == vals[t],
{
    lemma_apply_total(reg, s, vals, prefix, cfg);
    lemma_optional_unchanged_from(reg, s, 0, t, vals, prefix, cfg);
}

/// The induction behind [`lemma_missing_optional_key`], from field `i`.
proof fn lemma_optional_unchanged_from<R: CustomDecode>(
    reg: R,
    s: Schema,
    i: int,
    t: int,
    vals: Seq<ValModel>,
    prefix: Seq<char>,
    cfg: Map<Seq<char>, Seq<char>>,
)
    requires
        cfg_ok_from(reg, s, i, prefix, cfg),
        0 <= i <= t < s.fields@.len(),
        s.fields@.len() <= vals.len(),
        match s.fields@[t].ty {
            TypeRef::Optional(inner) => *inner is Primitive,
            _ => false,
        },
        !cfg.contains_key(eff_prefix(prefix, s.fields@[t].name@)),
    ensures
        apply_fields_spec(reg, s, i, vals, prefix, cfg).0[t] == vals[t],
    decreases t - i + 1,
{
    let f = s.fields@[i];
    lemma_field_ok(reg, f, vals[i], eff_prefix(prefix, f.name@), cfg);
    let (nv, err) = apply_field_spec(reg, f, vals[i], eff_prefix(prefix, f.name@), cfg);
    assert(err is None);
    assert(vals.update(i, nv).len() == vals.len());
    assert(apply_fields_spec(reg, s, i, vals, prefix, cfg) == apply_fields_spec(
        reg,
        s,
        i + 1,
        vals.update(i, nv),
        prefix,
        cfg,
    ));
    if i < t {
        assert(vals.update(i, nv)[t] == vals[t]);
        lemma_optional_unchanged_from(reg, s, i + 1, t, vals.update(i, nv), prefix, cfg);
    } else {
        assert(nv == vals[t]);
        assert(vals.update(i, nv)[t] == vals[t]);
        lemma_fields_keep_prefix(reg, s, i + 1, vals.update(i, nv), prefix, cfg);
        assert(apply_fields_spec(reg, s, i + 1, vals.update(i, nv), prefix, cfg).0[t]
            == vals.update(i, nv)[t]);
    }
}


/// Pairwise distinct field names.
pub open spec fn distinct_names(s: Schema) -> bool {
    forall|i: int, j: int|
        0 <= i < j < s.fields@.len() ==> (#[trigger] s.fields@[i]).name@ != (
        #[trigger] s.fields@[j]).name@
}

/// The canonical text of a set scalar leaf value.
pub open spec fn fmt_prim(m: ValModel) -> Seq<char> {
    match m {
        ValModel::IntV(n) => fmt_i64_spec(n),
        ValModel::BoolV(b) => fmt_bool_spec(b),
        ValModel::CharV(c) => fmt_char_spec(c),
        ValModel::StrV(t) => t,
        _ => Seq::empty(),
    }
}

/// Encode a scalar-only record's set leaf values from field `i` on, under
/// the keys the schema collects: one binding per primitive field and per
/// set optional field; an unset optional field has no binding.
pub open spec fn enc_flat(s: Schema, i: int, vals: Seq<ValModel>, prefix: Seq<char>) -> Map<
    Seq<char>,
    Seq<char>,
>
    decreases s.fields@.len() - i,
{
    if i < 0 || i >= s.fields@.len() {
        Map::empty()
    } else {
        let rest = enc_flat(s, i + 1, vals, prefix);
        let key = eff_prefix(prefix, s.fields@[i].name@);
        match s.fields@[i].ty {
            TypeRef::Primitive(_) => rest.insert(key, fmt_prim(vals[i])),
            TypeRef::Optional(_) => match vals[i] {
                ValModel::OptV(o) => match o {
                    Some(b) => rest.insert(key, fmt_prim(*b)),
                    None => rest,
                },
                _ => rest,
            },
            _ => rest,
        }
    }
}

/// The prefixing rule never conflates two field names: equal keys under
/// one prefix mean equal names.
pub proof fn lemma_eff_prefix_injective(prefix: Seq<char>, a: Seq<char>, b: Seq<char>)
    requires
        eff_prefix(prefix, a) == eff_prefix(prefix, b),
    ensures
        a == b,
{
    if prefix.len() == 0 {
    } else {
        let ka = prefix + seq!['.'] + a;
        let kb = prefix + seq!['.'] + b;
        assert(a =~= ka.subrange(prefix.len() as int + 1, ka.len() as int));
        assert(b =~= kb.subrange(prefix.len() as int + 1, kb.len() as int));
    }
}

/// A name used by no field from `i` on has no binding in the encoding
/// from `i` on.
proof fn lemma_enc_flat_absent(s: Schema, i: int, vals: Seq<ValModel>, prefix: Seq<char>, name: Seq<char>)
    requires
        forall|j: int| 0 <= j && i <= j && j < s.fields@.len() ==> (#[trigger] s.fields@[j]).name@ != name,
    ensures
        !enc_flat(s, i, vals, prefix).contains_key(eff_prefix(prefix, name)),
    decreases s.fields@.len() - i,
{
    if 0 <= i < s.fields@.len() {
        lemma_enc_flat_absent(s, i + 1, vals, prefix, name);
        if eff_prefix(prefix, s.fields@[i].name@) == eff_prefix(prefix, name) {
            lemma_eff_prefix_injective(prefix, s.fields@[i].name@, name);
        }
    }
}

/// What the encoding from `i` on binds for field `t`: the canonical text
/// of its set leaf value, and nothing for an unset optional field.
proof fn lemma_enc_flat_lookup(s: Schema, i: int, vals: Seq<ValModel>, prefix: Seq<char>, t: int)
    requires
        flat_schema(s),
        distinct_names(s),
        0 <= i <= t < s.fields@.len(),
    ensures
        ({
            let m = enc_flat(s, i, vals, prefix);
            let key = eff_prefix(prefix, s.fields@[t].name@);
            match s.fields@[t].ty {
                TypeRef::Primitive(_) => m.contains_key(key) && m[key] == fmt_prim(vals[t]),
                TypeRef::Optional(_) => match vals[t] {
                    ValModel::OptV(o) => match o {
                        Some(b) => m.contains_key(key) && m[key] == fmt_prim(*b),
                        None => !m.contains_key(key),
                    },
                    _ => !m.contains_key(key),
                },
                _ => true,
            }
        }),
    decreases t - i,
{
    let key = eff_prefix(prefix, s.fields@[t].name@);
    if i < t {
        lemma_enc_flat_lookup(s, i + 1, vals, prefix, t);
        if eff_prefix(prefix, s.fields@[i].name@) == key {
            lemma_eff_prefix_injective(prefix, s.fields@[i].name@, s.fields@[t].name@);
        }
    } else {
        assert forall|j: int|
            0 <= j && t + 1 <= j && j < s.fields@.len() implies (#[trigger] s.fields@[j]).name@
            != s.fields@[t].name@ by {}
        lemma_enc_flat_absent(s, t + 1, vals, prefix, s.fields@[t].name@);
    }
}

/// The induction behind the round trip: applying the fields from `i` on
/// against the full encoding restores every remaining field's value, and
/// leaves the fields before `i` alone.
proof fn lemma_round_trip_from<R: CustomDecode>(
    reg: R,
    s: Schema,
    i: int,
    cur: Seq<ValModel>,
    vals: Seq<ValModel>,
    prefix: Seq<char>,
)
    requires
        flat_schema(s),
        distinct_names(s),
        rec_conforms(vals, s),
        0 <= i <= s.fields@.len(),
        cur.len() == vals.len(),
        forall|j: int|
            i <= j < vals.len() && (match s.fields@[j].ty {
                TypeRef::Optional(_) => vals[j] == ValModel::OptV(None::<Box<ValModel>>),
                _ => false,
            }) ==> cur[j] == vals[j],
    ensures
        ({
            let (nv, err) = apply_fields_spec(reg, s, i, cur, prefix, enc_flat(s, 0, vals, prefix));
            &&& err is None
            &&& nv.len() == cur.len()
            &&& forall|j: int| i <= j < vals.len() ==> nv[j] == vals[j]
            &&& forall|j: int| 0 <= j < i ==> nv[j] == cur[j]
        }),
    decreases s.fields@.len() - i,
{
    let cfg = enc_flat(s, 0, vals, prefix);
    if i < s.fields@.len() {
        let f = s.fields@[i];
        let key = eff_prefix(prefix, f.name@);
        lemma_enc_flat_lookup(s, 0, vals, prefix, i);
        lemma_conforms_unfold(vals[i], f.ty);
        let (nv, err) = apply_field_spec(reg, f, cur[i], key, cfg);
        match f.ty {
            TypeRef::Primitive(k) => {
                match vals[i] {
                    ValModel::IntV(n) => lemma_parse_fmt_i64(n),
                    ValModel::BoolV(b) => lemma_parse_fmt_bool(b),
                    ValModel::CharV(c) => lemma_parse_fmt_char(c),
                    _ => {},
                }
                assert(err is None && nv == vals[i]);
            },
            TypeRef::Optional(inner) => {
                match vals[i] {
                    ValModel::OptV(o) => match o {
                        Some(b) => {
                            match *b {
                                ValModel::IntV(n) => lemma_parse_fmt_i64(n),
                                ValModel::BoolV(bb) => lemma_parse_fmt_bool(bb),
                                ValModel::CharV(c) => lemma_parse_fmt_char(c),
                                _ => {},
                            }
                            assert(Box::new(*b) == b);
                            assert(err is None && nv == vals[i]);
                        },
                        None => {
                            assert(err is None && nv == cur[i]);
                        },
                    },
                    _ => {
                        assert(false);
                    },
                }
            },
            _ => {
                assert(false);
            },
        }
        lemma_round_trip_from(reg, s, i + 1, cur.update(i, nv), vals, prefix);
        assert(apply_fields_spec(reg, s, i, cur, prefix, cfg) == apply_fields_spec(
            reg,
            s,
            i + 1,
            cur.update(i, nv),
            prefix,
            cfg,
        ));
    }
}

/// Round trip on a scalar-only schema with distinct field names: encode an
/// instance's set leaf values under the keys the schema collects, apply a
/// fresh default instance against that map, and the values come back equal
/// to the original instance's.
pub proof fn lemma_round_trip_flat<R: CustomDecode>(
    reg: R,
    s: Schema,
    vals: Seq<ValModel>,
    prefix: Seq<char>,
)
    requires
        flat_schema(s),
        distinct_names(s),
        rec_conforms(vals, s),
    ensures
        ({
            let (nv, err) = apply_rec_spec(
                reg,
                s,
                default_rec_model(s),
                prefix,
                enc_flat(s, 0, vals, prefix),
            );
            err is None && nv == vals
        }),
{
    lemma_default_rec_index(s);
    assert forall|j: int|
        0 <= j < vals.len() && (match s.fields@[j].ty {
            TypeRef::Optional(_) => vals[j] == ValModel::OptV(None::<Box<ValModel>>),
            _ => false,
        }) implies default_rec_model(s)[j] == vals[j] by {
        lemma_default_model_unfold(s.fields@[j].ty);
    }
    lemma_round_trip_from(reg, s, 0, default_rec_model(s), vals, prefix);
    let (nv, err) = apply_rec_spec(reg, s, default_rec_model(s), prefix, enc_flat(s, 0, vals, prefix));
    assert(nv =~= vals);
}


/// A parsed primitive value has the shape its kind asks for.
proof fn lemma_parse_prim_conforms(k: PrimKind, raw: Seq<char>)
    ensures
        match parse_prim(k, raw) {
            Some(v) => prim_conforms(v, k),
            None => true,
        },
{
}

/// Applying one field hands back a value of the field's declared type,
/// whatever the configuration held.
proof fn lemma_field_preserves_conforms<R: CustomDecode>(
    reg: R,
    f: FieldDecl,
    old_v: ValModel,
    key: Seq<char>,
    cfg: Map<Seq<char>, Seq<char>>,
)
    requires
        conforms(old_v, f.ty),
    ensures
        conforms(apply_field_spec(reg, f, old_v, key, cfg).0, f.ty),
    decreases f, 1int,
{
    lemma_conforms_unfold(old_v, f.ty);
    let (nv, err) = apply_field_spec(reg, f, old_v, key, cfg);
    lemma_conforms_unfold(nv, f.ty);
    match f.ty {
        TypeRef::Primitive(k) => {
            if cfg.contains_key(key) {
                lemma_parse_prim_conforms(k, cfg[key]);
            }
        },
        TypeRef::Optional(inner) => match *inner {
            TypeRef::Primitive(k) => {
                if cfg.contains_key(key) {
                    lemma_parse_prim_conforms(k, cfg[key]);
                    match parse_prim(k, cfg[key]) {
                        Some(v) => {
                            lemma_conforms_unfold(v, *inner);
                            assert(*Box::new(v) == v);
                        },
                        None => {},
                    }
                }
            },
            TypeRef::Collection(_) => {
                if cfg.contains_key(key) {
                    match json_of(cfg[key]) {
                        Some(jm) => {
                            lemma_decode_conforms(*inner, jm);
                            match decode_ty(*inner, jm) {
                                Some(v) => {
                                    assert(*Box::new(v) == v);
                                },
                                None => {},
                            }
                        },
                        None => {},
                    }
                }
            },
            TypeRef::Nested(s2) => {
                if spec_is_json(f) {
                    if cfg.contains_key(key) {
                        match json_of(cfg[key]) {
                            Some(jm) => {
                                lemma_decode_conforms(*inner, jm);
                                match decode_ty(*inner, jm) {
                                    Some(v) => {
                                        assert(*Box::new(v) == v);
                                    },
                                    None => {},
                                }
                            },
                            None => {},
                        }
                    }
                } else {
                    let start = match old_v {
                        ValModel::OptV(o) => match o {
                            Some(b) => match *b {
                                ValModel::RecV(vs) => vs,
                                _ => default_rec_model(s2),
                            },
                            None => default_rec_model(s2),
                        },
                        _ => default_rec_model(s2),
                    };
                    lemma_default_rec_conforms(s2);
                    lemma_fields_preserve_conforms(reg, s2, 0, start, key, cfg);
                    let (nvs, e2) = apply_fields_spec(reg, s2, 0, start, key, cfg);
                    lemma_conforms_unfold(ValModel::RecV(nvs), *inner);
                    assert(*Box::new(ValModel::RecV(nvs)) == ValModel::RecV(nvs));
                }
            },
            TypeRef::Optional(_) => {},
        },
        TypeRef::Collection(_) => {
            if cfg.contains_key(key) {
                match json_of(cfg[key]) {
                    Some(jm) => lemma_decode_conforms(f.ty, jm),
                    None => {},
                }
            }
        },
        TypeRef::Nested(s2) => match spec_func_name(f) {
            Some(_) => {},
            None => {
                if spec_is_json(f) {
                    if cfg.contains_key(key) {
                        match json_of(cfg[key]) {
                            Some(jm) => lemma_decode_conforms(f.ty, jm),
                            None => {},
                        }
                    }
                } else {
                    let start = match old_v {
                        ValModel::RecV(vs) => vs,
                        _ => default_rec_model(s2),
                    };
                    lemma_default_rec_conforms(s2);
                    lemma_fields_preserve_conforms(reg, s2, 0, start, key, cfg);
                }
            },
        },
    }
}

/// Applying the fields from `i` on keeps a well-shaped record well shaped.
proof fn lemma_fields_preserve_conforms<R: CustomDecode>(
    reg: R,
    s: Schema,
    i: int,
    vals: Seq<ValModel>,
    prefix: Seq<char>,
    cfg: Map<Seq<char>, Seq<char>>,
)
    requires
        rec_conforms(vals, s),
        0 <= i,
    ensures
        rec_conforms(apply_fields_spec(reg, s, i, vals, prefix, cfg).0, s),
    decreases s, s.fields@.len() - i + 2,
{
    lemma_rec_conforms_unfold(vals, s);
    if i < s.fields@.len() {
        let f = s.fields@[i];
        lemma_field_preserves_conforms(reg, f, vals[i], eff_prefix(prefix, f.name@), cfg);
        let (nv, err) = apply_field_spec(reg, f, vals[i], eff_prefix(prefix, f.name@), cfg);
        let vals2 = vals.update(i, nv);
        assert(rec_conforms(vals2, s)) by {
            lemma_rec_conforms_unfold(vals2, s);
            assert(forall|j: int|
                0 <= j < vals2.len() && j != i ==> vals2[j] == #[trigger] vals[j]);
        }
        match err {
            Some(_) => {},
            None => {
                lemma_fields_preserve_conforms(reg, s, i + 1, vals2, prefix, cfg);
            },
        }
    }
}

/// Apply preserves the instance's shape: a record that is well shaped for
/// its schema stays well shaped, whether or not the apply succeeded.
pub proof fn lemma_apply_preserves_conforms<R: CustomDecode>(
    reg: R,
    s: Schema,
    vals: Seq<ValModel>,
    prefix: Seq<char>,
    cfg: Map<Seq<char>, Seq<char>>,
)
    requires
        rec_conforms(vals, s),
    ensures
        rec_conforms(apply_rec_spec(reg, s, vals, prefix, cfg).0, s),
{
    lemma_fields_preserve_conforms(reg, s, 0, vals, prefix, cfg);
}


/// Two configurations that agree on a set of keys: each key is bound in
/// one exactly when it is bound in the other, and to the same raw value.
pub open spec fn maps_agree_on(
    keys: Seq<Seq<char>>,
    a: Map<Seq<char>, Seq<char>>,
    b: Map<Seq<char>, Seq<char>>,
) -> bool {
    forall|k: Seq<char>|
        keys.contains(k) ==> (a.contains_key(k) == b.contains_key(k) && (a.contains_key(k)
            ==> a[k] == b[k]))
}

/// Agreement on a concatenation is agreement on both parts.
proof fn lemma_agree_split(
    x: Seq<Seq<char>>,
    y: Seq<Seq<char>>,
    a: Map<Seq<char>, Seq<char>>,
    b: Map<Seq<char>, Seq<char>>,
)
    requires
        maps_agree_on(x + y, a, b),
    ensures
        maps_agree_on(x, a, b),
        maps_agree_on(y, a, b),
{
    assert forall|k: Seq<char>| x.contains(k) implies (x + y).contains(k) by {
        let idx = choose|i: int| 0 <= i < x.len() && x[i] == k;
        assert((x + y)[idx] == k);
    }
    assert forall|k: Seq<char>| y.contains(k) implies (x + y).contains(k) by {
        let idx = choose|i: int| 0 <= i < y.len() && y[i] == k;
        assert((x + y)[idx + x.len()] == k);
    }
}

/// Applying one field gives the same outcome under two configurations that
/// agree on the keys the field contributes to key collection.
proof fn lemma_field_frame<R: CustomDecode>(
    reg: R,
    f: FieldDecl,
    old_v: ValModel,
    prefix: Seq<char>,
    cfg1: Map<Seq<char>, Seq<char>>,
    cfg2: Map<Seq<char>, Seq<char>>,
)
    requires
        maps_agree_on(field_keys(f, prefix), cfg1, cfg2),
    ensures
        apply_field_spec(reg, f, old_v, eff_prefix(prefix, f.name@), cfg1) == apply_field_spec(
            reg,
            f,
            old_v,
            eff_prefix(prefix, f.name@),
            cfg2,
        ),
    decreases f, 1int,
{
    let key = eff_prefix(prefix, f.name@);
    match f.ty {
        TypeRef::Nested(s2) => {
            if spec_attr_name(f) is Some {
                assert(field_keys(f, prefix)[0] == key);
                assert(field_keys(f, prefix).contains(key));
            } else {
                let start = match old_v {
                    ValModel::RecV(vs) => vs,
                    _ => default_rec_model(s2),
                };
                lemma_fields_frame(reg, s2, 0, start, key, cfg1, cfg2);
            }
        },
        TypeRef::Optional(inner) => match *inner {
            TypeRef::Nested(s2) => {
                if spec_is_json(f) {
                    assert(field_keys(f, prefix)[0] == key);
                    assert(field_keys(f, prefix).contains(key));
                } else {
                    let start = match old_v {
                        ValModel::OptV(o) => match o {
                            Some(b) => match *b {
                                ValModel::RecV(vs) => vs,
                                _ => default_rec_model(s2),
                            },
                            None => default_rec_model(s2),
                        },
                        _ => default_rec_model(s2),
                    };
                    lemma_fields_frame(reg, s2, 0, start, key, cfg1, cfg2);
                }
            },
            _ => {
                assert(field_keys(f, prefix)[0] == key);
                assert(field_keys(f, prefix).contains(key));
            },
        },
        _ => {
            assert(field_keys(f, prefix)[0] == key);
            assert(field_keys(f, prefix).contains(key));
        },
    }
}

/// Applying the fields from `i` on gives the same outcome under two
/// configurations that agree on the keys those fields contribute.
proof fn lemma_fields_frame<R: CustomDecode>(
    reg: R,
    s: Schema,
    i: int,
    vals: Seq<ValModel>,
    prefix: Seq<char>,
    cfg1: Map<Seq<char>, Seq<char>>,
    cfg2: Map<Seq<char>, Seq<char>>,
)
    requires
        maps_agree_on(keys_from(s, i, prefix), cfg1, cfg2),
    ensures
        apply_fields_spec(reg, s, i, vals, prefix, cfg1) == apply_fields_spec(
            reg,
            s,
            i,
            vals,
            prefix,
            cfg2,
        ),
    decreases s, s.fields@.len() - i + 2,
{
    if 0 <= i < s.fields@.len() {
        let f = s.fields@[i];
        lemma_agree_split(field_keys(f, prefix), keys_from(s, i + 1, prefix), cfg1, cfg2);
        lemma_field_frame(reg, f, vals[i], prefix, cfg1, cfg2);
        let (nv, err) = apply_field_spec(reg, f, vals[i], eff_prefix(prefix, f.name@), cfg1);
        match err {
            Some(_) => {},
            None => {
                lemma_fields_frame(reg, s, i + 1, vals.update(i, nv), prefix, cfg1, cfg2);
            },
        }
    }
}

/// The two operations stay in lockstep: apply reads no key that
/// `collect_keys` would not produce.  Two configurations that agree on
/// every collected key give apply the same new instance and the same
/// outcome, so binding never depends on any other key.
pub proof fn lemma_apply_reads_only_collected_keys<R: CustomDecode>(
    reg: R,
    s: Schema,
    vals: Seq<ValModel>,
    prefix: Seq<char>,
    cfg1: Map<Seq<char>, Seq<char>>,
    cfg2: Map<Seq<char>, Seq<char>>,
)
    requires
        maps_agree_on(rec_keys(s, prefix), cfg1, cfg2),
    ensures
        apply_rec_spec(reg, s, vals, prefix, cfg1) == apply_rec_spec(reg, s, vals, prefix, cfg2),
{
    lemma_fields_frame(reg, s, 0, vals, prefix, cfg1, cfg2);
}

} // verus!




