//! The apply operation: pull values from the flat map into an instance.

use vstd::prelude::*;

use crate::engine::{
    apply_field_spec, apply_fields_spec, apply_rec_spec, eff_prefix, eview, lemma_apply_fields_end,
    lemma_apply_fields_step, lemma_apply_rec_unfold, opt_eview, parse_prim, valid_field,
    valid_schema, ApplyError, CustomDecode,
};
use crate::field_type::{
    decode_directive, is_serde_with_json, DecodeDirective, FieldDecl, PrimKind, Schema, TypeRef,
};
use crate::flat::FlatConfig;
use crate::json::{decode_raw, decode_raw_value};
use crate::keys::{make_key, make_prefix};
use crate::scalar::{parse_bool, parse_char, parse_i64};
use crate::value::{
    check_value, conforms, default_record, lemma_conforms_unfold, lemma_default_rec_conforms,
    lemma_rec_conforms_unfold, lemma_views_index, lemma_vview_unfold, opt_vview, rec_conforms,
    views, vview, CfgValue, ValModel,
};

verus! {

/// Parse a raw string into a primitive value of the given kind.
fn parse_prim_value(k: &PrimKind, raw: &String) -> (r: Option<CfgValue>)
    ensures
        opt_vview(r) == parse_prim(*k, raw@),
{
    match *k {
        PrimKind::Int => match parse_i64(raw.as_str()) {
            Some(n) => {
                proof {
                    lemma_vview_unfold(CfgValue::IntV(n));
                }
                Some(CfgValue::IntV(n))
            },
            None => None,
        },
        PrimKind::Boolean => match parse_bool(raw.as_str()) {
            Some(b) => {
                proof {
                    lemma_vview_unfold(CfgValue::BoolV(b));
                }
                Some(CfgValue::BoolV(b))
            },
            None => None,
        },
        PrimKind::Character => match parse_char(raw.as_str()) {
            Some(c) => {
                proof {
                    lemma_vview_unfold(CfgValue::CharV(c));
                }
                Some(CfgValue::CharV(c))
            },
            None => None,
        },
        PrimKind::Text => {
            let x = raw.clone();
            proof {
                lemma_vview_unfold(CfgValue::StrV(x));
            }
            Some(CfgValue::StrV(x))
        },
    }
}

/// Wrap a decoded value as a present optional.
fn wrap_some(v: CfgValue) -> (r: CfgValue)
    ensures
        vview(r) == ValModel::OptV(Some(Box::new(vview(v)))),
{
    proof {
        lemma_vview_unfold(CfgValue::OptV(Some(Box::new(v))));
        assert(*Box::new(v) == v);
    }
    CfgValue::OptV(Some(Box::new(v)))
}

/// Wrap applied record fields back up as a record value.
fn wrap_rec(vs: Vec<CfgValue>) -> (r: CfgValue)
    ensures
        vview(r) == ValModel::RecV(views(vs@)),
{
    proof {
        lemma_vview_unfold(CfgValue::RecV(vs));
    }
    CfgValue::RecV(vs)
}

/// Apply one field of a record: look its key up, parse, decode or recurse
/// as its shape and directive ask, and hand back the new field value with
/// the error, if any.
fn apply_field<R: CustomDecode>(
    f: &FieldDecl,
    reg: &R,
    old_v: CfgValue,
    key: &String,
    cfg: &FlatConfig,
) -> (r: (CfgValue, Option<ApplyError>))
    requires
        valid_field(*reg, *f),
        conforms(vview(old_v), f.ty),
    ensures
        ({
            let (nm, em) = apply_field_spec(*reg, *f, vview(old_v), key@, cfg@);
            vview(r.0) == nm && opt_eview(r.1) == em
        }),
    decreases *f, 0int,
{
    proof {
        lemma_vview_unfold(old_v);
        lemma_conforms_unfold(vview(old_v), f.ty);
    }
    match &f.ty {
        TypeRef::Primitive(k) => match cfg.get(key) {
            Some(raw) => match parse_prim_value(k, raw) {
                Some(v) => (v, None),
                None => {
                    let e = ApplyError::ParseFailure {
                        key: key.clone(),
                        raw: raw.clone(),
                        kind: *k,
                    };
                    (old_v, Some(e))
                },
            },
            None => (old_v, Some(ApplyError::MissingKey { key: key.clone() })),
        },
        TypeRef::Optional(inner) => match &**inner {
            TypeRef::Primitive(k) => match cfg.get(key) {
                Some(raw) => match parse_prim_value(k, raw) {
                    Some(v) => (wrap_some(v), None),
                    None => {
                        let e = ApplyError::ParseFailure {
                            key: key.clone(),
                            raw: raw.clone(),
                            kind: *k,
                        };
                        (old_v, Some(e))
                    },
                },
                None => (old_v, None),
            },
            TypeRef::Collection(_) => match cfg.get(key) {
                Some(raw) => match decode_raw_value(inner, raw) {
                    Some(v) => (wrap_some(v), None),
                    None => {
                        let e = ApplyError::DecodeFailure { key: key.clone(), raw: raw.clone() };
                        (old_v, Some(e))
                    },
                },
                None => (old_v, None),
            },
            TypeRef::Nested(s2) => {
                if is_serde_with_json(f) {
                    match cfg.get(key) {
                        Some(raw) => match decode_raw_value(inner, raw) {
                            Some(v) => (wrap_some(v), None),
                            None => {
                                let e = ApplyError::DecodeFailure {
                                    key: key.clone(),
                                    raw: raw.clone(),
                                };
                                (old_v, Some(e))
                            },
                        },
                        None => (old_v, None),
                    }
                } else {
                    let start: Vec<CfgValue> = match old_v {
                        CfgValue::OptV(o) => match o {
                            Some(b) => {
                                let bv = *b;
                                proof {
                                    lemma_vview_unfold(bv);
                                    lemma_conforms_unfold(vview(bv), **inner);
                                }
                                match bv {
                                    CfgValue::RecV(vs) => vs,
                                    _ => default_record(s2),
                                }
                            },
                            None => default_record(s2),
                        },
                        _ => default_record(s2),
                    };
                    let mut nvs = start;
                    proof {
                        lemma_default_rec_conforms(*s2);
                        assert(rec_conforms(views(nvs@), *s2));
                    }
                    let err = apply_record(s2, reg, &mut nvs, key, cfg);
                    (wrap_some(wrap_rec(nvs)), err)
                }
            },
            TypeRef::Optional(_) => (old_v, None),
        },
        TypeRef::Collection(_) => match cfg.get(key) {
            Some(raw) => match decode_raw_value(&f.ty, raw) {
                Some(v) => (v, None),
                None => {
                    let e = ApplyError::DecodeFailure { key: key.clone(), raw: raw.clone() };
                    (old_v, Some(e))
                },
            },
            None => (old_v, Some(ApplyError::MissingKey { key: key.clone() })),
        },
        TypeRef::Nested(s2) => match decode_directive(f) {
            Some(DecodeDirective::WithFunction(n)) => match cfg.get(key) {
                Some(raw) => match reg.decode(&n, raw) {
                    Some(v) => {
                        if check_value(&v, &f.ty) {
                            (v, None)
                        } else {
                            let e = ApplyError::DecodeFailure {
                                key: key.clone(),
                                raw: raw.clone(),
                            };
                            (old_v, Some(e))
                        }
                    },
                    None => {
                        let e = ApplyError::DecodeFailure { key: key.clone(), raw: raw.clone() };
                        (old_v, Some(e))
                    },
                },
                None => (old_v, Some(ApplyError::MissingKey { key: key.clone() })),
            },
            Some(DecodeDirective::WithJson) => match cfg.get(key) {
                Some(raw) => match decode_raw_value(&f.ty, raw) {
                    Some(v) => (v, None),
                    None => {
                        let e = ApplyError::DecodeFailure { key: key.clone(), raw: raw.clone() };
                        (old_v, Some(e))
                    },
                },
                None => (old_v, Some(ApplyError::MissingKey { key: key.clone() })),
            },
            None => {
                let start: Vec<CfgValue> = match old_v {
                    CfgValue::RecV(vs) => vs,
                    _ => default_record(s2),
                };
                let mut nvs = start;
                proof {
                    lemma_default_rec_conforms(*s2);
                    assert(rec_conforms(views(nvs@), *s2));
                }
                let err = apply_record(s2, reg, &mut nvs, key, cfg);
                (wrap_rec(nvs), err)
            },
        },
    }
}

/// Apply a whole record: walk the fields in declaration order, stop at the
/// first error, and hand back the new field values with the error, if any.
/// Fields updated before a failure keep their new values.
#[verifier::loop_isolation(false)]
pub fn apply_record<R: CustomDecode>(
    s: &Schema,
    reg: &R,
    vals: &mut Vec<CfgValue>,
    prefix: &String,
    cfg: &FlatConfig,
) -> (r: Option<ApplyError>)
    requires
        valid_schema(*reg, *s),
        rec_conforms(views(old(vals)@), *s),
    ensures
        ({
            let (nm, em) = apply_rec_spec(*reg, *s, views(old(vals)@), prefix@, cfg@);
            views(final(vals)@) == nm && opt_eview(r) == em
        }),
    decreases *s, 1int,
{
    let ghost orig = old(vals)@;
    proof {
        lemma_apply_rec_unfold(*reg, *s, views(orig), prefix@, cfg@);
        lemma_rec_conforms_unfold(views(orig), *s);
        lemma_views_index(orig);
    }
    let eff = make_prefix(prefix);
    let mut rest: Vec<CfgValue> = Vec::new();
    core::mem::swap(vals, &mut rest);
    let mut done: Vec<CfgValue> = Vec::new();
    let n = s.fields.len();
    proof {
        assert(rest@ =~= orig.skip(0));
    }
    let mut i: usize = 0;
    while i < n
        invariant
            0 <= i <= n,
            n == s.fields@.len(),
            valid_schema(*reg, *s),
            rec_conforms(views(orig), *s),
            done@.len() == i,
            rest@.len() == n - i,
            rest@ == orig.skip(i as int),
            eff@ == if prefix@.len() == 0 {
                Seq::<char>::empty()
            } else {
                prefix@ + seq!['.']
            },
            apply_fields_spec(*reg, *s, 0, views(orig), prefix@, cfg@) == apply_fields_spec(
                *reg,
                *s,
                i as int,
                views(done@) + views(rest@),
                prefix@,
                cfg@,
            ),
        decreases n - i,
    {
        let ghost pre = views(done@) + views(rest@);
        let f = &s.fields[i];
        let key = make_key(&eff, &f.name, Ghost(prefix@));
        let oldv = rest.remove(0);
        proof {
            lemma_views_index(orig);
            lemma_views_index(done@);
            lemma_views_index(rest@);
            assert(valid_field(*reg, s.fields@[i as int]));
            assert(oldv == orig[i as int]);
            lemma_rec_conforms_unfold(views(orig), *s);
            assert(views(orig)[i as int] == vview(oldv));
            assert(conforms(vview(oldv), s.fields@[i as int].ty));
            assert(pre[i as int] == vview(oldv));
            assert(rest@ =~= orig.skip(i as int + 1));
        }
        let (nv, err) = apply_field(f, reg, oldv, &key, cfg);
        done.push(nv);
        proof {
            lemma_apply_fields_step(*reg, *s, i as int, pre, prefix@, cfg@);
            lemma_views_index(done@);
            lemma_views_index(rest@);
            assert(pre.update(i as int, vview(nv)) =~= views(done@) + views(rest@));
        }
        match err {
            Some(e) => {
                let ghost combined = views(done@) + views(rest@);
                done.append(&mut rest);
                proof {
                    lemma_views_index(done@);
                    assert(views(done@) =~= combined);
                    let fi = s.fields@[i as int];
                    let (nm0, em0) = apply_field_spec(
                        *reg,
                        fi,
                        pre[i as int],
                        eff_prefix(prefix@, fi.name@),
                        cfg@,
                    );
                    assert(vview(nv) == nm0);
                    assert(em0 == Some(eview(e)));
                    assert(apply_fields_spec(*reg, *s, i as int, pre, prefix@, cfg@) == (
                        pre.update(i as int, nm0),
                        Some(eview(e)),
                    ));
                    assert(views(done@) == pre.update(i as int, nm0));
                    assert(apply_fields_spec(*reg, *s, 0, views(orig), prefix@, cfg@) == (
                        views(done@),
                        Some(eview(e)),
                    ));
                }
                *vals = done;
                proof {
                    assert(old(vals)@ == orig);
                    assert(vals@ == done@);
                    assert(apply_rec_spec(*reg, *s, views(old(vals)@), prefix@, cfg@) == (
                        views(vals@),
                        Some(eview(e)),
                    ));
                }
                return Some(e);
            },
            None => {},
        }
        i += 1;
    }
    proof {
        lemma_apply_fields_end(*reg, *s, n as int, views(done@) + views(rest@), prefix@, cfg@);
        assert(views(done@) + views(rest@) =~= views(done@));
    }
    *vals = done;
    None
}

/// Apply the flat configuration to a record instance in place: the
/// mutating form of [`apply_record`].
pub fn apply<R: CustomDecode>(
    s: &Schema,
    reg: &R,
    vals: &mut Vec<CfgValue>,
    prefix: &String,
    cfg: &FlatConfig,
) -> (r: Result<(), ApplyError>)
    requires
        valid_schema(*reg, *s),
        rec_conforms(views(old(vals)@), *s),
    ensures
        ({
            let (nm, em) = apply_rec_spec(*reg, *s, views(old(vals)@), prefix@, cfg@);
            views(final(vals)@) == nm && (match r {
                Ok(()) => em is None,
                Err(e) => em == Some(eview(e)),
            })
        }),
{
    match apply_record(s, reg, vals, prefix, cfg) {
        Some(e) => Err(e),
        None => Ok(()),
    }
}

} // verus!
