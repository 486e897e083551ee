//! JSON documents for whole-value decoding.
//!
//! The engine treats a collection-shaped or JSON-directed field as one
//! opaque unit: the raw string value is one JSON document.  Parsing the
//! text is the JSON library's job, behind [`parse_json`]; everything after
//! the parse — walking the document against the declared type — is the
//! library's own verified logic.

use vstd::prelude::*;

use crate::field_type::{CollKind, FieldDecl, PrimKind, Schema, TypeRef};
use crate::value::{conforms, opt_vview, rec_conforms, views, vview, CfgValue, ValModel};

verus! {

/// A JSON document, restricted to the engine's value model: numbers are
/// signed machine integers.
pub enum Json {
    Null,
    Bool(bool),
    Int(i64),
    Str(String),
    Arr(Vec<Json>),
    Obj(Vec<(String, Json)>),
}

/// The mathematical model of a JSON document.
pub enum JsonModel {
    Null,
    Bool(bool),
    Int(i64),
    Str(Seq<char>),
    Arr(Seq<JsonModel>),
    Obj(Seq<(Seq<char>, JsonModel)>),
}

/// The deep view of a JSON document.
pub open spec fn jview(j: Json) -> JsonModel
    decreases j, 2int,
{
    match j {
        Json::Null => JsonModel::Null,
        Json::Bool(b) => JsonModel::Bool(b),
        Json::Int(n) => JsonModel::Int(n),
        Json::Str(s) => JsonModel::Str(s@),
        Json::Arr(items) => JsonModel::Arr(jviews(items@)),
        Json::Obj(members) => JsonModel::Obj(jmviews(members@)),
    }
}

/// The deep views of an array's elements.
pub open spec fn jviews(items: Seq<Json>) -> Seq<JsonModel>
    decreases items, 1int,
{
    Seq::new(items.len(), |i: int| jview_at(items, i))
}

/// The deep view of one array element.
pub open spec fn jview_at(items: Seq<Json>, i: int) -> JsonModel
    decreases items, 0int,
{
    if 0 <= i < items.len() {
        jview(items[i])
    } else {
        JsonModel::Null
    }
}

/// The deep views of an object's members.
pub open spec fn jmviews(ms: Seq<(String, Json)>) -> Seq<(Seq<char>, JsonModel)>
    decreases ms, 1int,
{
    Seq::new(ms.len(), |i: int| jmview_at(ms, i))
}

/// The deep view of one object member.
pub open spec fn jmview_at(ms: Seq<(String, Json)>, i: int) -> (Seq<char>, JsonModel)
    decreases ms, 0int,
{
    if 0 <= i < ms.len() {
        (ms[i].0@, jview(ms[i].1))
    } else {
        (Seq::empty(), JsonModel::Null)
    }
}

/// The document a text parses to, or `None` where it is not valid JSON.
/// Which it is depends on the text alone; [`parse_json`] is the one place
/// that relates this name to the JSON library.
pub uninterp spec fn json_of(s: Seq<char>) -> Option<JsonModel>;

/// `serde_json::Value`, declared so that the conversion out of it can stand
/// in a signature; the library never looks inside a value of this type.
#[verifier::external_type_specification]
#[verifier::external_body]
pub struct ExValue(serde_json::Value);

/// Relies on the variants of `serde_json::Value`: each one is moved
/// one-for-one onto the library's own JSON tree.  Numbers that do not fit
/// `i64` lie outside the engine's value model and become `Null`; object
/// members keep serde_json's map order, which with default features is
/// ascending key order.
#[verifier::external_body]
fn json_from_serde(v: serde_json::Value) -> Json {
    match v {
        serde_json::Value::Null => Json::Null,
        serde_json::Value::Bool(b) => Json::Bool(b),
        serde_json::Value::Number(n) => match n.as_i64() {
            Some(i) => Json::Int(i),
            None => Json::Null,
        },
        serde_json::Value::String(s) => Json::Str(s),
        serde_json::Value::Array(a) => Json::Arr(a.into_iter().map(json_from_serde).collect()),
        serde_json::Value::Object(m) => Json::Obj(
            m.into_iter().map(|e| (e.0, json_from_serde(e.1))).collect(),
        ),
    }
}

/// Relies on `serde_json::from_str::<serde_json::Value>`: whether a text is
/// valid JSON, and the document it denotes, depend on the text alone.  The
/// parsed document, carried onto the library's own tree, is exactly what
/// [`json_of`] names; a parse failure is exactly `json_of == None`.
#[verifier::external_body]
pub fn parse_json(s: &str) -> (r: Option<Json>)
    ensures
        match r {
            Some(j) => json_of(s@) == Some(jview(j)),
            None => json_of(s@) is None,
        },
{
    match serde_json::from_str::<serde_json::Value>(s) {
        Ok(v) => Some(json_from_serde(v)),
        Err(_) => None,
    }
}

/// The first member of an object with the given name, if any.
pub open spec fn jlookup(ms: Seq<(Seq<char>, JsonModel)>, name: Seq<char>) -> Option<JsonModel>
    decreases ms.len(),
{
    if ms.len() == 0 {
        None
    } else if ms[0].0 == name {
        Some(ms[0].1)
    } else {
        jlookup(ms.drop_first(), name)
    }
}

/// An array of strings, as the string sequence it denotes; `None` where any
/// element is not a string.
pub open spec fn decode_strings(items: Seq<JsonModel>) -> Option<Seq<Seq<char>>>
    decreases items.len(),
{
    if items.len() == 0 {
        Some(Seq::empty())
    } else {
        match items[0] {
            JsonModel::Str(s) => match decode_strings(items.drop_first()) {
                Some(rest) => Some(seq![s] + rest),
                None => None,
            },
            _ => None,
        }
    }
}

/// An object with string members, as the key-value pairs it denotes; `None`
/// where any member value is not a string.
pub open spec fn decode_string_pairs(ms: Seq<(Seq<char>, JsonModel)>) -> Option<
    Seq<(Seq<char>, Seq<char>)>,
>
    decreases ms.len(),
{
    if ms.len() == 0 {
        Some(Seq::empty())
    } else {
        match ms[0].1 {
            JsonModel::Str(s) => match decode_string_pairs(ms.drop_first()) {
                Some(rest) => Some(seq![(ms[0].0, s)] + rest),
                None => None,
            },
            _ => None,
        }
    }
}

/// Decode a JSON document into a value of a declared type: integers,
/// booleans and strings must match their scalar kind, a one-character
/// string decodes a character, `null` or absence decodes an unset optional,
/// arrays and objects of strings decode the collections, and an object
/// decodes a nested record field by field.
pub open spec fn decode_ty(ty: TypeRef, jm: JsonModel) -> Option<ValModel>
    decreases ty, 1int,
{
    match ty {
        TypeRef::Primitive(k) => match k {
            PrimKind::Int => match jm {
                JsonModel::Int(n) => Some(ValModel::IntV(n)),
                _ => None,
            },
            PrimKind::Boolean => match jm {
                JsonModel::Bool(b) => Some(ValModel::BoolV(b)),
                _ => None,
            },
            PrimKind::Character => match jm {
                JsonModel::Str(s) => if s.len() == 1 {
                    Some(ValModel::CharV(s[0]))
                } else {
                    None
                },
                _ => None,
            },
            PrimKind::Text => match jm {
                JsonModel::Str(s) => Some(ValModel::StrV(s)),
                _ => None,
            },
        },
        TypeRef::Optional(inner) => match jm {
            JsonModel::Null => Some(ValModel::OptV(None)),
            _ => match decode_ty(*inner, jm) {
                Some(v) => Some(ValModel::OptV(Some(Box::new(v)))),
                None => None,
            },
        },
        TypeRef::Collection(k) => match k {
            CollKind::StrSeq => match jm {
                JsonModel::Arr(items) => match decode_strings(items) {
                    Some(ss) => Some(ValModel::SeqV(ss)),
                    None => None,
                },
                _ => None,
            },
            CollKind::StrMap => match jm {
                JsonModel::Obj(ms) => match decode_string_pairs(ms) {
                    Some(ps) => Some(ValModel::MapV(ps)),
                    None => None,
                },
                _ => None,
            },
        },
        TypeRef::Nested(s) => match jm {
            JsonModel::Obj(ms) => match decode_fields(s, 0, ms) {
                Some(vs) => Some(ValModel::RecV(vs)),
                None => None,
            },
            _ => None,
        },
    }
}

/// Decode one field of a nested record from an object's members: an absent
/// member is allowed only for an optional field, which stays unset.
pub open spec fn decode_field_entry(f: FieldDecl, ms: Seq<(Seq<char>, JsonModel)>) -> Option<
    ValModel,
>
    decreases f, 2int,
{
    match jlookup(ms, f.name@) {
        Some(jm) => decode_ty(f.ty, jm),
        None => match f.ty {
            TypeRef::Optional(_) => Some(ValModel::OptV(None)),
            _ => None,
        },
    }
}

/// Decode the fields of a schema from index `i` on.
pub open spec fn decode_fields(s: Schema, i: int, ms: Seq<(Seq<char>, JsonModel)>) -> Option<
    Seq<ValModel>,
>
    decreases s, s.fields@.len() - i + 3,
{
    if i < 0 || i >= s.fields@.len() {
        Some(Seq::empty())
    } else {
        match decode_field_entry(s.fields@[i], ms) {
            Some(v) => match decode_fields(s, i + 1, ms) {
                Some(rest) => Some(seq![v] + rest),
                None => None,
            },
            None => None,
        }
    }
}

/// A decoded value is well shaped for the type it was decoded at.
pub proof fn lemma_decode_conforms(ty: TypeRef, jm: JsonModel)
    ensures
        match decode_ty(ty, jm) {
            Some(m) => conforms(m, ty),
            None => true,
        },
    decreases ty, 1int,
{
    match ty {
        TypeRef::Primitive(k) => {},
        TypeRef::Optional(inner) => {
            if !(jm is Null) {
                lemma_decode_conforms(*inner, jm);
            }
        },
        TypeRef::Collection(k) => {},
        TypeRef::Nested(s) => {
            match jm {
                JsonModel::Obj(ms) => {
                    lemma_decode_fields_conforms(s, 0, ms);
                    match decode_fields(s, 0, ms) {
                        Some(vs) => {
                            assert forall|j: int| 0 <= j < vs.len() implies conforms(
                                #[trigger] vs[j],
                                s.fields@[j].ty,
                            ) by {
                                assert(conforms(vs[j], s.fields@[0 + j].ty));
                            }
                            assert(rec_conforms(vs, s));
                        },
                        None => {},
                    }
                },
                _ => {},
            }
        },
    }
}

/// Decoded record fields are well shaped, field by field.
pub proof fn lemma_decode_fields_conforms(s: Schema, i: int, ms: Seq<(Seq<char>, JsonModel)>)
    ensures
        match decode_fields(s, i, ms) {
            Some(vs) => {
                &&& 0 <= i <= s.fields@.len() ==> vs.len() == s.fields@.len() - i
                &&& forall|j: int|
                    0 <= j < vs.len() && 0 <= i + j < s.fields@.len() ==> conforms(
                        #[trigger] vs[j],
                        s.fields@[i + j].ty,
                    )
            },
            None => true,
        },
    decreases s, s.fields@.len() - i + 3,
{
    if i < 0 || i >= s.fields@.len() {
    } else {
        match decode_field_entry(s.fields@[i], ms) {
            Some(v) => {
                assert(conforms(v, s.fields@[i].ty)) by {
                    match jlookup(ms, s.fields@[i].name@) {
                        Some(jm) => {
                            lemma_decode_conforms(s.fields@[i].ty, jm);
                        },
                        None => {},
                    }
                }
                lemma_decode_fields_conforms(s, i + 1, ms);
            },
            None => {},
        }
    }
}

/// Look a member up by name, first match first.
fn jget_from<'a>(ms: &'a Vec<(String, Json)>, i: usize, name: &String) -> (r: Option<&'a Json>)
    requires
        i <= ms@.len(),
    ensures
        match r {
            Some(j) => jlookup(jmviews(ms@).skip(i as int), name@) == Some(jview(*j)),
            None => jlookup(jmviews(ms@).skip(i as int), name@) is None,
        },
    decreases ms@.len() - i,
{
    if i == ms.len() {
        proof {
            assert(jmviews(ms@).skip(i as int) =~= Seq::<(Seq<char>, JsonModel)>::empty());
        }
        return None;
    }
    proof {
        assert(jmviews(ms@).skip(i as int)[0] == jmviews(ms@)[i as int]);
        assert(jmviews(ms@).skip(i as int).drop_first() =~= jmviews(ms@).skip(i as int + 1));
    }
    if ms[i].0 == *name {
        Some(&ms[i].1)
    } else {
        jget_from(ms, i + 1, name)
    }
}

/// The views of a string vector.
pub open spec fn str_views(v: Seq<String>) -> Seq<Seq<char>> {
    v.map_values(|s: String| s@)
}

/// The views of a string-pair vector.
pub open spec fn pair_views(v: Seq<(String, String)>) -> Seq<(Seq<char>, Seq<char>)> {
    v.map_values(|p: (String, String)| (p.0@, p.1@))
}

/// Decode the elements of a string array from index `i` on.
fn decode_strings_from(items: &Vec<Json>, i: usize) -> (r: Option<Vec<String>>)
    requires
        i <= items@.len(),
    ensures
        match r {
            Some(v) => decode_strings(jviews(items@).skip(i as int)) == Some(str_views(v@)),
            None => decode_strings(jviews(items@).skip(i as int)) is None,
        },
    decreases items@.len() - i,
{
    if i == items.len() {
        proof {
            assert(jviews(items@).skip(i as int) =~= Seq::<JsonModel>::empty());
            assert(str_views(Seq::<String>::empty()) =~= Seq::<Seq<char>>::empty());
        }
        return Some(Vec::new());
    }
    proof {
        assert(jviews(items@).skip(i as int)[0] == jviews(items@)[i as int]);
        assert(jviews(items@).skip(i as int).drop_first() =~= jviews(items@).skip(i as int + 1));
    }
    match &items[i] {
        Json::Str(s) => match decode_strings_from(items, i + 1) {
            Some(mut rest) => {
                let ghost old_rest = rest@;
                rest.insert(0, s.clone());
                proof {
                    assert(str_views(rest@) =~= seq![s@] + str_views(old_rest));
                }
                Some(rest)
            },
            None => None,
        },
        _ => None,
    }
}

/// Decode the members of a string-valued object from index `i` on.
fn decode_pairs_from(ms: &Vec<(String, Json)>, i: usize) -> (r: Option<Vec<(String, String)>>)
    requires
        i <= ms@.len(),
    ensures
        match r {
            Some(v) => decode_string_pairs(jmviews(ms@).skip(i as int)) == Some(pair_views(v@)),
            None => decode_string_pairs(jmviews(ms@).skip(i as int)) is None,
        },
    decreases ms@.len() - i,
{
    if i == ms.len() {
        proof {
            assert(jmviews(ms@).skip(i as int) =~= Seq::<(Seq<char>, JsonModel)>::empty());
            assert(pair_views(Seq::<(String, String)>::empty()) =~= Seq::<
                (Seq<char>, Seq<char>),
            >::empty());
        }
        return Some(Vec::new());
    }
    proof {
        assert(jmviews(ms@).skip(i as int)[0] == jmviews(ms@)[i as int]);
        assert(jmviews(ms@).skip(i as int).drop_first() =~= jmviews(ms@).skip(i as int + 1));
    }
    match &ms[i].1 {
        Json::Str(s) => match decode_pairs_from(ms, i + 1) {
            Some(mut rest) => {
                let ghost old_rest = rest@;
                rest.insert(0, (ms[i].0.clone(), s.clone()));
                proof {
                    assert(pair_views(rest@) =~= seq![(ms@[i as int].0@, s@)] + pair_views(
                        old_rest,
                    ));
                }
                Some(rest)
            },
            None => None,
        },
        _ => None,
    }
}

/// Decode a JSON document into a value of a declared type.
pub fn decode_json_value(ty: &TypeRef, j: &Json) -> (r: Option<CfgValue>)
    ensures
        opt_vview(r) == decode_ty(*ty, jview(*j)),
    decreases *ty, 1int,
{
    match ty {
        TypeRef::Primitive(k) => match k {
            PrimKind::Int => match j {
                Json::Int(n) => Some(CfgValue::IntV(*n)),
                _ => None,
            },
            PrimKind::Boolean => match j {
                Json::Bool(b) => Some(CfgValue::BoolV(*b)),
                _ => None,
            },
            PrimKind::Character => match j {
                Json::Str(s) => {
                    if s.as_str().unicode_len() == 1 {
                        Some(CfgValue::CharV(s.as_str().get_char(0)))
                    } else {
                        None
                    }
                },
                _ => None,
            },
            PrimKind::Text => match j {
                Json::Str(s) => Some(CfgValue::StrV(s.clone())),
                _ => None,
            },
        },
        TypeRef::Optional(inner) => match j {
            Json::Null => Some(CfgValue::OptV(None)),
            _ => match decode_json_value(inner, j) {
                Some(v) => Some(CfgValue::OptV(Some(Box::new(v)))),
                None => None,
            },
        },
        TypeRef::Collection(k) => match k {
            CollKind::StrSeq => match j {
                Json::Arr(items) => {
                    proof {
                        assert(jviews(items@).skip(0) =~= jviews(items@));
                    }
                    match decode_strings_from(items, 0) {
                        Some(v) => Some(CfgValue::SeqV(v)),
                        None => None,
                    }
                },
                _ => None,
            },
            CollKind::StrMap => match j {
                Json::Obj(ms) => {
                    proof {
                        assert(jmviews(ms@).skip(0) =~= jmviews(ms@));
                    }
                    match decode_pairs_from(ms, 0) {
                        Some(v) => Some(CfgValue::MapV(v)),
                        None => None,
                    }
                },
                _ => None,
            },
        },
        TypeRef::Nested(s) => match j {
            Json::Obj(ms) => match decode_record_from(s, 0, ms) {
                Some(vs) => Some(CfgValue::RecV(vs)),
                None => None,
            },
            _ => None,
        },
    }
}

/// Decode a nested record's fields from an object's members, from field
/// index `i` on.
fn decode_record_from(s: &Schema, i: usize, ms: &Vec<(String, Json)>) -> (r: Option<Vec<CfgValue>>)
    requires
        i <= s.fields@.len(),
    ensures
        match r {
            Some(vs) => decode_fields(*s, i as int, jmviews(ms@)) == Some(views(vs@)),
            None => decode_fields(*s, i as int, jmviews(ms@)) is None,
        },
    decreases *s, s.fields@.len() - i + 3,
{
    if i == s.fields.len() {
        proof {
            assert(views(Seq::<CfgValue>::empty()) =~= Seq::<ValModel>::empty());
        }
        return Some(Vec::new());
    }
    let f = &s.fields[i];
    proof {
        assert(jmviews(ms@).skip(0) =~= jmviews(ms@));
    }
    let dec: Option<CfgValue> = match jget_from(ms, 0, &f.name) {
        Some(j) => decode_json_value(&f.ty, j),
        None => match &f.ty {
            TypeRef::Optional(_) => Some(CfgValue::OptV(None)),
            _ => None,
        },
    };
    proof {
        assert(opt_vview(dec) == decode_field_entry(s.fields@[i as int], jmviews(ms@)));
    }
    match dec {
        Some(v) => match decode_record_from(s, i + 1, ms) {
            Some(mut rest) => {
                let ghost old_rest = rest@;
                rest.insert(0, v);
                proof {
                    assert(views(rest@) =~= seq![vview(rest@[0])] + views(old_rest));
                }
                Some(rest)
            },
            None => None,
        },
        None => None,
    }
}

/// Decode a raw string as one JSON document into a value of a declared
/// type; `None` for a JSON parse failure or a shape mismatch.
pub open spec fn decode_raw(ty: TypeRef, raw: Seq<char>) -> Option<ValModel> {
    match json_of(raw) {
        Some(jm) => decode_ty(ty, jm),
        None => None,
    }
}

/// Decode a raw string as one JSON document into a value of a declared
/// type.
pub(crate) fn decode_raw_value(ty: &TypeRef, raw: &String) -> (r: Option<CfgValue>)
    ensures
        opt_vview(r) == decode_raw(*ty, raw@),
{
    match parse_json(raw.as_str()) {
        Some(j) => decode_json_value(ty, &j),
        None => None,
    }
}

} // verus!
