//! Runtime configuration values and their mathematical model.

use vstd::prelude::*;

use crate::field_type::{CollKind, PrimKind, Schema, TypeRef};

verus! {

/// One node of a bound configuration object graph.
pub enum CfgValue {
    IntV(i64),
    BoolV(bool),
    CharV(char),
    StrV(String),
    /// An optional field's value; `None` is the unset state.
    OptV(Option<Box<CfgValue>>),
    /// A decoded sequence collection.
    SeqV(Vec<String>),
    /// A decoded mapping collection, as key-value pairs in decoded order.
    MapV(Vec<(String, String)>),
    /// A nested record instance: one value per declared field, in order.
    RecV(Vec<CfgValue>),
}

/// The mathematical model of a runtime value.
pub enum ValModel {
    IntV(i64),
    BoolV(bool),
    CharV(char),
    StrV(Seq<char>),
    OptV(Option<Box<ValModel>>),
    SeqV(Seq<Seq<char>>),
    MapV(Seq<(Seq<char>, Seq<char>)>),
    RecV(Seq<ValModel>),
}

/// The deep view of a runtime value.
pub open spec fn vview(v: CfgValue) -> ValModel
    decreases v, 2int,
{
    match v {
        CfgValue::IntV(n) => ValModel::IntV(n),
        CfgValue::BoolV(b) => ValModel::BoolV(b),
        CfgValue::CharV(c) => ValModel::CharV(c),
        CfgValue::StrV(s) => ValModel::StrV(s@),
        CfgValue::OptV(o) => match o {
            None => ValModel::OptV(None),
            Some(b) => ValModel::OptV(Some(Box::new(vview(*b)))),
        },
        CfgValue::SeqV(items) => ValModel::SeqV(items@.map_values(|s: String| s@)),
        CfgValue::MapV(pairs) => ValModel::MapV(
            pairs@.map_values(|p: (String, String)| (p.0@, p.1@)),
        ),
        CfgValue::RecV(vs) => ValModel::RecV(views(vs@)),
    }
}

/// The defining equations of [`vview`], for use where the definition does
/// not unfold on its own.
pub proof fn lemma_vview_unfold(v: CfgValue)
    ensures
        vview(v) == (match v {
            CfgValue::IntV(n) => ValModel::IntV(n),
            CfgValue::BoolV(b) => ValModel::BoolV(b),
            CfgValue::CharV(c) => ValModel::CharV(c),
            CfgValue::StrV(s) => ValModel::StrV(s@),
            CfgValue::OptV(o) => match o {
                None => ValModel::OptV(None),
                Some(b) => ValModel::OptV(Some(Box::new(vview(*b)))),
            },
            CfgValue::SeqV(items) => ValModel::SeqV(items@.map_values(|s: String| s@)),
            CfgValue::MapV(pairs) => ValModel::MapV(
                pairs@.map_values(|p: (String, String)| (p.0@, p.1@)),
            ),
            CfgValue::RecV(vs) => ValModel::RecV(views(vs@)),
        }),
{
}

/// The deep views of a record instance's field values.
pub open spec fn views(vs: Seq<CfgValue>) -> Seq<ValModel>
    decreases vs, 1int,
{
    Seq::new(vs.len(), |i: int| view_at(vs, i))
}

/// The deep view of one element of a record instance.
pub open spec fn view_at(vs: Seq<CfgValue>, i: int) -> ValModel
    decreases vs, 0int,
{
    if 0 <= i < vs.len() {
        vview(vs[i])
    } else {
        ValModel::IntV(0)
    }
}

/// Indexing the deep views of an instance is the deep view of the element.
pub proof fn lemma_views_index(vs: Seq<CfgValue>)
    ensures
        views(vs).len() == vs.len(),
        forall|i: int| 0 <= i < vs.len() ==> views(vs)[i] == vview(vs[i]),
{
}

/// The deep view of an optional result.
pub open spec fn opt_vview(r: Option<CfgValue>) -> Option<ValModel> {
    match r {
        Some(v) => Some(vview(v)),
        None => None,
    }
}

/// Whether a value model has the shape a primitive kind asks for.
pub open spec fn prim_conforms(m: ValModel, k: PrimKind) -> bool {
    match m {
        ValModel::IntV(_) => k == PrimKind::Int,
        ValModel::BoolV(_) => k == PrimKind::Boolean,
        ValModel::CharV(_) => k == PrimKind::Character,
        ValModel::StrV(_) => k == PrimKind::Text,
        _ => false,
    }
}

/// Whether a value model is a well-shaped instance of a declared type.
pub open spec fn conforms(m: ValModel, ty: TypeRef) -> bool
    decreases ty,
{
    match ty {
        TypeRef::Primitive(k) => prim_conforms(m, k),
        TypeRef::Optional(inner) => match m {
            ValModel::OptV(o) => match o {
                None => true,
                Some(b) => conforms(*b, *inner),
            },
            _ => false,
        },
        TypeRef::Collection(k) => match m {
            ValModel::SeqV(_) => k == CollKind::StrSeq,
            ValModel::MapV(_) => k == CollKind::StrMap,
            _ => false,
        },
        TypeRef::Nested(s) => match m {
            ValModel::RecV(vs) => rec_conforms(vs, s),
            _ => false,
        },
    }
}

/// Whether a record instance is well shaped for a schema: one value per
/// field, each of its field's declared type.
pub open spec fn rec_conforms(vs: Seq<ValModel>, s: Schema) -> bool
    decreases s,
{
    &&& vs.len() == s.fields@.len()
    &&& forall|i: int| 0 <= i < vs.len() ==> conforms(#[trigger] vs[i], s.fields@[i].ty)
}

/// The default value model of a declared type: zero-like scalars, unset
/// optionals, empty collections, and recursively default records.
pub open spec fn default_model(ty: TypeRef) -> ValModel
    decreases ty, 2int,
{
    match ty {
        TypeRef::Primitive(k) => match k {
            PrimKind::Int => ValModel::IntV(0),
            PrimKind::Boolean => ValModel::BoolV(false),
            PrimKind::Character => ValModel::CharV('\0'),
            PrimKind::Text => ValModel::StrV(Seq::empty()),
        },
        TypeRef::Optional(_) => ValModel::OptV(None),
        TypeRef::Collection(k) => match k {
            CollKind::StrSeq => ValModel::SeqV(Seq::empty()),
            CollKind::StrMap => ValModel::MapV(Seq::empty()),
        },
        TypeRef::Nested(s) => ValModel::RecV(default_rec_model(s)),
    }
}

/// The default instance of a schema, field by field.
pub open spec fn default_rec_model(s: Schema) -> Seq<ValModel>
    decreases s, 1int,
{
    Seq::new(s.fields@.len(), |i: int| default_model_at(s, i))
}

/// The default value of one field of a schema.
pub open spec fn default_model_at(s: Schema, i: int) -> ValModel
    decreases s, 0int,
{
    if 0 <= i < s.fields@.len() {
        default_model(s.fields@[i].ty)
    } else {
        ValModel::IntV(0)
    }
}

/// The defining equations of [`conforms`], for use where the definition
/// does not unfold on its own.
pub proof fn lemma_conforms_unfold(m: ValModel, ty: TypeRef)
    ensures
        conforms(m, ty) == (match ty {
            TypeRef::Primitive(k) => prim_conforms(m, k),
            TypeRef::Optional(inner) => match m {
                ValModel::OptV(o) => match o {
                    None => true,
                    Some(b) => conforms(*b, *inner),
                },
                _ => false,
            },
            TypeRef::Collection(k) => match m {
                ValModel::SeqV(_) => k == CollKind::StrSeq,
                ValModel::MapV(_) => k == CollKind::StrMap,
                _ => false,
            },
            TypeRef::Nested(s) => match m {
                ValModel::RecV(vs) => rec_conforms(vs, s),
                _ => false,
            },
        }),
{
}

/// The defining equation of [`rec_conforms`].
pub proof fn lemma_rec_conforms_unfold(vs: Seq<ValModel>, s: Schema)
    ensures
        rec_conforms(vs, s) == (vs.len() == s.fields@.len() && (forall|i: int|
            0 <= i < vs.len() ==> conforms(#[trigger] vs[i], s.fields@[i].ty))),
{
}

/// The defining equations of [`default_model`].
pub proof fn lemma_default_model_unfold(ty: TypeRef)
    ensures
        default_model(ty) == (match ty {
            TypeRef::Primitive(k) => match k {
                PrimKind::Int => ValModel::IntV(0),
                PrimKind::Boolean => ValModel::BoolV(false),
                PrimKind::Character => ValModel::CharV('\0'),
                PrimKind::Text => ValModel::StrV(Seq::empty()),
            },
            TypeRef::Optional(_) => ValModel::OptV(None),
            TypeRef::Collection(k) => match k {
                CollKind::StrSeq => ValModel::SeqV(Seq::empty()),
                CollKind::StrMap => ValModel::MapV(Seq::empty()),
            },
            TypeRef::Nested(s) => ValModel::RecV(default_rec_model(s)),
        }),
{
}

/// Indexing the default instance of a schema gives the field's default.
pub proof fn lemma_default_rec_index(s: Schema)
    ensures
        default_rec_model(s).len() == s.fields@.len(),
        forall|i: int|
            0 <= i < s.fields@.len() ==> default_rec_model(s)[i] == default_model(
                s.fields@[i].ty,
            ),
{
}

/// A default value is well shaped for its type.
pub proof fn lemma_default_conforms(ty: TypeRef)
    ensures
        conforms(default_model(ty), ty),
    decreases ty,
{
    match ty {
        TypeRef::Nested(s) => {
            lemma_default_rec_conforms(s);
        },
        _ => {},
    }
}

/// A default record instance is well shaped for its schema.
pub proof fn lemma_default_rec_conforms(s: Schema)
    ensures
        rec_conforms(default_rec_model(s), s),
    decreases s,
{
    assert forall|i: int| 0 <= i < default_rec_model(s).len() implies conforms(
        #[trigger] default_rec_model(s)[i],
        s.fields@[i].ty,
    ) by {
        lemma_default_conforms(s.fields@[i].ty);
    }
}

/// Construct the default value of a declared type.
pub fn default_value(ty: &TypeRef) -> (r: CfgValue)
    ensures
        vview(r) == default_model(*ty),
    decreases *ty,
{
    match ty {
        TypeRef::Primitive(k) => match k {
            PrimKind::Int => CfgValue::IntV(0),
            PrimKind::Boolean => CfgValue::BoolV(false),
            PrimKind::Character => CfgValue::CharV('\0'),
            PrimKind::Text => CfgValue::StrV(String::new()),
        },
        TypeRef::Optional(_) => CfgValue::OptV(None),
        TypeRef::Collection(k) => match k {
            CollKind::StrSeq => {
                let r = CfgValue::SeqV(Vec::new());
                proof {
                    assert(Seq::<String>::empty().map_values(|s: String| s@)
                        =~= Seq::<Seq<char>>::empty());
                }
                r
            },
            CollKind::StrMap => {
                let r = CfgValue::MapV(Vec::new());
                proof {
                    assert(Seq::<(String, String)>::empty().map_values(
                        |p: (String, String)| (p.0@, p.1@),
                    ) =~= Seq::<(Seq<char>, Seq<char>)>::empty());
                }
                r
            },
        },
        TypeRef::Nested(s) => {
            let vs = default_record(s);
            let r = CfgValue::RecV(vs);
            r
        },
    }
}

/// Construct the default instance of a schema.
pub fn default_record(s: &Schema) -> (r: Vec<CfgValue>)
    ensures
        views(r@) == default_rec_model(*s),
    decreases *s,
{
    let n = s.fields.len();
    let mut out: Vec<CfgValue> = Vec::new();
    let mut i: usize = 0;
    while i < n
        invariant
            0 <= i <= n,
            n == s.fields@.len(),
            out@.len() == i,
            views(out@) == default_rec_model(*s).take(i as int),
        decreases n - i,
    {
        let v = default_value(&s.fields[i].ty);
        out.push(v);
        proof {
            assert(views(out@) =~= default_rec_model(*s).take(i + 1));
        }
        i += 1;
    }
    proof {
        assert(default_rec_model(*s).take(n as int) =~= default_rec_model(*s));
    }
    out
}

/// Check at run time that a value is well shaped for a declared type.
pub fn check_value(v: &CfgValue, ty: &TypeRef) -> (r: bool)
    ensures
        r == conforms(vview(*v), *ty),
    decreases *ty,
{
    match ty {
        TypeRef::Primitive(k) => match v {
            CfgValue::IntV(_) => *k == PrimKind::Int,
            CfgValue::BoolV(_) => *k == PrimKind::Boolean,
            CfgValue::CharV(_) => *k == PrimKind::Character,
            CfgValue::StrV(_) => *k == PrimKind::Text,
            _ => false,
        },
        TypeRef::Optional(inner) => match v {
            CfgValue::OptV(o) => match o {
                None => true,
                Some(b) => check_value(b, inner),
            },
            _ => false,
        },
        TypeRef::Collection(k) => match v {
            CfgValue::SeqV(_) => *k == CollKind::StrSeq,
            CfgValue::MapV(_) => *k == CollKind::StrMap,
            _ => false,
        },
        TypeRef::Nested(s) => match v {
            CfgValue::RecV(vs) => check_record(vs, s),
            _ => false,
        },
    }
}

/// Check at run time that a record instance is well shaped for a schema.
pub fn check_record(vs: &Vec<CfgValue>, s: &Schema) -> (r: bool)
    ensures
        r == rec_conforms(views(vs@), *s),
    decreases *s,
{
    let n = s.fields.len();
    if vs.len() != n {
        return false;
    }
    let mut i: usize = 0;
    while i < n
        invariant
            0 <= i <= n,
            n == s.fields@.len(),
            vs@.len() == n,
            forall|j: int| 0 <= j < i ==> conforms(#[trigger] views(vs@)[j], s.fields@[j].ty),
        decreases n - i,
    {
        if !check_value(&vs[i], &s.fields[i].ty) {
            assert(!conforms(views(vs@)[i as int], s.fields@[i as int].ty));
            return false;
        }
        i += 1;
    }
    assert forall|j: int| 0 <= j < n implies conforms(
        #[trigger] views(vs@)[j],
        s.fields@[j].ty,
    ) by {}
    true
}

} // verus!
