//! The schema model: declared types, their shapes, and decode directives.

use vstd::prelude::*;

verus! {

/// The shape of a declared field type.  Every type reference is classified
/// into exactly one of these four shapes; the binding engine dispatches on
/// the shape of each field.
#[allow(non_camel_case_types)]
#[derive(Clone, Copy, PartialEq, Eq, Structural, Debug)]
pub enum FieldType {
    PRIMITIVE,
    OPTION,
    STRUCT,
    COLLECTION,
}

/// The native scalar kinds a primitive field can carry.
#[derive(Clone, Copy, PartialEq, Eq, Structural, Debug)]
pub enum PrimKind {
    /// A signed machine integer, parsed from decimal text.
    Int,
    /// A boolean, parsed from the texts `true` and `false`.
    Boolean,
    /// A single character: the raw value must be exactly one character long.
    Character,
    /// A string, taken verbatim from the raw value.
    Text,
}

/// The collection shapes the engine can decode in one step.  A collection is
/// always treated as an opaque unit: its raw value is one JSON document.
#[derive(Clone, Copy, PartialEq, Eq, Structural, Debug)]
pub enum CollKind {
    /// An ordered sequence of strings (a JSON array of strings).
    StrSeq,
    /// An associative mapping from strings to strings (a JSON object with
    /// string members).
    StrMap,
}

/// A declared type: the closed sum of the four classifiable shapes.
/// Modelling the type language as a closed sum removes the unclassifiable
/// case by construction.
pub enum TypeRef {
    Primitive(PrimKind),
    Optional(Box<TypeRef>),
    Collection(CollKind),
    Nested(Schema),
}

/// One declared field: its name (used verbatim as a key-path segment), its
/// declared type, and the raw text of its optional decode annotation in the
/// exact form `with = "<ident>"`.
pub struct FieldDecl {
    pub name: String,
    pub ty: TypeRef,
    pub attr: Option<String>,
}

/// The ordered sequence of fields a record type declares.  Field order is
/// declaration order and fixes the execution and key-collection order.
pub struct Schema {
    pub fields: Vec<FieldDecl>,
}

/// A recognized per-field decode directive.
pub enum DecodeDirective {
    /// Decode the raw string value as one JSON document.
    WithJson,
    /// Decode the raw string value by a named user-supplied function.
    WithFunction(String),
}

/// The shape a declared type classifies to.
pub open spec fn spec_field_type(ty: TypeRef) -> FieldType {
    match ty {
        TypeRef::Primitive(_) => FieldType::PRIMITIVE,
        TypeRef::Optional(_) => FieldType::OPTION,
        TypeRef::Collection(_) => FieldType::COLLECTION,
        TypeRef::Nested(_) => FieldType::STRUCT,
    }
}

/// Classify a declared type into its shape.  Exact scalar names come first,
/// then the optional wrapper, then the known collection types; any other
/// named record type is `STRUCT`.
pub fn get_field_type(ty: &TypeRef) -> (r: FieldType)
    ensures
        r == spec_field_type(*ty),
{
    match ty {
        TypeRef::Primitive(_) => FieldType::PRIMITIVE,
        TypeRef::Optional(_) => FieldType::OPTION,
        TypeRef::Collection(_) => FieldType::COLLECTION,
        TypeRef::Nested(_) => FieldType::STRUCT,
    }
}

/// Classify a declared field by its declared type.
pub fn field_type(f: &FieldDecl) -> (r: FieldType)
    ensures
        r == spec_field_type(f.ty),
{
    get_field_type(&f.ty)
}

/// Whether `c` may appear in an identifier.
pub open spec fn is_ident_char(c: char) -> bool {
    ||| 'a' <= c && c <= 'z'
    ||| 'A' <= c && c <= 'Z'
    ||| '0' <= c && c <= '9'
    ||| c == '_'
}

/// Whether `c` is a decimal digit.
pub open spec fn is_digit(c: char) -> bool {
    '0' <= c && c <= '9'
}

/// A non-empty run of identifier characters that does not start with a digit.
pub open spec fn is_ident(s: Seq<char>) -> bool {
    &&& s.len() > 0
    &&& forall|i: int| 0 <= i < s.len() ==> is_ident_char(#[trigger] s[i])
    &&& !is_digit(s[0])
}

/// The fixed opening of a directive annotation: `with = "`.
pub open spec fn directive_prefix() -> Seq<char> {
    seq!['w', 'i', 't', 'h', ' ', '=', ' ', '"']
}

/// The directive name `json`.
pub open spec fn json_name() -> Seq<char> {
    seq!['j', 's', 'o', 'n']
}

/// The name inside an annotation of the exact form `with = "<ident>"`, or
/// `None` if the text is not of that form.
pub open spec fn spec_directive_name(s: Seq<char>) -> Option<Seq<char>> {
    if s.len() >= 10 && s.subrange(0, 8) == directive_prefix() && s[s.len() - 1] == '"'
        && is_ident(s.subrange(8, s.len() - 1)) {
        Some(s.subrange(8, s.len() - 1))
    } else {
        None
    }
}

/// The directive name a field's annotation carries, if the annotation is
/// present and well formed.
pub open spec fn spec_attr_name(f: FieldDecl) -> Option<Seq<char>> {
    match f.attr {
        Some(a) => spec_directive_name(a@),
        None => None,
    }
}

/// Whether the field carries the JSON decode directive.
pub open spec fn spec_is_json(f: FieldDecl) -> bool {
    spec_attr_name(f) == Some(json_name())
}

/// The custom decode function name the field names, if its directive is of
/// the `with = "<function>"` form with a name other than `json`.
pub open spec fn spec_func_name(f: FieldDecl) -> Option<Seq<char>> {
    match spec_attr_name(f) {
        Some(n) => if n == json_name() {
            None
        } else {
            Some(n)
        },
        None => None,
    }
}

/// Whether `c` may appear in an identifier.
pub fn ident_char(c: char) -> (b: bool)
    ensures
        b == is_ident_char(c),
{
    let v = c as u32;
    (97 <= v && v <= 122) || (65 <= v && v <= 90) || (48 <= v && v <= 57) || c == '_'
}

/// Whether `c` is a decimal digit.
pub fn digit_char(c: char) -> (b: bool)
    ensures
        b == is_digit(c),
{
    let v = c as u32;
    48 <= v && v <= 57
}

/// Parse an annotation text of the exact form `with = "<ident>"`, returning
/// the identifier between the quotes; anything else is malformed.
pub fn directive_name(attr: &str) -> (r: Option<String>)
    ensures
        match r {
            Some(n) => spec_directive_name(attr@) == Some(n@),
            None => spec_directive_name(attr@) is None,
        },
{
    let n = attr.unicode_len();
    if n < 10 {
        return None;
    }
    let open_chars = ['w', 'i', 't', 'h', ' ', '=', ' ', '"'];
    let mut i: usize = 0;
    while i < 8
        invariant
            0 <= i <= 8,
            n == attr@.len(),
            n >= 10,
            open_chars@ =~= directive_prefix(),
            forall|j: int| 0 <= j < i ==> attr@[j] == directive_prefix()[j],
        decreases 8 - i,
    {
        if attr.get_char(i) != open_chars[i] {
            assert(attr@.subrange(0, 8) != directive_prefix()) by {
                assert(attr@.subrange(0, 8)[i as int] != directive_prefix()[i as int]);
            }
            return None;
        }
        i += 1;
    }
    assert(attr@.subrange(0, 8) =~= directive_prefix());
    if attr.get_char(n - 1) != '"' {
        return None;
    }
    if digit_char(attr.get_char(8)) {
        assert(is_digit(attr@.subrange(8, n - 1)[0]));
        return None;
    }
    let mut k: usize = 8;
    while k < n - 1
        invariant
            8 <= k <= n - 1,
            n == attr@.len(),
            n >= 10,
            forall|j: int| 8 <= j < k ==> is_ident_char(#[trigger] attr@[j]),
        decreases n - 1 - k,
    {
        if !ident_char(attr.get_char(k)) {
            assert(!is_ident_char(attr@.subrange(8, n - 1)[k - 8]));
            return None;
        }
        k += 1;
    }
    let name = attr.substring_char(8, n - 1);
    assert(is_ident(attr@.subrange(8, n - 1))) by {
        assert(forall|j: int| 0 <= j < n - 1 - 8 ==> is_ident_char(
            #[trigger] attr@.subrange(8, n as int - 1)[j],
        ));
    }
    Some(String::from_str(name))
}

/// The directive attached to a field, if any; absent or malformed annotation
/// text yields `None`.
pub fn decode_directive(f: &FieldDecl) -> (r: Option<DecodeDirective>)
    ensures
        match r {
            Some(DecodeDirective::WithJson) => spec_is_json(*f),
            Some(DecodeDirective::WithFunction(n)) => spec_func_name(*f) == Some(n@),
            None => spec_attr_name(*f) is None,
        },
{
    match &f.attr {
        None => None,
        Some(a) => match directive_name(a.as_str()) {
            None => None,
            Some(n) => {
                let json = String::from_str("json");
                proof {
                    reveal_strlit("json");
                    assert(json@ =~= json_name());
                }
                if n == json {
                    Some(DecodeDirective::WithJson)
                } else {
                    Some(DecodeDirective::WithFunction(n))
                }
            },
        },
    }
}

/// Whether the field asks for whole-value JSON decoding.
pub fn is_serde_with_json(f: &FieldDecl) -> (r: bool)
    ensures
        r == spec_is_json(*f),
{
    match decode_directive(f) {
        Some(DecodeDirective::WithJson) => true,
        Some(DecodeDirective::WithFunction(_)) => {
            proof {
                assert(spec_attr_name(*f) != Some(json_name()));
            }
            false
        },
        None => false,
    }
}

/// The raw target named by the field's `with = "..."` annotation, `json`
/// included, or `None` if the annotation is absent or malformed.
pub fn get_deserialize_type(f: &FieldDecl) -> (r: Option<String>)
    ensures
        match r {
            Some(n) => spec_attr_name(*f) == Some(n@),
            None => spec_attr_name(*f) is None,
        },
{
    match &f.attr {
        None => None,
        Some(a) => directive_name(a.as_str()),
    }
}

} // verus!
