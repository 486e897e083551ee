//! Key collection: every dotted key a schema expects.

use vstd::prelude::*;

use crate::engine::{eff_prefix, field_keys, keys_from, rec_keys};
use crate::field_type::{get_deserialize_type, is_serde_with_json, Schema, TypeRef};
use crate::json::str_views;

verus! {

/// The record-level prefix with its trailing dot, ready for a field name.
pub(crate) fn make_prefix(prefix: &String) -> (r: String)
    ensures
        r@ == if prefix@.len() == 0 {
            Seq::<char>::empty()
        } else {
            prefix@ + seq!['.']
        },
{
    if prefix.as_str().unicode_len() != 0 {
        let mut p = prefix.clone();
        p.append(".");
        proof {
            reveal_strlit(".");
            assert("."@ =~= seq!['.']);
        }
        p
    } else {
        String::new()
    }
}

/// One field's full dotted key under an effective prefix.
pub(crate) fn make_key(eff: &String, name: &String, Ghost(prefix): Ghost<Seq<char>>) -> (r: String)
    requires
        eff@ == if prefix.len() == 0 {
            Seq::<char>::empty()
        } else {
            prefix + seq!['.']
        },
    ensures
        r@ == eff_prefix(prefix, name@),
{
    let mut key = eff.clone();
    key.append(name.as_str());
    proof {
        if prefix.len() == 0 {
            assert(Seq::<char>::empty() + name@ =~= name@);
        } else {
            assert((prefix + seq!['.']) + name@ =~= prefix + seq!['.'] + name@);
        }
    }
    key
}

/// Collect every key the schema expects under the given prefix, appending
/// to `out` in declaration and recursion order.
pub fn collect_keys(s: &Schema, prefix: &String, out: &mut Vec<String>)
    ensures
        str_views(final(out)@) == str_views(old(out)@) + rec_keys(*s, prefix@),
    decreases *s, 1int,
{
    let eff = make_prefix(prefix);
    let n = s.fields.len();
    let mut i: usize = 0;
    while i < n
        invariant
            0 <= i <= n,
            n == s.fields@.len(),
            eff@ == if prefix@.len() == 0 {
                Seq::<char>::empty()
            } else {
                prefix@ + seq!['.']
            },
            str_views(old(out)@) + keys_from(*s, 0, prefix@) =~= str_views(out@) + keys_from(
                *s,
                i as int,
                prefix@,
            ),
        decreases n - i,
    {
        let f = &s.fields[i];
        let key = make_key(&eff, &f.name, Ghost(prefix@));
        let ghost pre = out@;
        match &f.ty {
            TypeRef::Nested(s2) => match get_deserialize_type(f) {
                Some(_) => {
                    out.push(key);
                    proof {
                        assert(str_views(out@) =~= str_views(pre) + seq![eff_prefix(
                            prefix@,
                            f.name@,
                        )]);
                    }
                },
                None => {
                    collect_keys(s2, &key, out);
                },
            },
            TypeRef::Optional(inner) => match &**inner {
                TypeRef::Nested(s2) => {
                    if is_serde_with_json(f) {
                        out.push(key);
                        proof {
                            assert(str_views(out@) =~= str_views(pre) + seq![eff_prefix(
                                prefix@,
                                f.name@,
                            )]);
                        }
                    } else {
                        collect_keys(s2, &key, out);
                    }
                },
                _ => {
                    out.push(key);
                    proof {
                        assert(str_views(out@) =~= str_views(pre) + seq![eff_prefix(
                            prefix@,
                            f.name@,
                        )]);
                    }
                },
            },
            _ => {
                out.push(key);
                proof {
                    assert(str_views(out@) =~= str_views(pre) + seq![eff_prefix(
                        prefix@,
                        f.name@,
                    )]);
                }
            },
        }
        proof {
            assert(str_views(out@) == str_views(pre) + field_keys(s.fields@[i as int], prefix@));
            assert(str_views(pre) + (field_keys(s.fields@[i as int], prefix@) + keys_from(
                *s,
                i as int + 1,
                prefix@,
            )) =~= (str_views(pre) + field_keys(s.fields@[i as int], prefix@)) + keys_from(
                *s,
                i as int + 1,
                prefix@,
            ));
        }
        i += 1;
    }
    proof {
        assert(keys_from(*s, n as int, prefix@) =~= Seq::<Seq<char>>::empty());
        assert(str_views(out@) + Seq::<Seq<char>>::empty() =~= str_views(out@));
        assert(str_views(out@) =~= str_views(old(out)@) + rec_keys(*s, prefix@));
    }
}

} // verus!
