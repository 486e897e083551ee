//! The flat configuration map: full dotted key to raw string value.

use vstd::prelude::*;

verus! {

/// The externally supplied flat configuration: an association list from full
/// dotted key to raw string value.  The engine only ever reads it.  Lookup
/// returns the first entry with a matching key, so the abstract view is the
/// map in which earlier entries shadow later ones.
pub struct FlatConfig {
    pub entries: Vec<(String, String)>,
}

/// The map an entry list denotes: earlier entries shadow later ones.
pub open spec fn entries_map(s: Seq<(String, String)>) -> Map<Seq<char>, Seq<char>>
    decreases s.len(),
{
    if s.len() == 0 {
        Map::empty()
    } else {
        entries_map(s.drop_first()).insert(s[0].0@, s[0].1@)
    }
}

impl View for FlatConfig {
    type V = Map<Seq<char>, Seq<char>>;

    open spec fn view(&self) -> Map<Seq<char>, Seq<char>> {
        entries_map(self.entries@)
    }
}

/// Entries before `i` say nothing about `key`, so the whole list and the
/// list from `i` on agree on `key`.
proof fn lemma_entries_skip(s: Seq<(String, String)>, key: Seq<char>, i: int)
    requires
        0 <= i <= s.len(),
        forall|j: int| 0 <= j < i ==> (#[trigger] s[j]).0@ != key,
    ensures
        entries_map(s).contains_key(key) == entries_map(s.skip(i)).contains_key(key),
        entries_map(s).contains_key(key) ==> entries_map(s)[key] == entries_map(s.skip(i))[key],
    decreases i,
{
    if i > 0 {
        lemma_entries_skip(s.drop_first(), key, i - 1);
        assert(s.drop_first().skip(i - 1) =~= s.skip(i));
        assert(s.skip(0) =~= s);
    } else {
        assert(s.skip(0) =~= s);
    }
}

impl FlatConfig {
    /// An empty configuration map.
    pub fn new() -> (r: FlatConfig)
        ensures
            r@ == Map::<Seq<char>, Seq<char>>::empty(),
    {
        FlatConfig { entries: Vec::new() }
    }

    /// Bind `key` to `value`, shadowing any earlier binding of the same key.
    pub fn insert(&mut self, key: String, value: String)
        ensures
            final(self)@ == old(self)@.insert(key@, value@),
    {
        self.entries.insert(0, (key, value));
        proof {
            assert(self.entries@.drop_first() =~= old(self).entries@);
        }
    }

    /// Look the key up; `None` exactly when the map has no binding for it.
    pub fn get<'a>(&'a self, key: &String) -> (r: Option<&'a String>)
        ensures
            match r {
                Some(v) => self@.contains_key(key@) && v@ == self@[key@],
                None => !self@.contains_key(key@),
            },
    {
        let n = self.entries.len();
        let mut i: usize = 0;
        while i < n
            invariant
                0 <= i <= n,
                n == self.entries@.len(),
                forall|j: int| 0 <= j < i ==> (#[trigger] self.entries@[j]).0@ != key@,
            decreases n - i,
        {
            let e = &self.entries[i];
            if e.0 == *key {
                proof {
                    lemma_entries_skip(self.entries@, key@, i as int);
                    assert(self.entries@.skip(i as int).drop_first() =~= self.entries@.skip(
                        i as int + 1,
                    ));
                    assert(self.entries@.skip(i as int)[0] == self.entries@[i as int]);
                }
                return Some(&self.entries[i].1);
            }
            i += 1;
        }
        proof {
            lemma_entries_skip(self.entries@, key@, n as int);
            assert(self.entries@.skip(n as int) =~= Seq::<(String, String)>::empty());
        }
        None
    }

    /// Whether the map binds `key`.
    pub fn contains(&self, key: &String) -> (r: bool)
        ensures
            r == self@.contains_key(key@),
    {
        match self.get(key) {
            Some(_) => true,
            None => false,
        }
    }
}

} // verus!
