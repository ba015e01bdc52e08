//! The document tree: an ordered key-value value type.
use vstd::prelude::*;
use crate::text::str_eq;

verus! {

broadcast use vstd::std_specs::vec::axiom_vec_index_decreases;

/// One node of a document.  A mapping keeps its entries in document order.
pub enum Value {
    Null,
    Bool(bool),
    /// A number, held as the text it was written with.
    Number(String),
    Str(String),
    Sequence(Vec<Value>),
    Mapping(Vec<(Value, Value)>),
}

/// The entries of a mapping, in document order.
pub type Entries = Seq<(Value, Value)>;

impl Value {
    /// This value is the string `s`.
    pub open spec fn is_text(self, s: Seq<char>) -> bool {
        self matches Value::Str(t) && t@ == s
    }

    /// The entries of a mapping value.
    pub open spec fn entries(self) -> Option<Entries> {
        match self {
            Value::Mapping(m) => Some(m@),
            _ => None,
        }
    }

    /// Whether this value is the string `s`.
    pub fn has_text(&self, s: &str) -> (r: bool)
        ensures
            r == self.is_text(s@),
    {
        match self {
            Value::Str(t) => str_eq(t.as_str(), s),
            _ => false,
        }
    }
}

/// The value stored under the string key `key`: the first entry whose key is that string.
pub open spec fn lookup(m: Entries, key: Seq<char>) -> Option<Value>
    decreases m.len(),
{
    if m.len() == 0 {
        None
    } else if m[0].0.is_text(key) {
        Some(m[0].1)
    } else {
        lookup(m.drop_first(), key)
    }
}

/// The entries of the mapping stored under `key`, if there is one and it is a mapping.
pub open spec fn lookup_entries(m: Entries, key: Seq<char>) -> Option<Entries> {
    match lookup(m, key) {
        Some(v) => v.entries(),
        None => None,
    }
}

/// Finds the first entry of `m` whose key is the string `key`.
pub fn find_key(m: &Vec<(Value, Value)>, key: &str) -> (r: Option<usize>)
    ensures
        match r {
            Some(i) => i < m@.len() && m@[i as int].0.is_text(key@) && lookup(m@, key@) == Some(
                m@[i as int].1,
            ),
            None => lookup(m@, key@) is None,
        },
{
    let mut i: usize = 0;
    assert(m@.skip(0) =~= m@);
    while i < m.len()
        invariant
            0 <= i <= m@.len(),
            lookup(m@, key@) == lookup(m@.skip(i as int), key@),
        decreases m@.len() - i,
    {
        assert(m@.skip(i as int)[0] == m@[i as int]);
        if m[i].0.has_text(key) {
            return Some(i);
        }
        assert(m@.skip(i as int).drop_first() =~= m@.skip(i + 1));
        i = i + 1;
    }
    None
}

} // verus!
