//! Finding `$ref` pointers in a document tree.
use vstd::prelude::*;
use crate::text::{after_last, after_last_char, split_first, split_first_char, strip_prefix, texts};
use crate::value::{find_key, lookup, Entries, Value};

verus! {

broadcast use vstd::std_specs::vec::axiom_vec_index_decreases;

/// The pointer held directly by a mapping: its `"$ref"` entry, when that is a string.
pub open spec fn own_ref(m: Entries) -> Seq<Seq<char>> {
    match lookup(m, "$ref"@) {
        Some(Value::Str(s)) => seq![s@],
        _ => Seq::empty(),
    }
}

/// Every `$ref` string inside `v`, in document order: a mapping's own pointer first,
/// then those inside each of its values in turn; a sequence's items in turn.
pub open spec fn refs_in(v: Value) -> Seq<Seq<char>>
    decreases v, 1nat, 0int,
{
    match v {
        Value::Mapping(m) => own_ref(m@) + refs_in_values(v, m@.len() as int),
        Value::Sequence(s) => refs_in_items(v, s@.len() as int),
        _ => Seq::empty(),
    }
}

/// The pointers inside the values of the first `n` entries of the mapping `v`.
pub open spec fn refs_in_values(v: Value, n: int) -> Seq<Seq<char>>
    decreases v, 0nat, n,
{
    match v {
        Value::Mapping(m) => if 0 < n <= m@.len() {
            refs_in_values(v, n - 1) + refs_in(m@[n - 1].1)
        } else {
            Seq::empty()
        },
        _ => Seq::empty(),
    }
}

/// The pointers inside the first `n` items of the sequence `v`.
pub open spec fn refs_in_items(v: Value, n: int) -> Seq<Seq<char>>
    decreases v, 0nat, n,
{
    match v {
        Value::Sequence(s) => if 0 < n <= s@.len() {
            refs_in_items(v, n - 1) + refs_in(s@[n - 1])
        } else {
            Seq::empty()
        },
        _ => Seq::empty(),
    }
}

/// Collects every `$ref` string in the tree below `value`.
pub fn fetch_all_references(value: &Value) -> (r: Vec<String>)
    ensures
        texts(r@) == refs_in(*value),
    decreases value,
{
    let mut refs: Vec<String> = Vec::new();
    match value {
        Value::Mapping(m) => {
            match find_key(m, "$ref") {
                Some(k) => match &m[k].1 {
                    Value::Str(s) => refs.push(s.clone()),
                    _ => {},
                },
                None => {},
            }
            assert(texts(refs@) == own_ref(m@));
            let mut i: usize = 0;
            while i < m.len()
                invariant
                    *value == Value::Mapping(*m),
                    0 <= i <= m@.len(),
                    texts(refs@) == own_ref(m@) + refs_in_values(*value, i as int),
                decreases m@.len() - i,
            {
                proof {
                    assert(decreases_to!(*value => value->Mapping_0));
                    assert(decreases_to!(*m => m[i as int]));
                    assert(decreases_to!(m[i as int] => m[i as int].1));
                }
                let mut sub = fetch_all_references(&m[i].1);
                let ghost before = refs@;
                refs.append(&mut sub);
                assert(texts(refs@) =~= texts(before) + refs_in(m@[i as int].1));
                i = i + 1;
            }
        },
        Value::Sequence(s) => {
            let mut i: usize = 0;
            while i < s.len()
                invariant
                    *value == Value::Sequence(*s),
                    0 <= i <= s@.len(),
                    texts(refs@) == refs_in_items(*value, i as int),
                decreases s@.len() - i,
            {
                proof {
                    assert(decreases_to!(*value => value->Sequence_0));
                    assert(decreases_to!(*s => s[i as int]));
                }
                let mut sub = fetch_all_references(&s[i]);
                let ghost before = refs@;
                refs.append(&mut sub);
                assert(texts(refs@) =~= texts(before) + refs_in(s@[i as int]));
                i = i + 1;
            }
        },
        _ => {},
    }
    refs
}

/// The last `/`-separated segment of each pointer: the bare component name.
pub fn strip_path_from_references(references: &[String]) -> (r: Vec<String>)
    ensures
        texts(r@) == texts(references@).map_values(|s: Seq<char>| after_last(s, '/')),
{
    let mut out: Vec<String> = Vec::new();
    let mut i: usize = 0;
    while i < references.len()
        invariant
            0 <= i <= references@.len(),
            out@.len() == i,
            texts(out@) == texts(references@.take(i as int)).map_values(|s: Seq<char>| after_last(s, '/')),
        decreases references@.len() - i,
    {
        let name = after_last_char(references[i].as_str(), '/');
        let ghost before = out@;
        out.push(name.to_owned());
        proof {
            let want = texts(references@.take(i + 1)).map_values(|s: Seq<char>| after_last(s, '/'));
            let had = texts(references@.take(i as int)).map_values(|s: Seq<char>| after_last(s, '/'));
            assert(out@.len() == i + 1);
            assert(texts(out@).len() == i + 1);
            assert(texts(before).len() == i);
            assert(want.len() == i + 1);
            assert forall|k: int| 0 <= k < want.len() implies texts(out@)[k] == want[k] by {
                if k < i {
                    assert(out@[k] == before[k]);
                    assert(texts(out@)[k] == texts(before)[k]);
                    assert(had[k] == want[k]);
                }
            }
            assert(texts(out@) =~= want);
        }
        i = i + 1;
    }
    assert(references@.take(i as int) =~= references@);
    out
}

/// The pointer prefix that names a component.
pub open spec fn components_prefix() -> Seq<char> {
    "#/components/"@
}

/// The `(category, name)` that a pointer of the shape `#/components/<category>/<name>` names.
/// The name is everything after the category's `/`, slashes included.
pub open spec fn component_ref(s: Seq<char>) -> Option<(Seq<char>, Seq<char>)> {
    if components_prefix().is_prefix_of(s) {
        split_first(s.skip(components_prefix().len() as int), '/')
    } else {
        None
    }
}

/// Reads a pointer of the shape `#/components/<category>/<name>`; any other pointer gives `None`.
pub fn parse_component_ref(ref_str: &str) -> (r: Option<(String, String)>)
    ensures
        match r {
            Some((c, n)) => component_ref(ref_str@) == Some((c@, n@)),
            None => component_ref(ref_str@) is None,
        },
{
    let prefix = "#/components/";
    proof {
        assert(prefix@ == components_prefix());
    }
    match strip_prefix(ref_str, prefix) {
        Some(rest) => match split_first_char(rest, '/') {
            Some((category, name)) => Some((category.to_owned(), name.to_owned())),
            None => None,
        },
        None => None,
    }
}

} // verus!
