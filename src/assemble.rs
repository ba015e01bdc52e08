//! Building the trimmed document from the selection and the reference closure.
use vstd::prelude::*;
use crate::catalog::{Endpoint, StructuralError};
use crate::refs::{fetch_all_references, refs_in};
use crate::resolve::{
    closure, collect_transitive_references, contains_pair, extract_security_schemes, pairs, parsed, scheme_names,
    Pair,
};
use crate::text::{lemma_texts_push, str_eq, texts};
use crate::value::{find_key, lookup, lookup_entries, Entries, Value};

verus! {

broadcast use vstd::seq_lib::group_seq_properties;

/// The path of each selected endpoint.
pub open spec fn paths_of(sel: Seq<&Endpoint>) -> Seq<Seq<char>> {
    sel.map_values(|e: &Endpoint| e.path@)
}

/// The characters of a key, or nothing when the key is not a string.
pub open spec fn key_text(k: Value) -> Seq<char> {
    match k {
        Value::Str(s) => s@,
        _ => Seq::empty(),
    }
}

/// The entries of a mapping value; none for any other value.
pub open spec fn entries_or_empty(v: Value) -> Entries {
    match v {
        Value::Mapping(m) => m@,
        _ => Seq::empty(),
    }
}

/// The `paths` mapping of a document.
pub open spec fn paths_entries(doc: Entries) -> Entries {
    match lookup_entries(doc, "paths"@) {
        Some(m) => m,
        None => Seq::empty(),
    }
}

/// The `components` mapping of a document.
pub open spec fn components_entries(doc: Entries) -> Entries {
    match lookup_entries(doc, "components"@) {
        Some(m) => m,
        None => Seq::empty(),
    }
}

/// The selected paths that the paths mapping holds, each once, in selection order.
pub open spec fn picked_paths(pm: Entries, sel: Seq<Seq<char>>) -> Seq<Seq<char>>
    decreases sel.len(),
{
    if sel.len() == 0 {
        Seq::empty()
    } else {
        let prev = picked_paths(pm, sel.drop_last());
        if lookup(pm, sel.last()) is Some && !prev.contains(sel.last()) {
            prev.push(sel.last())
        } else {
            prev
        }
    }
}

/// Every `$ref` string inside the path items of the selected paths.
pub open spec fn selected_refs(pm: Entries, sel: Seq<Seq<char>>) -> Seq<Seq<char>>
    decreases sel.len(),
{
    if sel.len() == 0 {
        Seq::empty()
    } else {
        selected_refs(pm, sel.drop_last()) + match lookup(pm, sel.last()) {
            Some(v) => refs_in(v),
            None => Seq::empty(),
        }
    }
}

/// The schemes named by the `security` entries of the first `n` operations of a path item.
pub open spec fn operation_schemes(ops: Entries, n: int) -> Seq<Seq<char>>
    decreases n,
{
    if 0 < n <= ops.len() {
        operation_schemes(ops, n - 1) + match ops[n - 1].1 {
            Value::Mapping(om) => match lookup(om@, "security"@) {
                Some(sec) => scheme_names(sec),
                None => Seq::empty(),
            },
            _ => Seq::empty(),
        }
    } else {
        Seq::empty()
    }
}

/// The schemes that the operations of the selected paths require.
pub open spec fn selected_schemes(pm: Entries, sel: Seq<Seq<char>>) -> Seq<Seq<char>>
    decreases sel.len(),
{
    if sel.len() == 0 {
        Seq::empty()
    } else {
        selected_schemes(pm, sel.drop_last()) + match lookup(pm, sel.last()) {
            Some(Value::Mapping(ops)) => operation_schemes(ops@, ops@.len() as int),
            _ => Seq::empty(),
        }
    }
}

/// The security schemes to keep: those the selected operations require, and those the
/// document as a whole requires.
pub open spec fn document_schemes(doc: Entries, sel: Seq<Seq<char>>) -> Set<Seq<char>> {
    (selected_schemes(paths_entries(doc), sel) + match lookup(doc, "security"@) {
        Some(sec) => scheme_names(sec),
        None => Seq::empty(),
    }).to_set()
}

/// The component definitions to keep: everything reachable from the selected path items.
pub open spec fn document_closure(doc: Entries, sel: Seq<Seq<char>>) -> Set<Pair> {
    closure(components_entries(doc), parsed(selected_refs(paths_entries(doc), sel)).to_set())
}

/// Whether the member `name` of category `cat` stays in the output.
pub open spec fn keep_member(cat: Seq<char>, name: Seq<char>, reach: Set<Pair>, schemes: Set<Seq<char>>) -> bool {
    reach.contains((cat, name)) || (cat == "securitySchemes"@ && schemes.contains(name))
}

/// The members of a category that stay, in order.
pub open spec fn kept_members(members: Entries, cat: Seq<char>, reach: Set<Pair>, schemes: Set<Seq<char>>) -> Entries
    decreases members.len(),
{
    if members.len() == 0 {
        Seq::empty()
    } else {
        let prev = kept_members(members.drop_last(), cat, reach, schemes);
        if keep_member(cat, key_text(members.last().0), reach, schemes) {
            prev.push(members.last())
        } else {
            prev
        }
    }
}

/// The categories that keep at least one member, each with the members it keeps.
pub open spec fn kept_categories(cats: Entries, reach: Set<Pair>, schemes: Set<Seq<char>>) -> Seq<(Value, Entries)>
    decreases cats.len(),
{
    if cats.len() == 0 {
        Seq::empty()
    } else {
        let prev = kept_categories(cats.drop_last(), reach, schemes);
        let kept = kept_members(entries_or_empty(cats.last().1), key_text(cats.last().0), reach, schemes);
        if kept.len() > 0 {
            prev.push((cats.last().0, kept))
        } else {
            prev
        }
    }
}

/// `v` is a mapping whose entries are `want`, each inner mapping given by its entries.
pub open spec fn holds_categories(v: Value, want: Seq<(Value, Entries)>) -> bool {
    match v {
        Value::Mapping(m) => m@.len() == want.len() && forall|k: int|
            0 <= k < want.len() ==> (#[trigger] m@[k]).0 == want[k].0 && m@[k].1.entries() == Some(want[k].1),
        _ => false,
    }
}

/// `v` is a mapping from each of `picked` to its path item in `pm`, in that order.
pub open spec fn holds_paths(v: Value, pm: Entries, picked: Seq<Seq<char>>) -> bool {
    match v {
        Value::Mapping(m) => m@.len() == picked.len() && forall|k: int|
            0 <= k < picked.len() ==> (#[trigger] m@[k]).0.is_text(picked[k]) && lookup(pm, picked[k]) == Some(m@[k].1),
        _ => false,
    }
}

/// One top-level entry of the output, against the entry of the input at the same place.
pub open spec fn assembled_entry(doc: Entries, sel: Seq<Seq<char>>, orig: (Value, Value), out: (Value, Value)) -> bool {
    &&& out.0 == orig.0
    &&& if orig.0.is_text("paths"@) {
        let pm = entries_or_empty(orig.1);
        holds_paths(out.1, pm, picked_paths(pm, sel))
    } else if orig.0.is_text("components"@) {
        holds_categories(
            out.1,
            kept_categories(entries_or_empty(orig.1), document_closure(doc, sel), document_schemes(doc, sel)),
        )
    } else {
        out.1 == orig.1
    }
}

/// `out` is `doc` trimmed to the selected paths `sel`: the same top-level keys in the same
/// order, `paths` holding only the selected path items, `components` only what they need.
pub open spec fn is_assembled(doc: Entries, sel: Seq<Seq<char>>, out: Entries) -> bool {
    out.len() == doc.len() && forall|k: int| 0 <= k < doc.len() ==> assembled_entry(doc, sel, doc[k], #[trigger] out[k])
}

fn push_operation_schemes(ops: &Vec<(Value, Value)>, out: &mut Vec<String>)
    ensures
        texts(final(out)@) == texts(old(out)@) + operation_schemes(ops@, ops@.len() as int),
{
    let ghost start = texts(out@);
    let mut i: usize = 0;
    while i < ops.len()
        invariant
            0 <= i <= ops@.len(),
            texts(out@) == start + operation_schemes(ops@, i as int),
        decreases ops@.len() - i,
    {
        let ghost before = texts(out@);
        match &ops[i].1 {
            Value::Mapping(om) => match find_key(om, "security") {
                Some(k) => {
                    let mut found = extract_security_schemes(&om[k].1);
                    let ghost out0 = out@;
                    let ghost found0 = found@;
                    out.append(&mut found);
                    assert(texts(out@) =~= texts(out0) + texts(found0));
                },
                None => {},
            },
            _ => {},
        }
        assert(texts(out@) =~= start + operation_schemes(ops@, i + 1));
        i = i + 1;
    }
}

/// The `$ref` strings and the required security schemes of the selected path items.
fn gather_selected(pm: &Vec<(Value, Value)>, selected_items: &[&Endpoint]) -> (r: (Vec<String>, Vec<String>))
    ensures
        texts(r.0@) == selected_refs(pm@, paths_of(selected_items@)),
        texts(r.1@) == selected_schemes(pm@, paths_of(selected_items@)),
{
    let ghost sel = paths_of(selected_items@);
    let mut refs: Vec<String> = Vec::new();
    let mut schemes: Vec<String> = Vec::new();
    let mut i: usize = 0;
    while i < selected_items.len()
        invariant
            sel == paths_of(selected_items@),
            0 <= i <= selected_items@.len(),
            texts(refs@) == selected_refs(pm@, sel.take(i as int)),
            texts(schemes@) == selected_schemes(pm@, sel.take(i as int)),
        decreases selected_items@.len() - i,
    {
        let ghost refs0 = texts(refs@);
        let ghost schemes0 = texts(schemes@);
        assert(sel.take(i + 1).drop_last() =~= sel.take(i as int));
        assert(sel.take(i + 1).last() == selected_items@[i as int].path@);
        match find_key(pm, selected_items[i].path.as_str()) {
            Some(j) => {
                let mut found = fetch_all_references(&pm[j].1);
                refs.append(&mut found);
                match &pm[j].1 {
                    Value::Mapping(ops) => push_operation_schemes(ops, &mut schemes),
                    _ => {},
                }
            },
            None => {},
        }
        assert(texts(refs@) =~= selected_refs(pm@, sel.take(i + 1)));
        assert(texts(schemes@) =~= selected_schemes(pm@, sel.take(i + 1)));
        i = i + 1;
    }
    assert(sel.take(i as int) =~= sel);
    (refs, schemes)
}

/// Whether `v` holds a string with the characters of `s`.
fn contains_text(v: &Vec<String>, s: &str) -> (r: bool)
    ensures
        r == texts(v@).contains(s@),
{
    let mut i: usize = 0;
    while i < v.len()
        invariant
            0 <= i <= v@.len(),
            forall|k: int| 0 <= k < i ==> texts(v@)[k] != s@,
        decreases v@.len() - i,
    {
        if str_eq(v[i].as_str(), s) {
            assert(texts(v@)[i as int] == s@);
            return true;
        }
        i = i + 1;
    }
    false
}

proof fn lemma_lookup_unchanged(m1: Entries, m2: Entries, key: Seq<char>)
    requires
        m1.len() == m2.len(),
        forall|t: int| 0 <= t < m1.len() ==> (#[trigger] m1[t]).0 == m2[t].0,
        forall|t: int| 0 <= t < m1.len() && (#[trigger] m1[t]).0.is_text(key) ==> m1[t].1 == m2[t].1,
    ensures
        lookup(m1, key) == lookup(m2, key),
    decreases m1.len(),
{
    if m1.len() > 0 {
        assert(m1[0].0 == m2[0].0);
        lemma_lookup_unchanged(m1.drop_first(), m2.drop_first(), key);
    }
}

/// Moves the path item of each selected path out of `pm`, in selection order.
fn take_selected_paths(pm: Vec<(Value, Value)>, selected_items: &[&Endpoint]) -> (r: Vec<(Value, Value)>)
    ensures
        holds_paths(Value::Mapping(r), pm@, picked_paths(pm@, paths_of(selected_items@))),
{
    let ghost sel = paths_of(selected_items@);
    let ghost pm0 = pm@;
    let mut rest = pm;
    let mut out: Vec<(Value, Value)> = Vec::new();
    let mut picked: Vec<String> = Vec::new();
    let mut i: usize = 0;
    while i < selected_items.len()
        invariant
            sel == paths_of(selected_items@),
            0 <= i <= selected_items@.len(),
            texts(picked@) == picked_paths(pm0, sel.take(i as int)),
            rest@.len() == pm0.len(),
            forall|t: int| 0 <= t < pm0.len() ==> (#[trigger] rest@[t]).0 == pm0[t].0,
            forall|t: int| 0 <= t < pm0.len() && !texts(picked@).contains(key_text(pm0[t].0)) ==> (#[trigger] rest@[t]).1 == pm0[t].1,
            out@.len() == texts(picked@).len(),
            forall|k: int| 0 <= k < out@.len() ==> (#[trigger] out@[k]).0.is_text(texts(picked@)[k]) && lookup(pm0, texts(picked@)[k]) == Some(out@[k].1),
        decreases selected_items@.len() - i,
    {
        let path = selected_items[i].path.as_str();
        let ghost p = path@;
        let ghost picked0 = texts(picked@);
        let ghost out0 = out@;
        assert(sel.take(i + 1).drop_last() =~= sel.take(i as int));
        assert(sel.take(i + 1).last() == p);
        if !contains_text(&picked, path) {
            proof {
                assert forall|t: int| 0 <= t < rest@.len() && (#[trigger] rest@[t]).0.is_text(p) implies rest@[t].1 == pm0[t].1 by {
                    assert(rest@[t].0 == pm0[t].0);
                    assert(key_text(pm0[t].0) == p);
                }
                lemma_lookup_unchanged(rest@, pm0, p);
            }
            match find_key(&rest, path) {
                Some(j) => {
                    let ghost rest0 = rest@;
                    let (k, v) = rest.remove(j);
                    rest.insert(j, (k, Value::Null));
                    let s = selected_items[i].path.clone();
                    out.push((Value::Str(s), v));
                    picked.push(selected_items[i].path.clone());
                    proof {
                        lemma_texts_push(picked@.drop_last(), selected_items@[i as int].path);
                        assert(picked@.drop_last() =~= picked@.subrange(0, picked@.len() - 1));
                        assert(texts(picked@) =~= picked0.push(p));
                        assert(rest@ =~= rest0.update(j as int, (rest0[j as int].0, Value::Null)));
                        assert forall|t: int| 0 <= t < pm0.len() && !texts(picked@).contains(key_text(pm0[t].0)) implies (#[trigger] rest@[t]).1 == pm0[t].1 by {
                            if t == j {
                                assert(rest0[t].0.is_text(p));
                                assert(pm0[t].0 == rest0[t].0);
                                assert(key_text(pm0[t].0) == p);
                                assert(texts(picked@).last() == p);
                            } else {
                                assert(!picked0.contains(key_text(pm0[t].0)));
                            }
                        }
                        assert forall|k: int| 0 <= k < out@.len() implies (#[trigger] out@[k]).0.is_text(texts(picked@)[k]) && lookup(pm0, texts(picked@)[k]) == Some(out@[k].1) by {
                            if k < out0.len() {
                                assert(out@[k] == out0[k]);
                                assert(texts(picked@)[k] == picked0[k]);
                            }
                        }
                    }
                },
                None => {},
            }
        }
        assert(texts(picked@) == picked_paths(pm0, sel.take(i + 1)));
        i = i + 1;
    }
    assert(sel.take(i as int) =~= sel);
    out
}

/// The characters of a key, or the empty string when the key is not a string.
fn key_str(k: &Value) -> (r: &str)
    ensures
        r@ == key_text(*k),
{
    match k {
        Value::Str(s) => s.as_str(),
        _ => {
            proof {
                reveal_strlit("");
            }
            ""
        },
    }
}

/// Keeps, in each category, the members that the closure or the schemes name,
/// and drops the categories left empty.
fn filter_components(cats: Vec<(Value, Value)>, reach: &Vec<(String, String)>, schemes: &Vec<String>) -> (r: Vec<(Value, Value)>)
    ensures
        holds_categories(Value::Mapping(r), kept_categories(cats@, pairs(reach@).to_set(), texts(schemes@).to_set())),
{
    let ghost reach_set = pairs(reach@).to_set();
    let ghost scheme_set = texts(schemes@).to_set();
    let ghost cats0 = cats@;
    let mut rest = cats;
    let mut out: Vec<(Value, Value)> = Vec::new();
    let n = rest.len();
    let mut i: usize = 0;
    while i < n
        invariant
            n == cats0.len(),
            0 <= i <= n,
            rest@ == cats0.skip(i as int),
            reach_set == pairs(reach@).to_set(),
            scheme_set == texts(schemes@).to_set(),
            holds_categories(Value::Mapping(out), kept_categories(cats0.take(i as int), reach_set, scheme_set)),
        decreases n - i,
    {
        let ghost out0 = out@;
        let (ck, cv) = rest.remove(0);
        assert(cats0.take(i + 1).drop_last() =~= cats0.take(i as int));
        assert(cats0.take(i + 1).last() == (ck, cv));
        let cat = key_str(&ck);
        let is_schemes = str_eq(cat, "securitySchemes");
        let mut kept: Vec<(Value, Value)> = Vec::new();
        match cv {
            Value::Mapping(members) => {
                let ghost members0 = members@;
                let mut mrest = members;
                let m = mrest.len();
                let mut j: usize = 0;
                while j < m
                    invariant
                        m == members0.len(),
                        0 <= j <= m,
                        mrest@ == members0.skip(j as int),
                        reach_set == pairs(reach@).to_set(),
                        scheme_set == texts(schemes@).to_set(),
                        is_schemes == (cat@ == "securitySchemes"@),
                        kept@ == kept_members(members0.take(j as int), cat@, reach_set, scheme_set),
                    decreases m - j,
                {
                    let (ik, iv) = mrest.remove(0);
                    assert(members0.take(j + 1).drop_last() =~= members0.take(j as int));
                    assert(members0.take(j + 1).last() == (ik, iv));
                    let name = key_str(&ik);
                    let keep = contains_pair(reach, cat, name) || (is_schemes && contains_text(schemes, name));
                    if keep {
                        kept.push((ik, iv));
                    }
                    assert(mrest@ =~= members0.skip(j + 1));
                    j = j + 1;
                }
                assert(members0.take(j as int) =~= members0);
            },
            _ => {},
        }
        if kept.len() > 0 {
            out.push((ck, Value::Mapping(kept)));
            assert forall|k: int| 0 <= k < out0.len() implies out@[k] == out0[k] by {}
        }
        assert(rest@ =~= cats0.skip(i + 1));
        i = i + 1;
    }
    assert(cats0.take(i as int) =~= cats0);
    out
}

/// Builds the output document: `spec` with only the selected paths under `paths`, and
/// under `components` only the definitions those paths reach and the security schemes
/// they (or the document) require.  Top-level keys keep their order.
pub fn process_spec_for_output(spec: Vec<(Value, Value)>, selected_items: &[&Endpoint]) -> (r: Result<Vec<(Value, Value)>, StructuralError>)
    ensures
        match r {
            Ok(out) => lookup_entries(spec@, "paths"@) is Some && is_assembled(spec@, paths_of(selected_items@), out@),
            Err(e) => lookup_entries(spec@, "paths"@) is None && e == StructuralError::MissingPaths,
        },
{
    let ghost doc = spec@;
    let ghost sel = paths_of(selected_items@);
    let empty: Vec<(Value, Value)> = Vec::new();
    let (initial_refs, mut schemes) = match find_key(&spec, "paths") {
        Some(j) => match &spec[j].1 {
            Value::Mapping(pm) => gather_selected(pm, selected_items),
            _ => {
                return Err(StructuralError::MissingPaths);
            },
        },
        None => {
            return Err(StructuralError::MissingPaths);
        },
    };
    match find_key(&spec, "security") {
        Some(j) => {
            let mut top = extract_security_schemes(&spec[j].1);
            let ghost s0 = schemes@;
            let ghost t0 = top@;
            schemes.append(&mut top);
            assert(texts(schemes@) =~= texts(s0) + texts(t0));
        },
        None => {
            assert(texts(schemes@) =~= texts(schemes@) + Seq::<Seq<char>>::empty());
        },
    }
    let comps: &Vec<(Value, Value)> = match find_key(&spec, "components") {
        Some(j) => match &spec[j].1 {
            Value::Mapping(m) => m,
            _ => &empty,
        },
        None => &empty,
    };
    let reach = collect_transitive_references(comps, initial_refs.as_slice());
    assert(pairs(reach@).to_set() == document_closure(doc, sel));
    assert(texts(schemes@).to_set() == document_schemes(doc, sel));
    let mut rest = spec;
    let mut output: Vec<(Value, Value)> = Vec::new();
    let n = rest.len();
    let mut i: usize = 0;
    while i < n
        invariant
            n == doc.len(),
            0 <= i <= n,
            rest@ == doc.skip(i as int),
            sel == paths_of(selected_items@),
            pairs(reach@).to_set() == document_closure(doc, sel),
            texts(schemes@).to_set() == document_schemes(doc, sel),
            output@.len() == i,
            forall|k: int| 0 <= k < i ==> assembled_entry(doc, sel, doc[k], #[trigger] output@[k]),
        decreases n - i,
    {
        let ghost out0 = output@;
        let (key, value) = rest.remove(0);
        assert(doc[i as int] == (key, value));
        if key.has_text("paths") {
            let pm = match value {
                Value::Mapping(m) => m,
                _ => Vec::new(),
            };
            let picked = take_selected_paths(pm, selected_items);
            output.push((key, Value::Mapping(picked)));
        } else if key.has_text("components") {
            let cats = match value {
                Value::Mapping(m) => m,
                _ => Vec::new(),
            };
            let kept = filter_components(cats, &reach, &schemes);
            output.push((key, Value::Mapping(kept)));
        } else {
            output.push((key, value));
        }
        assert forall|k: int| 0 <= k < i + 1 implies assembled_entry(doc, sel, doc[k], #[trigger] output@[k]) by {
            if k < i {
                assert(output@[k] == out0[k]);
            }
        }
        assert(rest@ =~= doc.skip(i + 1));
        i = i + 1;
    }
    Ok(output)
}

} // verus!
