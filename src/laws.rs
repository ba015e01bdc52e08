//! Properties that hold across several operations of the library.
use vstd::prelude::*;
use crate::assemble::{
    document_closure, document_schemes, entries_or_empty, holds_categories, is_assembled, keep_member,
    kept_categories, kept_members, key_text, operation_schemes, paths_entries, selected_refs,
    selected_schemes,
};
use crate::catalog::{
    by_path, catalog_error, endpoint_of, entries_of, entry_error, path_before, path_endpoints, path_methods,
    paths_error, verb_count, EndpointView,
};
use crate::model::{filtered, first_with_path, flipped, full_list, step, Action, Message, ModelView};
use crate::order::{lemma_sort_keeps, lemma_stable_sort_of_ordered, ordered_by, sorts_stably, stable_sort_of};
use crate::resolve::{closure, edges, is_closed, parsed, scheme_names, Pair};
use crate::search::{lemma_selected_first_order, selected_first};
use crate::text::lemma_bytes_order;
use crate::value::{lookup, Entries, Value};

verus! {

broadcast use vstd::seq_lib::group_seq_properties;

/// Clearing the search brings back the whole list exactly as it stood when the search
/// began, whatever non-empty queries were typed in between, provided that list was in
/// its usual order (selected first, then by path).  `states[i + 1]` is `states[i]`
/// filtered with `queries[i]`.
pub proof fn lemma_empty_query_restores(states: Seq<ModelView>, queries: Seq<Seq<char>>, last: ModelView)
    requires
        states.len() == queries.len() + 1,
        forall|i: int| 0 <= i < queries.len() ==> (#[trigger] queries[i]).len() != 0 && filtered(states[i], queries[i], states[i + 1]),
        filtered(states.last(), Seq::empty(), last),
        ordered_by(full_list(states[0]), selected_first()),
    ensures
        last.items == full_list(states[0]),
        last.backup == Some(full_list(states[0])),
{
    lemma_full_list_kept(states, queries, queries.len() as int);
    lemma_selected_first_order();
    lemma_stable_sort_of_ordered(full_list(states[0]), last.items, selected_first());
}

proof fn lemma_full_list_kept(states: Seq<ModelView>, queries: Seq<Seq<char>>, k: int)
    requires
        states.len() == queries.len() + 1,
        forall|i: int| 0 <= i < queries.len() ==> (#[trigger] queries[i]).len() != 0 && filtered(states[i], queries[i], states[i + 1]),
        0 <= k <= queries.len(),
    ensures
        full_list(states[k]) == full_list(states[0]),
    decreases k,
{
    if k > 0 {
        lemma_full_list_kept(states, queries, k - 1);
        assert(queries[k - 1].len() != 0 && filtered(states[k - 1], queries[k - 1], states[k]));
    }
}

/// A toggle made while searching shows in the whole list once the search is cleared
/// or closed, provided the toggled endpoint belongs to that list.
pub proof fn lemma_toggle_survives_clear(a: ModelView, b: ModelView, c: ModelView, msg: Message, act: Action)
    requires
        a.search_active,
        a.backup is Some,
        a.selected matches Some(i) && i < a.items.len() && exists|j: int|
            0 <= j < a.backup.unwrap().len() && (#[trigger] a.backup.unwrap()[j]).path == a.items[i as int].path,
        step(a, Message::ToggleSelectItemAndSelectNext, b, Action::Nothing),
        msg is ClearSearch || msg is HideSearch,
        step(b, msg, c, act),
    ensures
        ({
            let i = a.selected.unwrap() as int;
            exists|k: int|
                0 <= k < c.items.len() && (#[trigger] c.items[k]).path == a.items[i].path && c.items[k].status
                    == flipped(a.items[i].status)
        }),
{
    let i = a.selected.unwrap() as int;
    let bk = a.backup.unwrap();
    let p = a.items[i].path;
    let s = flipped(a.items[i].status);
    let at = choose|at: Option<int>| first_with_path(bk, p, at);
    let j0 = choose|j: int| 0 <= j < bk.len() && (#[trigger] bk[j]).path == p;
    // The first occurrence of the path exists.
    assert(exists|at: Option<int>| first_with_path(bk, p, at)) by {
        lemma_first_occurrence(bk, p, j0);
    }
    assert(first_with_path(bk, p, at));
    let j = at.unwrap();
    let bk2 = b.backup.unwrap();
    assert(bk2[j].path == p && bk2[j].status == s);
    assert(stable_sort_of(bk2, c.items, selected_first()));
    lemma_sort_keeps(bk2, c.items, selected_first(), j);
}

/// A path that occurs has a first occurrence.
proof fn lemma_first_occurrence(items: Seq<EndpointView>, p: Seq<char>, j: int)
    requires
        0 <= j < items.len(),
        items[j].path == p,
    ensures
        exists|k: int| first_with_path(items, p, Some(k)),
    decreases j,
{
    if exists|k: int| 0 <= k < j && (#[trigger] items[k]).path == p {
        let k = choose|k: int| 0 <= k < j && (#[trigger] items[k]).path == p;
        lemma_first_occurrence(items, p, k);
    } else {
        assert(first_with_path(items, p, Some(j)));
    }
}

/// Closure follows pointers through definitions: when a seed `a` points to `b` and `b`
/// to `c`, all three are kept; a `d` that is no seed and that no definition points to
/// is not.
pub proof fn lemma_closure_chain(comps: Entries, seeds: Set<Pair>, a: Pair, b: Pair, c: Pair, d: Pair)
    requires
        seeds.contains(a),
        edges(comps, a).contains(b),
        edges(comps, b).contains(c),
        !seeds.contains(d),
        forall|p: Pair| !(#[trigger] edges(comps, p)).contains(d),
    ensures
        closure(comps, seeds).contains(a),
        closure(comps, seeds).contains(b),
        closure(comps, seeds).contains(c),
        !closure(comps, seeds).contains(d),
{
    let all = closure(comps, seeds);
    assert forall|s: Set<Pair>| seeds.subset_of(s) && #[trigger] is_closed(comps, s) implies s.contains(a) && s.contains(b) && s.contains(c) by {
        assert(s.contains(a));
        assert(edges(comps, a).contains(b));
        assert(s.contains(b));
        assert(edges(comps, b).contains(c));
    }
    assert(all.contains(a) && all.contains(b) && all.contains(c));
    let without = Set::new(|p: Pair| p != d);
    assert(seeds.subset_of(without));
    assert(is_closed(comps, without)) by {
        assert forall|p: Pair, q: Pair| without.contains(p) && #[trigger] edges(comps, p).contains(q) implies without.contains(q) by {
            assert(!edges(comps, p).contains(d));
        }
    }
    assert(!without.contains(d));
}

proof fn lemma_no_entry_error(pm: Entries, n: int, j: int)
    requires
        0 <= j < n <= pm.len(),
        paths_error(pm, n) is None,
    ensures
        entry_error(pm[j]) is None,
    decreases n,
{
    if j < n - 1 {
        lemma_no_entry_error(pm, n - 1, j);
    }
}

proof fn lemma_method_count(ops: Entries, n: int)
    requires
        0 <= n <= ops.len(),
    ensures
        path_methods(ops, n).len() == verb_count(ops, n),
    decreases n,
{
    if n > 0 {
        lemma_method_count(ops, n - 1);
    }
}

/// For a document whose path keys are all different, the endpoint table has one endpoint
/// per path key, in strictly ascending path order, and each endpoint has one method per
/// operation key of its path item.
pub proof fn lemma_catalog_shape(doc: Entries, items: Seq<EndpointView>)
    requires
        catalog_error(doc) is None,
        stable_sort_of(path_endpoints(doc), items, by_path()),
        forall|i: int, j: int|
            0 <= i < j < paths_entries(doc).len() ==> key_text(#[trigger] paths_entries(doc)[i].0) != key_text(
                #[trigger] paths_entries(doc)[j].0,
            ),
    ensures
        items.len() == paths_entries(doc).len(),
        forall|k: int, l: int| 0 <= k < l < items.len() ==> path_before(#[trigger] items[k], #[trigger] items[l]),
        forall|k: int|
            0 <= k < items.len() ==> exists|j: int|
                0 <= j < paths_entries(doc).len() && paths_entries(doc)[j].0.is_text((#[trigger] items[k]).path)
                    && items[k].methods.len() == verb_count(
                    entries_of(paths_entries(doc)[j].1),
                    entries_of(paths_entries(doc)[j].1).len() as int,
                ),
{
    let pm = paths_entries(doc);
    let es = path_endpoints(doc);
    let p = choose|p: Seq<int>| #[trigger] sorts_stably(es, items, p, by_path());
    assert forall|k: int| 0 <= k < items.len() implies items[k] == endpoint_of(pm[p[k]]) && pm[p[k]].0.is_text(items[k].path) by {
        lemma_no_entry_error(pm, pm.len() as int, p[k]);
    }
    assert forall|k: int, l: int| 0 <= k < l < items.len() implies path_before(#[trigger] items[k], #[trigger] items[l]) by {
        assert(crate::order::ordered_by(items, by_path()));
        assert(!by_path()(items[l], items[k]));
        assert(!path_before(items[l], items[k]));
        assert(p[k] != p[l]);
        if p[k] < p[l] {
            assert(key_text(pm[p[k]].0) != key_text(pm[p[l]].0));
        } else {
            assert(key_text(pm[p[l]].0) != key_text(pm[p[k]].0));
        }
        lemma_bytes_order(items[k].path, items[l].path, items[l].path);
    }
    assert forall|k: int| 0 <= k < items.len() implies exists|j: int|
        0 <= j < pm.len() && pm[j].0.is_text((#[trigger] items[k]).path) && items[k].methods.len() == verb_count(
            entries_of(pm[j].1),
            entries_of(pm[j].1).len() as int,
        ) by {
        let ops = entries_of(pm[p[k]].1);
        lemma_method_count(ops, ops.len() as int);
    }
}

proof fn lemma_nothing_kept(members: Entries, cat: Seq<char>)
    ensures
        kept_members(members, cat, Set::empty(), Set::empty()).len() == 0,
    decreases members.len(),
{
    if members.len() > 0 {
        lemma_nothing_kept(members.drop_last(), cat);
    }
}

proof fn lemma_no_category_kept(cats: Entries)
    ensures
        kept_categories(cats, Set::empty(), Set::empty()).len() == 0,
    decreases cats.len(),
{
    if cats.len() > 0 {
        lemma_no_category_kept(cats.drop_last());
        lemma_nothing_kept(entries_or_empty(cats.last().1), key_text(cats.last().0));
    }
}

/// With nothing selected, the output's `paths` is empty and its `components` holds no
/// category at all (so no `schemas` and no `securitySchemes`), provided the document as a
/// whole requires no security scheme.
pub proof fn lemma_empty_selection(doc: Entries, out: Entries)
    requires
        is_assembled(doc, Seq::empty(), out),
        match lookup(doc, "security"@) {
            Some(sec) => scheme_names(sec).len() == 0,
            None => true,
        },
    ensures
        forall|k: int|
            0 <= k < doc.len() && (#[trigger] doc[k]).0.is_text("paths"@) ==> out[k].1.entries() == Some(
                Seq::<(Value, Value)>::empty(),
            ),
        forall|k: int|
            0 <= k < doc.len() && (#[trigger] doc[k]).0.is_text("components"@) ==> out[k].1.entries() == Some(
                Seq::<(Value, Value)>::empty(),
            ),
{
    let sel = Seq::<Seq<char>>::empty();
    assert(selected_refs(paths_entries(doc), sel) == Seq::<Seq<char>>::empty());
    assert(parsed(Seq::<Seq<char>>::empty()) == Seq::<Pair>::empty());
    assert(Seq::<Pair>::empty().to_set() =~= Set::<Pair>::empty());
    let reach = document_closure(doc, sel);
    assert(reach =~= Set::<Pair>::empty()) by {
        assert forall|p: Pair| !reach.contains(p) by {
            let none = Set::<Pair>::empty();
            assert(is_closed(crate::assemble::components_entries(doc), none));
        }
    }
    let top: Seq<Seq<char>> = match lookup(doc, "security"@) {
        Some(sec) => scheme_names(sec),
        None => Seq::empty(),
    };
    assert(selected_schemes(paths_entries(doc), sel) == Seq::<Seq<char>>::empty());
    assert(Seq::<Seq<char>>::empty() + top =~= Seq::<Seq<char>>::empty());
    assert(document_schemes(doc, sel) =~= Set::<Seq<char>>::empty());
    assert forall|k: int|
        0 <= k < doc.len() && (#[trigger] doc[k]).0.is_text("components"@) implies out[k].1.entries() == Some(
            Seq::<(Value, Value)>::empty(),
        ) by {
        lemma_no_category_kept(entries_or_empty(doc[k].1));
        assert(crate::assemble::assembled_entry(doc, sel, doc[k], out[k]));
        assert(out[k].1.entries().unwrap() =~= Seq::<(Value, Value)>::empty());
    }
    assert forall|k: int|
        0 <= k < doc.len() && (#[trigger] doc[k]).0.is_text("paths"@) implies out[k].1.entries() == Some(
            Seq::<(Value, Value)>::empty(),
        ) by {
        assert(crate::assemble::assembled_entry(doc, sel, doc[k], out[k]));
        assert(out[k].1.entries().unwrap() =~= Seq::<(Value, Value)>::empty());
    }
}

/// The categories of a components mapping that have members, each with all of them.
pub open spec fn nonempty_categories(cats: Entries) -> Seq<(Value, Entries)>
    decreases cats.len(),
{
    if cats.len() == 0 {
        Seq::empty()
    } else {
        nonempty_categories(cats.drop_last()) + if entries_or_empty(cats.last().1).len() > 0 {
            seq![(cats.last().0, entries_or_empty(cats.last().1))]
        } else {
            Seq::empty()
        }
    }
}

proof fn lemma_all_members_kept(members: Entries, cat: Seq<char>, reach: Set<Pair>, schemes: Set<Seq<char>>)
    requires
        forall|i: int| 0 <= i < members.len() ==> keep_member(cat, key_text((#[trigger] members[i]).0), reach, schemes),
    ensures
        kept_members(members, cat, reach, schemes) == members,
    decreases members.len(),
{
    if members.len() > 0 {
        let front = members.drop_last();
        assert forall|i: int| 0 <= i < front.len() implies keep_member(cat, key_text((#[trigger] front[i]).0), reach, schemes) by {
            assert(front[i] == members[i]);
        }
        lemma_all_members_kept(front, cat, reach, schemes);
        assert(front.push(members.last()) =~= members);
    }
}

proof fn lemma_all_categories_kept(cats: Entries, reach: Set<Pair>, schemes: Set<Seq<char>>)
    requires
        forall|ci: int, mi: int|
            0 <= ci < cats.len() && 0 <= mi < entries_or_empty(cats[ci].1).len() ==> keep_member(
                key_text(cats[ci].0),
                key_text((#[trigger] entries_or_empty(#[trigger] cats[ci].1)[mi]).0),
                reach,
                schemes,
            ),
    ensures
        kept_categories(cats, reach, schemes) == nonempty_categories(cats),
    decreases cats.len(),
{
    if cats.len() > 0 {
        let front = cats.drop_last();
        assert forall|ci: int, mi: int|
            0 <= ci < front.len() && 0 <= mi < entries_or_empty(front[ci].1).len() implies keep_member(
                key_text(front[ci].0),
                key_text((#[trigger] entries_or_empty(#[trigger] front[ci].1)[mi]).0),
                reach,
                schemes,
            ) by {
            assert(front[ci] == cats[ci]);
        }
        lemma_all_categories_kept(front, reach, schemes);
        let last = cats.last();
        let ms = entries_or_empty(last.1);
        assert forall|i: int| 0 <= i < ms.len() implies keep_member(key_text(last.0), key_text((#[trigger] ms[i]).0), reach, schemes) by {
            assert(cats[cats.len() - 1] == last);
        }
        lemma_all_members_kept(ms, key_text(last.0), reach, schemes);
    }
}

/// Selecting every endpoint keeps the top-level keys in their order and, when every
/// component definition is reachable from some path or is a required security scheme,
/// keeps every member of every category.
pub proof fn lemma_full_selection(doc: Entries, sel: Seq<Seq<char>>, out: Entries)
    requires
        is_assembled(doc, sel, out),
        sel == paths_entries(doc).map_values(|e: (Value, Value)| key_text(e.0)),
        forall|k: int, ci: int, mi: int|
            0 <= k < doc.len() && doc[k].0.is_text("components"@) && 0 <= ci < entries_or_empty(doc[k].1).len()
                && 0 <= mi < entries_or_empty(entries_or_empty(doc[k].1)[ci].1).len() ==> keep_member(
                key_text(entries_or_empty(doc[k].1)[ci].0),
                key_text((#[trigger] entries_or_empty(#[trigger] entries_or_empty(#[trigger] doc[k].1)[ci].1)[mi]).0),
                document_closure(doc, sel),
                document_schemes(doc, sel),
            ),
    ensures
        out.len() == doc.len(),
        forall|k: int| 0 <= k < doc.len() ==> (#[trigger] out[k]).0 == doc[k].0,
        forall|k: int|
            0 <= k < doc.len() && (#[trigger] doc[k]).0.is_text("components"@) ==> holds_categories(
                out[k].1,
                nonempty_categories(entries_or_empty(doc[k].1)),
            ),
{
    assert forall|k: int| 0 <= k < doc.len() implies (#[trigger] out[k]).0 == doc[k].0 by {
        assert(crate::assemble::assembled_entry(doc, sel, doc[k], out[k]));
    }
    assert forall|k: int|
        0 <= k < doc.len() && (#[trigger] doc[k]).0.is_text("components"@) implies holds_categories(
            out[k].1,
            nonempty_categories(entries_or_empty(doc[k].1)),
        ) by {
        assert(crate::assemble::assembled_entry(doc, sel, doc[k], out[k]));
        reveal_strlit("paths");
        reveal_strlit("components");
        assert("paths"@.len() == 5);
        assert("components"@.len() == 10);
        assert(!doc[k].0.is_text("paths"@));
        let cats = entries_or_empty(doc[k].1);
        assert(holds_categories(out[k].1, kept_categories(cats, document_closure(doc, sel), document_schemes(doc, sel))));
        assert forall|ci: int, mi: int|
            0 <= ci < cats.len() && 0 <= mi < entries_or_empty(cats[ci].1).len() implies keep_member(
                key_text(cats[ci].0),
                key_text((#[trigger] entries_or_empty(#[trigger] cats[ci].1)[mi]).0),
                document_closure(doc, sel),
                document_schemes(doc, sel),
            ) by {}
        lemma_all_categories_kept(cats, document_closure(doc, sel), document_schemes(doc, sel));
    }
}

/// The operation `op` requires the security scheme `name`.
pub open spec fn operation_requires(op: Value, name: Seq<char>) -> bool {
    match op {
        Value::Mapping(om) => match lookup(om@, "security"@) {
            Some(sec) => scheme_names(sec).contains(name),
            None => false,
        },
        _ => false,
    }
}

/// The path item of `path` has an operation at `oi` that requires the scheme `name`.
pub open spec fn path_requires(pm: Entries, path: Seq<char>, oi: int, name: Seq<char>) -> bool {
    match lookup(pm, path) {
        Some(Value::Mapping(ops)) => 0 <= oi < ops@.len() && operation_requires(ops@[oi].1, name),
        _ => false,
    }
}

proof fn lemma_operation_schemes_hold(ops: Entries, n: int, oi: int, name: Seq<char>)
    requires
        0 <= oi < n <= ops.len(),
        operation_requires(ops[oi].1, name),
    ensures
        operation_schemes(ops, n).contains(name),
    decreases n,
{
    if oi < n - 1 {
        lemma_operation_schemes_hold(ops, n - 1, oi, name);
    }
}

proof fn lemma_selected_schemes_hold(pm: Entries, sel: Seq<Seq<char>>, si: int, name: Seq<char>)
    requires
        0 <= si < sel.len(),
        operation_schemes(entries_or_empty(lookup(pm, sel[si]).unwrap()), entries_or_empty(lookup(pm, sel[si]).unwrap()).len() as int).contains(name),
        lookup(pm, sel[si]) is Some && lookup(pm, sel[si]).unwrap() is Mapping,
    ensures
        selected_schemes(pm, sel).contains(name),
    decreases sel.len(),
{
    if si < sel.len() - 1 {
        lemma_selected_schemes_hold(pm, sel.drop_last(), si, name);
    } else {
        assert(sel.last() == sel[si]);
    }
}

proof fn lemma_kept_member_stays(members: Entries, cat: Seq<char>, reach: Set<Pair>, schemes: Set<Seq<char>>, i: int)
    requires
        0 <= i < members.len(),
        keep_member(cat, key_text(members[i].0), reach, schemes),
    ensures
        kept_members(members, cat, reach, schemes).contains(members[i]),
    decreases members.len(),
{
    if i < members.len() - 1 {
        assert(members.drop_last()[i] == members[i]);
        lemma_kept_member_stays(members.drop_last(), cat, reach, schemes, i);
    } else {
        let kept = kept_members(members, cat, reach, schemes);
        assert(kept.last() == members[i]);
    }
}

/// A security scheme that an operation of a selected path requires is kept, with no
/// `$ref` to it anywhere: every `securitySchemes` member of that name stays.
pub proof fn lemma_required_scheme_kept(doc: Entries, sel: Seq<Seq<char>>, si: int, oi: int, name: Seq<char>)
    requires
        0 <= si < sel.len(),
        path_requires(paths_entries(doc), sel[si], oi, name),
    ensures
        document_schemes(doc, sel).contains(name),
        forall|members: Entries, i: int|
            0 <= i < members.len() && key_text((#[trigger] members[i]).0) == name ==> kept_members(
                members,
                "securitySchemes"@,
                document_closure(doc, sel),
                document_schemes(doc, sel),
            ).contains(members[i]),
{
    let ops = entries_or_empty(lookup(paths_entries(doc), sel[si]).unwrap());
    lemma_operation_schemes_hold(ops, ops.len() as int, oi, name);
    lemma_selected_schemes_hold(paths_entries(doc), sel, si, name);
    let top: Seq<Seq<char>> = match lookup(doc, "security"@) {
        Some(sec) => scheme_names(sec),
        None => Seq::empty(),
    };
    let all = selected_schemes(paths_entries(doc), sel) + top;
    let k = choose|k: int| 0 <= k < selected_schemes(paths_entries(doc), sel).len() && selected_schemes(paths_entries(doc), sel)[k] == name;
    assert(all[k] == name);
    assert forall|members: Entries, i: int|
        0 <= i < members.len() && key_text((#[trigger] members[i]).0) == name implies kept_members(
            members,
            "securitySchemes"@,
            document_closure(doc, sel),
            document_schemes(doc, sel),
        ).contains(members[i]) by {
        lemma_kept_member_stays(members, "securitySchemes"@, document_closure(doc, sel), document_schemes(doc, sel), i);
    }
}

/// The cursor is on a row of the shown list, and there is a cursor exactly when the
/// list is not empty.
pub open spec fn cursor_valid(m: ModelView) -> bool {
    match m.selected {
        Some(i) => i < m.items.len(),
        None => m.items.len() == 0,
    }
}

/// No message moves the cursor off the shown list: a session that starts with a valid
/// cursor keeps one.
pub proof fn lemma_update_keeps_cursor_valid(a: ModelView, msg: Message, b: ModelView, act: Action)
    requires
        cursor_valid(a),
        step(a, msg, b, act),
    ensures
        cursor_valid(b),
{
    match msg {
        Message::ToggleSelectItemAndSelectNext => {
            if !(a.items.len() == 0 || a.selected is None || a.selected.unwrap() >= a.items.len()) && !a.search_active {
                let i = a.selected.unwrap() as int;
                let shown = a.items.update(i, crate::model::with_status(a.items[i], flipped(a.items[i].status)));
                let p = choose|p: Seq<int>| #[trigger] sorts_stably(shown, b.items, p, selected_first());
            }
        },
        Message::HideSearch => {
            match a.backup {
                Some(bk) => {
                    let p = choose|p: Seq<int>| #[trigger] sorts_stably(bk, b.items, p, selected_first());
                },
                None => {},
            }
        },
        _ => {},
    }
}

} // verus!
