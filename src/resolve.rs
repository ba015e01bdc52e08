//! The transitive closure of component definitions that a set of endpoints needs.
use vstd::prelude::*;
use vstd::seq_lib::*;
use vstd::set_lib::*;
use crate::refs::{component_ref, fetch_all_references, parse_component_ref, refs_in};
use crate::text::{str_eq, texts};
use crate::value::{find_key, lookup, Entries, Value};

verus! {

broadcast use group_seq_properties, seq_to_set_is_finite;

/// A component's `(category, name)`.
pub type Pair = (Seq<char>, Seq<char>);

/// The characters of a `(category, name)` pair.
pub open spec fn pair_of(p: (String, String)) -> Pair {
    (p.0@, p.1@)
}

/// The characters of each pair of a list.
pub open spec fn pairs(v: Seq<(String, String)>) -> Seq<Pair> {
    v.map_values(|p: (String, String)| pair_of(p))
}

/// The definition that `p` names in a `components` mapping.
pub open spec fn component(comps: Entries, p: Pair) -> Option<Value> {
    match lookup(comps, p.0) {
        Some(Value::Mapping(m)) => lookup(m@, p.1),
        _ => None,
    }
}

/// The component pairs named by those pointers that have the `#/components/...` shape, in order.
pub open spec fn parsed(refs: Seq<Seq<char>>) -> Seq<Pair>
    decreases refs.len(),
{
    if refs.len() == 0 {
        Seq::empty()
    } else {
        parsed(refs.drop_last()) + match component_ref(refs.last()) {
            Some(p) => seq![p],
            None => Seq::empty(),
        }
    }
}

/// The pairs that the definition named by `p` points to directly.
pub open spec fn edges(comps: Entries, p: Pair) -> Set<Pair> {
    match component(comps, p) {
        Some(v) => parsed(refs_in(v)).to_set(),
        None => Set::empty(),
    }
}

/// Every definition pointed to from a member of `s` is a member of `s`.
pub open spec fn is_closed(comps: Entries, s: Set<Pair>) -> bool {
    forall|p: Pair, q: Pair| s.contains(p) && #[trigger] edges(comps, p).contains(q) ==> s.contains(q)
}

/// The least set that holds `seeds` and is closed: the pairs reachable from a seed.
pub open spec fn closure(comps: Entries, seeds: Set<Pair>) -> Set<Pair> {
    Set::new(|p: Pair| forall|s: Set<Pair>| seeds.subset_of(s) && #[trigger] is_closed(comps, s) ==> s.contains(p))
}

/// The pointers inside the first `n` definitions of one category.
spec fn member_refs(m: Entries, n: int) -> Seq<Seq<char>>
    decreases n,
{
    if 0 < n <= m.len() {
        member_refs(m, n - 1) + refs_in(m[n - 1].1)
    } else {
        Seq::empty()
    }
}

/// The pointers inside every definition of the first `n` categories.
spec fn category_refs(comps: Entries, n: int) -> Seq<Seq<char>>
    decreases n,
{
    if 0 < n <= comps.len() {
        category_refs(comps, n - 1) + match comps[n - 1].1 {
            Value::Mapping(m) => member_refs(m@, m@.len() as int),
            _ => Seq::empty(),
        }
    } else {
        Seq::empty()
    }
}

/// Every pair that the closure can ever meet: a finite bound on its size.
spec fn universe(comps: Entries, seeds: Seq<Seq<char>>) -> Set<Pair> {
    parsed(seeds + category_refs(comps, comps.len() as int)).to_set()
}

proof fn lemma_parsed_contains(refs: Seq<Seq<char>>, i: int, p: Pair)
    requires
        0 <= i < refs.len(),
        component_ref(refs[i]) == Some(p),
    ensures
        parsed(refs).contains(p),
    decreases refs.len(),
{
    if i == refs.len() - 1 {
        assert(parsed(refs).last() == p);
    } else {
        assert(refs.drop_last()[i] == refs[i]);
        lemma_parsed_contains(refs.drop_last(), i, p);
        let k = choose|k: int| 0 <= k < parsed(refs.drop_last()).len() && parsed(refs.drop_last())[k] == p;
        assert(parsed(refs)[k] == p);
    }
}

proof fn lemma_parsed_source(refs: Seq<Seq<char>>, p: Pair)
    requires
        parsed(refs).contains(p),
    ensures
        exists|i: int| 0 <= i < refs.len() && component_ref(#[trigger] refs[i]) == Some(p),
    decreases refs.len(),
{
    let front = parsed(refs.drop_last());
    let k = choose|k: int| 0 <= k < parsed(refs).len() && parsed(refs)[k] == p;
    if k < front.len() {
        assert(front[k] == p);
        lemma_parsed_source(refs.drop_last(), p);
        let i = choose|i: int| 0 <= i < refs.drop_last().len() && component_ref(#[trigger] refs.drop_last()[i]) == Some(p);
        assert(refs[i] == refs.drop_last()[i]);
    } else {
        assert(component_ref(refs[refs.len() - 1]) == Some(p));
    }
}

/// A pointer list whose pointers all occur in another names no pair that the other does not.
proof fn lemma_parsed_subset(a: Seq<Seq<char>>, b: Seq<Seq<char>>)
    requires
        forall|r: Seq<char>| a.contains(r) ==> b.contains(r),
    ensures
        parsed(a).to_set().subset_of(parsed(b).to_set()),
{
    assert forall|p: Pair| parsed(a).to_set().contains(p) implies parsed(b).to_set().contains(p) by {
        lemma_parsed_source(a, p);
        let i = choose|i: int| 0 <= i < a.len() && component_ref(#[trigger] a[i]) == Some(p);
        assert(a.contains(a[i]));
        let j = choose|j: int| 0 <= j < b.len() && b[j] == a[i];
        lemma_parsed_contains(b, j, p);
    }
}

proof fn lemma_lookup_source(m: Entries, key: Seq<char>)
    requires
        lookup(m, key) is Some,
    ensures
        exists|i: int| 0 <= i < m.len() && Some(#[trigger] m[i].1) == lookup(m, key),
    decreases m.len(),
{
    if !m[0].0.is_text(key) {
        lemma_lookup_source(m.drop_first(), key);
        let i = choose|i: int| 0 <= i < m.drop_first().len() && Some(#[trigger] m.drop_first()[i].1) == lookup(m.drop_first(), key);
        assert(m[i + 1] == m.drop_first()[i]);
    } else {
        assert(Some(m[0].1) == lookup(m, key));
    }
}

proof fn lemma_member_refs(m: Entries, n: int, i: int, r: Seq<char>)
    requires
        0 <= i < n <= m.len(),
        refs_in(m[i].1).contains(r),
    ensures
        member_refs(m, n).contains(r),
    decreases n,
{
    if i < n - 1 {
        lemma_member_refs(m, n - 1, i, r);
    }
}

proof fn lemma_category_refs(comps: Entries, n: int, j: int, r: Seq<char>)
    requires
        0 <= j < n <= comps.len(),
        comps[j].1 is Mapping,
        member_refs(comps[j].1->Mapping_0@, comps[j].1->Mapping_0@.len() as int).contains(r),
    ensures
        category_refs(comps, n).contains(r),
    decreases n,
{
    if j < n - 1 {
        lemma_category_refs(comps, n - 1, j, r);
    }
}

/// The pairs a definition points to all lie in the universe.
proof fn lemma_edges_in_universe(comps: Entries, seeds: Seq<Seq<char>>, p: Pair)
    ensures
        edges(comps, p).subset_of(universe(comps, seeds)),
{
    match component(comps, p) {
        Some(v) => {
            lemma_lookup_source(comps, p.0);
            let j = choose|j: int| 0 <= j < comps.len() && Some(#[trigger] comps[j].1) == lookup(comps, p.0);
            let m = comps[j].1->Mapping_0@;
            lemma_lookup_source(m, p.1);
            let i = choose|i: int| 0 <= i < m.len() && Some(#[trigger] m[i].1) == lookup(m, p.1);
            let all = seeds + category_refs(comps, comps.len() as int);
            assert forall|r: Seq<char>| refs_in(v).contains(r) implies all.contains(r) by {
                lemma_member_refs(m, m.len() as int, i, r);
                lemma_category_refs(comps, comps.len() as int, j, r);
                let k = choose|k: int| 0 <= k < category_refs(comps, comps.len() as int).len()
                    && category_refs(comps, comps.len() as int)[k] == r;
                assert(all[seeds.len() + k] == r);
            }
            lemma_parsed_subset(refs_in(v), all);
        },
        None => {},
    }
}

proof fn lemma_to_set_push<A>(s: Seq<A>, x: A)
    ensures
        s.push(x).to_set() == s.to_set().insert(x),
        (s + seq![x]).to_set() == s.to_set().insert(x),
{
    assert(s + seq![x] =~= s.push(x));
    assert(s.push(x).to_set() =~= s.to_set().insert(x));
}

/// Whether `v` holds the pair `(category, name)`.
pub(crate) fn contains_pair(v: &Vec<(String, String)>, category: &str, name: &str) -> (r: bool)
    ensures
        r == pairs(v@).contains((category@, name@)),
{
    let mut i: usize = 0;
    while i < v.len()
        invariant
            0 <= i <= v@.len(),
            forall|k: int| 0 <= k < i ==> pairs(v@)[k] != (category@, name@),
        decreases v@.len() - i,
    {
        if str_eq(v[i].0.as_str(), category) && str_eq(v[i].1.as_str(), name) {
            assert(pairs(v@)[i as int] == (category@, name@));
            return true;
        }
        i = i + 1;
    }
    false
}

/// The set of `(category, name)` pairs reachable from the `#/components/...` pointers in
/// `initial_refs`, following the pointers inside each definition found in `components`.
/// Pairs that name no definition are kept but lead nowhere; other pointers are ignored.
pub fn collect_transitive_references(components: &Vec<(Value, Value)>, initial_refs: &[String]) -> (r: Vec<(String, String)>)
    ensures
        pairs(r@).no_duplicates(),
        pairs(r@).to_set() == closure(components@, parsed(texts(initial_refs@)).to_set()),
{
    let ghost comps = components@;
    let ghost seed_refs = texts(initial_refs@);
    let ghost seeds = parsed(seed_refs).to_set();
    let ghost uni = universe(comps, seed_refs);
    let mut all_refs: Vec<(String, String)> = Vec::new();
    let mut to_process: Vec<(String, String)> = Vec::new();
    proof {
        assert forall|q: Pair| seeds.contains(q) implies uni.contains(q) by {
            lemma_parsed_subset(seed_refs, seed_refs + category_refs(comps, comps.len() as int));
        }
    }
    let mut i: usize = 0;
    while i < initial_refs.len()
        invariant
            seed_refs == texts(initial_refs@),
            seeds == parsed(seed_refs).to_set(),
            0 <= i <= initial_refs@.len(),
            pairs(all_refs@).no_duplicates(),
            pairs(to_process@) == pairs(all_refs@),
            pairs(all_refs@).to_set() == parsed(seed_refs.take(i as int)).to_set(),
        decreases initial_refs@.len() - i,
    {
        let ghost before = pairs(all_refs@);
        assert(seed_refs.take(i + 1).drop_last() =~= seed_refs.take(i as int));
        match parse_component_ref(initial_refs[i].as_str()) {
            Some((c, n)) => {
                proof {
                    assert(seed_refs.take(i + 1).last() == seed_refs[i as int]);
                    assert(parsed(seed_refs.take(i + 1)) =~= parsed(seed_refs.take(i as int)) + seq![(c@, n@)]);
                    lemma_to_set_push(parsed(seed_refs.take(i as int)), (c@, n@));
                    lemma_to_set_push(before, (c@, n@));
                }
                if !contains_pair(&all_refs, c.as_str(), n.as_str()) {
                    all_refs.push((c.clone(), n.clone()));
                    to_process.push((c, n));
                    assert(pairs(all_refs@) =~= before.push((c@, n@)));
                    assert(pairs(to_process@) =~= before.push((c@, n@)));
                } else {
                    assert(pairs(all_refs@) =~= before);
                }
                assert(pairs(all_refs@).to_set() =~= parsed(seed_refs.take(i + 1)).to_set());
            },
            None => {
                assert(parsed(seed_refs.take(i + 1)) =~= parsed(seed_refs.take(i as int)));
            },
        }
        i = i + 1;
    }
    assert(seed_refs.take(i as int) =~= seed_refs);
    proof {
        pairs(all_refs@).unique_seq_to_set();
        lemma_len_subset(pairs(all_refs@).to_set(), uni);
    }
    while to_process.len() > 0
        invariant
            comps == components@,
            seeds == parsed(texts(initial_refs@)).to_set(),
            uni == universe(comps, texts(initial_refs@)),
            uni.finite(),
            pairs(all_refs@).no_duplicates(),
            pairs(to_process@).no_duplicates(),
            pairs(to_process@).to_set().subset_of(pairs(all_refs@).to_set()),
            pairs(all_refs@).to_set().subset_of(uni),
            all_refs@.len() <= uni.len(),
            seeds.subset_of(pairs(all_refs@).to_set()),
            forall|p: Pair| #[trigger] pairs(all_refs@).contains(p) ==> pairs(to_process@).contains(p)
                || edges(comps, p).subset_of(pairs(all_refs@).to_set()),
            forall|s: Set<Pair>| seeds.subset_of(s) && #[trigger] is_closed(comps, s) ==> pairs(all_refs@).to_set().subset_of(s),
        decreases uni.len() - all_refs@.len(), to_process@.len(),
    {
        let ghost todo0 = pairs(to_process@);
        let (comp_type, comp_name) = to_process.pop().unwrap();
        let ghost p = (comp_type@, comp_name@);
        proof {
            assert(pairs(to_process@) =~= todo0.drop_last());
            assert(todo0.last() == p);
            assert(todo0.contains(p));
            assert(!pairs(to_process@).contains(p)) by {
                if pairs(to_process@).contains(p) {
                    let k = choose|k: int| 0 <= k < pairs(to_process@).len() && pairs(to_process@)[k] == p;
                    assert(todo0[k] == todo0[todo0.len() - 1]);
                }
            }
        }
        let ghost all0 = pairs(all_refs@);
        let mut found: Option<&Value> = None;
        match find_key(components, comp_type.as_str()) {
            Some(j) => match &components[j].1 {
                Value::Mapping(m) => match find_key(m, comp_name.as_str()) {
                    Some(k) => {
                        found = Some(&m[k].1);
                    },
                    None => {},
                },
                _ => {},
            },
            None => {},
        }
        assert(match found {
            Some(v) => component(comps, p) == Some(*v),
            None => component(comps, p) is None,
        });
        match found {
            Some(comp_value) => {
                let nested = fetch_all_references(comp_value);
                let ghost nested_refs = texts(nested@);
                proof {
                    lemma_edges_in_universe(comps, texts(initial_refs@), p);
                }
                assert(pairs(all_refs@).to_set().contains(p));
                let mut k: usize = 0;
                while k < nested.len()
                    invariant
                        comps == components@,
                        seeds == parsed(texts(initial_refs@)).to_set(),
                        uni == universe(comps, texts(initial_refs@)),
                        uni.finite(),
                        nested_refs == texts(nested@),
                        nested_refs == refs_in(*comp_value),
                        component(comps, p) == Some(*comp_value),
                        edges(comps, p).subset_of(uni),
                        0 <= k <= nested@.len(),
                        pairs(all_refs@).contains(p),
                        !pairs(to_process@).contains(p),
                        all0.to_set().subset_of(pairs(all_refs@).to_set()),
                        pairs(all_refs@).no_duplicates(),
                        pairs(to_process@).no_duplicates(),
                        pairs(to_process@).to_set().subset_of(pairs(all_refs@).to_set()),
                        pairs(all_refs@).to_set().subset_of(uni),
                        all_refs@.len() <= uni.len(),
                        all_refs@.len() >= all0.len(),
                        all_refs@.len() == all0.len() ==> pairs(to_process@).len() == todo0.len() - 1,
                        seeds.subset_of(pairs(all_refs@).to_set()),
                        parsed(nested_refs.take(k as int)).to_set().subset_of(pairs(all_refs@).to_set()),
                        forall|q: Pair| #[trigger] pairs(all_refs@).contains(q) && q != p ==> pairs(to_process@).contains(q)
                            || edges(comps, q).subset_of(pairs(all_refs@).to_set()),
                        forall|s: Set<Pair>| seeds.subset_of(s) && #[trigger] is_closed(comps, s) ==> pairs(all_refs@).to_set().subset_of(s),
                    decreases nested@.len() - k,
                {
                    let ghost a1 = pairs(all_refs@);
                    let ghost t1 = pairs(to_process@);
                    assert(nested_refs.take(k + 1).drop_last() =~= nested_refs.take(k as int));
                    match parse_component_ref(nested[k].as_str()) {
                        Some((c, n)) => {
                            proof {
                                assert(nested_refs.take(k + 1).last() == nested_refs[k as int]);
                                assert(parsed(nested_refs.take(k + 1)) =~= parsed(nested_refs.take(k as int)) + seq![(c@, n@)]);
                                lemma_to_set_push(parsed(nested_refs.take(k as int)), (c@, n@));
                                lemma_to_set_push(a1, (c@, n@));
                                lemma_to_set_push(t1, (c@, n@));
                            }
                            if !contains_pair(&all_refs, c.as_str(), n.as_str()) {
                                let ghost q = (c@, n@);
                                proof {
                                    assert(parsed(nested_refs.take(k + 1)).last() == q);
                                    assert(parsed(nested_refs.take(k + 1)).contains(q));
                                    lemma_parsed_subset(nested_refs.take(k + 1), nested_refs);
                                    assert(edges(comps, p).contains(q));
                                    assert(!a1.contains(q));
                                    assert(!t1.contains(q)) by {
                                        if t1.contains(q) {
                                            assert(t1.to_set().contains(q));
                                            assert(a1.to_set().contains(q));
                                        }
                                    }
                                    assert(a1.push(q).no_duplicates());
                                    assert(t1.push(q).no_duplicates());
                                    a1.push(q).unique_seq_to_set();
                                    lemma_len_subset(a1.push(q).to_set(), uni);
                                    assert forall|s: Set<Pair>| seeds.subset_of(s) && #[trigger] is_closed(comps, s) implies a1.push(q).to_set().subset_of(s) by {
                                        assert(a1.to_set().subset_of(s));
                                        assert(s.contains(p));
                                    }
                                }
                                all_refs.push((c.clone(), n.clone()));
                                to_process.push((c, n));
                                assert(pairs(all_refs@) =~= a1.push(q));
                                assert(pairs(to_process@) =~= t1.push(q));
                            }
                            assert(parsed(nested_refs.take(k + 1)).to_set().subset_of(pairs(all_refs@).to_set()));
                        },
                        None => {
                            assert(parsed(nested_refs.take(k + 1)) =~= parsed(nested_refs.take(k as int)));
                        },
                    }
                    k = k + 1;
                }
                assert(nested_refs.take(k as int) =~= nested_refs);
            },
            None => {},
        }
    }
    proof {
        let a = pairs(all_refs@).to_set();
        assert(is_closed(comps, a));
        assert(a =~= closure(comps, seeds));
    }
    all_refs
}

/// The string keys of a mapping, in order.
pub open spec fn string_keys(m: Entries) -> Seq<Seq<char>>
    decreases m.len(),
{
    if m.len() == 0 {
        Seq::empty()
    } else {
        string_keys(m.drop_last()) + match m.last().0 {
            Value::Str(s) => seq![s@],
            _ => Seq::empty(),
        }
    }
}

/// The string keys of the mappings among the first `n` items of a list.
pub open spec fn requirement_keys(items: Seq<Value>, n: int) -> Seq<Seq<char>>
    decreases n,
{
    if 0 < n <= items.len() {
        requirement_keys(items, n - 1) + match items[n - 1] {
            Value::Mapping(m) => string_keys(m@),
            _ => Seq::empty(),
        }
    } else {
        Seq::empty()
    }
}

/// The scheme names of a security requirement: the keys of each mapping of a list,
/// or the keys of a single mapping.
pub open spec fn scheme_names(v: Value) -> Seq<Seq<char>> {
    match v {
        Value::Sequence(items) => requirement_keys(items@, items@.len() as int),
        Value::Mapping(m) => string_keys(m@),
        _ => Seq::empty(),
    }
}

fn push_string_keys(m: &Vec<(Value, Value)>, out: &mut Vec<String>)
    ensures
        texts(final(out)@) == texts(old(out)@) + string_keys(m@),
{
    let mut i: usize = 0;
    let ghost start = texts(out@);
    while i < m.len()
        invariant
            0 <= i <= m@.len(),
            texts(out@) == start + string_keys(m@.take(i as int)),
        decreases m@.len() - i,
    {
        let ghost before = out@;
        assert(m@.take(i + 1).drop_last() =~= m@.take(i as int));
        match &m[i].0 {
            Value::Str(s) => {
                out.push(s.clone());
                assert(texts(out@) =~= texts(before).push(s@));
            },
            _ => {},
        }
        assert(texts(out@) =~= start + string_keys(m@.take(i + 1)));
        i = i + 1;
    }
    assert(m@.take(i as int) =~= m@);
}

/// The security scheme names that a requirement value mentions.
pub fn extract_security_schemes(value: &Value) -> (r: Vec<String>)
    ensures
        texts(r@) == scheme_names(*value),
{
    let mut schemes: Vec<String> = Vec::new();
    match value {
        Value::Sequence(items) => {
            let mut i: usize = 0;
            while i < items.len()
                invariant
                    0 <= i <= items@.len(),
                    texts(schemes@) == requirement_keys(items@, i as int),
                decreases items@.len() - i,
            {
                match &items[i] {
                    Value::Mapping(m) => push_string_keys(m, &mut schemes),
                    _ => {
                        assert(texts(schemes@) =~= requirement_keys(items@, i + 1));
                    },
                }
                i = i + 1;
            }
        },
        Value::Mapping(m) => {
            push_string_keys(m, &mut schemes);
            assert(texts(schemes@) =~= string_keys(m@));
        },
        _ => {},
    }
    schemes
}

} // verus!
