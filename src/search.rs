//! Ordering and filtering the endpoint list: selected first, and fuzzy search.
use vstd::prelude::*;
use fuzzy_matcher::skim::SkimMatcherV2;
use fuzzy_matcher::FuzzyMatcher;
use crate::catalog::{endpoint_views, path_before, Endpoint, EndpointView, Status};
use crate::order::{lemma_sorts_stably_map, sorts_stably, stable_sort, stable_sort_of, strict_weak_order};
use crate::text::{lemma_bytes_order, str_less};

verus! {

/// Selected endpoints before unselected ones, and by path within each group.
pub open spec fn selected_first_before(a: EndpointView, b: EndpointView) -> bool {
    (a.status == Status::Selected && b.status == Status::Unselected) || (a.status == b.status
        && path_before(a, b))
}

/// The selected-first order, as a relation.
pub open spec fn selected_first() -> spec_fn(EndpointView, EndpointView) -> bool {
    |a: EndpointView, b: EndpointView| selected_first_before(a, b)
}

/// The selected-first order on endpoints, through their views.
pub open spec fn endpoint_selected_first() -> spec_fn(Endpoint, Endpoint) -> bool {
    |a: Endpoint, b: Endpoint| selected_first_before(a@, b@)
}

/// In a search result: selected endpoints first, and by descending score within each group.
pub open spec fn rank_before(a: (EndpointView, int), b: (EndpointView, int)) -> bool {
    (a.0.status == Status::Selected && b.0.status == Status::Unselected) || (a.0.status == b.0.status
        && a.1 > b.1)
}

/// The search-result order, as a relation.
pub open spec fn by_rank() -> spec_fn((EndpointView, int), (EndpointView, int)) -> bool {
    |a: (EndpointView, int), b: (EndpointView, int)| rank_before(a, b)
}

/// The search-result order on scored endpoints.
pub open spec fn scored_by_rank() -> spec_fn((Endpoint, i128), (Endpoint, i128)) -> bool {
    |a: (Endpoint, i128), b: (Endpoint, i128)| rank_before((a.0@, a.1 as int), (b.0@, b.1 as int))
}

/// The view of a scored endpoint.
pub open spec fn scored_view(x: (Endpoint, i128)) -> (EndpointView, int) {
    (x.0@, x.1 as int)
}

/// The selected-first order is a strict weak order.
pub proof fn lemma_selected_first_order()
    ensures
        strict_weak_order(selected_first()),
        strict_weak_order(endpoint_selected_first()),
{
    assert forall|a: EndpointView, b: EndpointView, c: EndpointView| true implies {
        &&& !selected_first_before(a, a)
        &&& selected_first_before(a, b) && selected_first_before(b, c) ==> selected_first_before(a, c)
        &&& !selected_first_before(a, b) && !selected_first_before(b, c) ==> !selected_first_before(a, c)
    } by {
        lemma_bytes_order(a.path, b.path, c.path);
    }
    assert forall|a: Endpoint, b: Endpoint, c: Endpoint| true implies {
        &&& !selected_first_before(a@, a@)
        &&& selected_first_before(a@, b@) && selected_first_before(b@, c@) ==> selected_first_before(a@, c@)
        &&& !selected_first_before(a@, b@) && !selected_first_before(b@, c@) ==> !selected_first_before(a@, c@)
    } by {
        lemma_bytes_order(a.path@, b.path@, c.path@);
    }
}

proof fn lemma_rank_order()
    ensures
        strict_weak_order(by_rank()),
        strict_weak_order(scored_by_rank()),
{
}

fn selected_first_less(a: &Endpoint, b: &Endpoint) -> (r: bool)
    ensures
        r == selected_first_before(a@, b@),
{
    match (a.status, b.status) {
        (Status::Selected, Status::Unselected) => true,
        (Status::Unselected, Status::Selected) => false,
        _ => str_less(a.path.as_str(), b.path.as_str()),
    }
}

fn rank_less(a: &(Endpoint, i128), b: &(Endpoint, i128)) -> (r: bool)
    ensures
        r == rank_before(scored_view(*a), scored_view(*b)),
{
    match (a.0.status, b.0.status) {
        (Status::Selected, Status::Unselected) => true,
        (Status::Unselected, Status::Selected) => false,
        _ => a.1 > b.1,
    }
}

/// Reorders the list: selected endpoints first, by path within each group; stable.
pub fn sort_items_selected_first(items: &mut Vec<Endpoint>)
    ensures
        stable_sort_of(endpoint_views(old(items)@), endpoint_views(final(items)@), selected_first()),
{
    let ghost before = items@;
    let mut taken: Vec<Endpoint> = Vec::new();
    std::mem::swap(items, &mut taken);
    proof {
        lemma_selected_first_order();
    }
    let sorted = stable_sort(taken, &selected_first_less, Ghost(endpoint_selected_first()));
    proof {
        let p = choose|p: Seq<int>| #[trigger] sorts_stably(before, sorted@, p, endpoint_selected_first());
        lemma_sorts_stably_map(before, sorted@, p, endpoint_selected_first(), |e: Endpoint| e@, selected_first());
        assert(before.map_values(|e: Endpoint| e@) =~= endpoint_views(before));
        assert(sorted@.map_values(|e: Endpoint| e@) =~= endpoint_views(sorted@));
    }
    *items = sorted;
}

/// The score of an endpoint from its path score and its description score: a path match
/// counts double, and an endpoint that matches neither is left out.
pub open spec fn match_score(p: Option<i64>, d: Option<i64>) -> Option<int> {
    match (p, d) {
        (Some(p), Some(d)) => Some(2 * p + d),
        (Some(p), None) => Some(2 * p),
        (None, Some(d)) => Some(d as int),
        (None, None) => None,
    }
}

/// The endpoints among the first `n` that match, each with its score, in list order.
pub open spec fn scored_matches(items: Seq<EndpointView>, ps: Seq<Option<i64>>, ds: Seq<Option<i64>>, n: int) -> Seq<(EndpointView, int)>
    decreases n,
{
    if 0 < n <= items.len() {
        scored_matches(items, ps, ds, n - 1) + match match_score(ps[n - 1], ds[n - 1]) {
            Some(s) => seq![(items[n - 1], s)],
            None => Seq::empty(),
        }
    } else {
        Seq::empty()
    }
}

/// The search result over `items`, given each one's path and description scores: the
/// matching endpoints, selected first, best score first within each group, ties in list order.
pub open spec fn is_ranking(items: Seq<EndpointView>, ps: Seq<Option<i64>>, ds: Seq<Option<i64>>, r: Seq<EndpointView>) -> bool {
    exists|ranked: Seq<(EndpointView, int)>|
        #![trigger stable_sort_of(scored_matches(items, ps, ds, items.len() as int), ranked, by_rank())]
        stable_sort_of(scored_matches(items, ps, ds, items.len() as int), ranked, by_rank()) && r
            == ranked.map_values(|x: (EndpointView, int)| x.0)
}

/// Ranks `backup` by the given match scores (see `is_ranking`).
pub fn rank_matches(backup: &Vec<Endpoint>, path_scores: &Vec<Option<i64>>, desc_scores: &Vec<Option<i64>>) -> (r: Vec<Endpoint>)
    requires
        path_scores@.len() == backup@.len(),
        desc_scores@.len() == backup@.len(),
    ensures
        is_ranking(endpoint_views(backup@), path_scores@, desc_scores@, endpoint_views(r@)),
{
    let ghost items = endpoint_views(backup@);
    let mut scored: Vec<(Endpoint, i128)> = Vec::new();
    let mut i: usize = 0;
    while i < backup.len()
        invariant
            items == endpoint_views(backup@),
            path_scores@.len() == backup@.len(),
            desc_scores@.len() == backup@.len(),
            0 <= i <= backup@.len(),
            scored@.map_values(|x: (Endpoint, i128)| scored_view(x)) == scored_matches(items, path_scores@, desc_scores@, i as int),
        decreases backup@.len() - i,
    {
        let ghost s0 = scored@;
        let score: Option<i128> = match (path_scores[i], desc_scores[i]) {
            (Some(p), Some(d)) => Some(2 * (p as i128) + d as i128),
            (Some(p), None) => Some(2 * (p as i128)),
            (None, Some(d)) => Some(d as i128),
            (None, None) => None,
        };
        match score {
            Some(s) => {
                let e = backup[i].clone();
                scored.push((e, s));
                assert(scored@.map_values(|x: (Endpoint, i128)| scored_view(x)) =~= s0.map_values(|x: (Endpoint, i128)| scored_view(x)).push((items[i as int], s as int)));
            },
            None => {},
        }
        assert(scored@.map_values(|x: (Endpoint, i128)| scored_view(x)) =~= scored_matches(items, path_scores@, desc_scores@, i + 1));
        i = i + 1;
    }
    let ghost unsorted = scored@;
    proof {
        lemma_rank_order();
    }
    let sorted = stable_sort(scored, &rank_less, Ghost(scored_by_rank()));
    let ghost ranked = sorted@.map_values(|x: (Endpoint, i128)| scored_view(x));
    proof {
        let p = choose|p: Seq<int>| #[trigger] sorts_stably(unsorted, sorted@, p, scored_by_rank());
        lemma_sorts_stably_map(unsorted, sorted@, p, scored_by_rank(), |x: (Endpoint, i128)| scored_view(x), by_rank());
    }
    let mut out: Vec<Endpoint> = Vec::new();
    let mut rest = sorted;
    let n = rest.len();
    let mut k: usize = 0;
    while k < n
        invariant
            n == ranked.len(),
            0 <= k <= n,
            rest@.len() == n - k,
            rest@.map_values(|x: (Endpoint, i128)| scored_view(x)) == ranked.skip(k as int),
            endpoint_views(out@) == ranked.take(k as int).map_values(|x: (EndpointView, int)| x.0),
        decreases n - k,
    {
        let ghost o0 = out@;
        let ghost r0 = rest@;
        let (e, _) = rest.remove(0);
        assert(r0.map_values(|x: (Endpoint, i128)| scored_view(x))[0] == ranked.skip(k as int)[0]);
        assert(scored_view(r0[0]) == ranked[k as int]);
        out.push(e);
        assert(endpoint_views(out@) =~= endpoint_views(o0).push(e@));
        assert(ranked.take(k + 1) =~= ranked.take(k as int).push(ranked[k as int]));
        assert(endpoint_views(out@) =~= ranked.take(k + 1).map_values(|x: (EndpointView, int)| x.0));
        assert forall|j: int| 0 <= j < rest@.len() implies scored_view(#[trigger] rest@[j]) == ranked.skip(k + 1)[j] by {
            assert(rest@[j] == r0[j + 1]);
            assert(r0.map_values(|x: (Endpoint, i128)| scored_view(x))[j + 1] == ranked.skip(k as int)[j + 1]);
        }
        assert(rest@.map_values(|x: (Endpoint, i128)| scored_view(x)) =~= ranked.skip(k + 1));
        k = k + 1;
    }
    assert(ranked.take(k as int) =~= ranked);
    assert(stable_sort_of(scored_matches(items, path_scores@, desc_scores@, items.len() as int), ranked, by_rank()));
    out
}

/// A name for what the default skim matcher scores `choice` against `pattern`; `None` when
/// it does not match.
pub uninterp spec fn skim_score(choice: Seq<char>, pattern: Seq<char>) -> Option<i64>;

/// Relies on fuzzy-matcher's `SkimMatcherV2::fuzzy_match` with the default settings.
#[verifier::external_body]
fn fuzzy_score(choice: &str, pattern: &str) -> (r: Option<i64>)
    ensures
        r == skim_score(choice@, pattern@),
{
    SkimMatcherV2::default().fuzzy_match(choice, pattern)
}

/// A name for what `str::to_lowercase` returns.
pub uninterp spec fn lower_of(s: Seq<char>) -> Seq<char>;

/// Relies on `str::to_lowercase`; each character lowercases to one or more characters,
/// so only the empty string gives the empty string.
#[verifier::external_body]
pub(crate) fn lowercase(s: &str) -> (r: String)
    ensures
        r@ == lower_of(s@),
        r@.len() == 0 <==> s@.len() == 0,
{
    s.to_lowercase()
}

/// The path and description scores of each endpoint against an already lowercased query.
fn search_scores(items: &Vec<Endpoint>, query: &str) -> (r: (Vec<Option<i64>>, Vec<Option<i64>>))
    ensures
        r.0@.len() == items@.len(),
        r.1@.len() == items@.len(),
        forall|i: int| 0 <= i < items@.len() ==> r.0@[i] == skim_score(lower_of(#[trigger] items@[i].path@), query@)
            && r.1@[i] == skim_score(lower_of(items@[i].description@), query@),
{
    let mut ps: Vec<Option<i64>> = Vec::new();
    let mut ds: Vec<Option<i64>> = Vec::new();
    let mut i: usize = 0;
    while i < items.len()
        invariant
            0 <= i <= items@.len(),
            ps@.len() == i,
            ds@.len() == i,
            forall|k: int| 0 <= k < i ==> ps@[k] == skim_score(lower_of(#[trigger] items@[k].path@), query@)
                && ds@[k] == skim_score(lower_of(items@[k].description@), query@),
        decreases items@.len() - i,
    {
        let path = lowercase(items[i].path.as_str());
        let description = lowercase(items[i].description.as_str());
        ps.push(fuzzy_score(path.as_str(), query));
        ds.push(fuzzy_score(description.as_str(), query));
        i = i + 1;
    }
    (ps, ds)
}

/// The path scores of a list against a lowercased query.
pub open spec fn path_scores(items: Seq<EndpointView>, query: Seq<char>) -> Seq<Option<i64>> {
    items.map_values(|e: EndpointView| skim_score(lower_of(e.path), query))
}

/// The description scores of a list against a lowercased query.
pub open spec fn description_scores(items: Seq<EndpointView>, query: Seq<char>) -> Seq<Option<i64>> {
    items.map_values(|e: EndpointView| skim_score(lower_of(e.description), query))
}

/// Ranks `items` against `query` (lowercased here), or, for an empty query, lists them all
/// selected first and by path.
pub fn search_items(items: &Vec<Endpoint>, query: &str) -> (r: Vec<Endpoint>)
    ensures
        query@.len() == 0 ==> stable_sort_of(endpoint_views(items@), endpoint_views(r@), selected_first()),
        query@.len() != 0 ==> is_ranking(
            endpoint_views(items@),
            path_scores(endpoint_views(items@), lower_of(query@)),
            description_scores(endpoint_views(items@), lower_of(query@)),
            endpoint_views(r@),
        ),
{
    let q = lowercase(query);
    if q.as_str().is_empty() {
        let mut all = clone_all(items);
        sort_items_selected_first(&mut all);
        all
    } else {
        let (ps, ds) = search_scores(items, q.as_str());
        assert(ps@ =~= path_scores(endpoint_views(items@), q@));
        assert(ds@ =~= description_scores(endpoint_views(items@), q@));
        rank_matches(items, &ps, &ds)
    }
}

/// A copy of each endpoint of a list.
pub fn clone_all(items: &Vec<Endpoint>) -> (r: Vec<Endpoint>)
    ensures
        endpoint_views(r@) == endpoint_views(items@),
{
    let mut out: Vec<Endpoint> = Vec::new();
    let mut i: usize = 0;
    while i < items.len()
        invariant
            0 <= i <= items@.len(),
            out@.len() == i,
            endpoint_views(out@) == endpoint_views(items@.take(i as int)),
        decreases items@.len() - i,
    {
        let ghost o0 = out@;
        let e = items[i].clone();
        out.push(e);
        assert(endpoint_views(out@) =~= endpoint_views(o0).push(e@));
        assert(items@.take(i + 1) =~= items@.take(i as int).push(items@[i as int]));
        assert(endpoint_views(out@) =~= endpoint_views(items@.take(i + 1)));
        i = i + 1;
    }
    assert(items@.take(i as int) =~= items@);
    out
}

} // verus!
