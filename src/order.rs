//! A stable insertion sort, used for every ordering of the endpoint list.
use vstd::prelude::*;

verus! {

/// `lt` is a strict weak order: irreflexive, transitive, and "not before" is transitive too.
pub open spec fn strict_weak_order<T>(lt: spec_fn(T, T) -> bool) -> bool {
    &&& forall|a: T| !(#[trigger] lt(a, a))
    &&& forall|a: T, b: T, c: T| #[trigger] lt(a, b) && #[trigger] lt(b, c) ==> lt(a, c)
    &&& forall|a: T, b: T, c: T| !#[trigger] lt(a, b) && !#[trigger] lt(b, c) ==> !lt(a, c)
}

/// No element of `r` comes after one that `lt` puts after it.
pub open spec fn ordered_by<T>(r: Seq<T>, lt: spec_fn(T, T) -> bool) -> bool {
    forall|k: int, l: int| 0 <= k < l < r.len() ==> !(#[trigger] lt(r[l], r[k]))
}

/// Some position of `p` holds `t`.
pub open spec fn hits(p: Seq<int>, t: int) -> bool {
    exists|k: int| 0 <= k < p.len() && p[k] == t
}

/// `r` is `s` reordered by the index map `p` (`r[k] == s[p[k]]`, `p` a bijection),
/// ordered by `lt`, and elements that `lt` does not tell apart keep their order in `s`.
pub open spec fn sorts_stably<T>(s: Seq<T>, r: Seq<T>, p: Seq<int>, lt: spec_fn(T, T) -> bool) -> bool {
    &&& r.len() == s.len()
    &&& p.len() == s.len()
    &&& forall|k: int| 0 <= k < r.len() ==> 0 <= #[trigger] p[k] < s.len() && r[k] == s[p[k]]
    &&& forall|k: int, l: int| 0 <= k < l < r.len() ==> #[trigger] p[k] != #[trigger] p[l]
    &&& forall|t: int| 0 <= t < s.len() ==> #[trigger] hits(p, t)
    &&& ordered_by(r, lt)
    &&& forall|k: int, l: int|
        0 <= k < l < r.len() && !lt(r[k], r[l]) && !lt(r[l], r[k]) ==> #[trigger] p[k] < #[trigger] p[l]
}

/// `r` is the stable sort of `s` by `lt`.
pub open spec fn stable_sort_of<T>(s: Seq<T>, r: Seq<T>, lt: spec_fn(T, T) -> bool) -> bool {
    exists|p: Seq<int>| sorts_stably(s, r, p, lt)
}

/// A stable sort seen through a map that keeps the order.
pub proof fn lemma_sorts_stably_map<T, V>(
    s: Seq<T>,
    r: Seq<T>,
    p: Seq<int>,
    lt: spec_fn(T, T) -> bool,
    f: spec_fn(T) -> V,
    lt2: spec_fn(V, V) -> bool,
)
    requires
        sorts_stably(s, r, p, lt),
        forall|a: T, b: T| #[trigger] lt(a, b) == lt2(f(a), f(b)),
    ensures
        sorts_stably(s.map_values(f), r.map_values(f), p, lt2),
{
    let s2 = s.map_values(f);
    let r2 = r.map_values(f);
    assert forall|k: int| 0 <= k < r2.len() implies 0 <= #[trigger] p[k] < s2.len() && r2[k] == s2[p[k]] by {
        assert(r[k] == s[p[k]]);
    }
    assert forall|t: int| 0 <= t < s2.len() implies #[trigger] hits(p, t) by {
        assert(hits(p, t));
    }
    assert forall|k: int, l: int| 0 <= k < l < r2.len() implies !(#[trigger] lt2(r2[l], r2[k])) by {
        assert(!lt(r[l], r[k]));
    }
    assert forall|k: int, l: int|
        0 <= k < l < r2.len() && !lt2(r2[k], r2[l]) && !lt2(r2[l], r2[k]) implies #[trigger] p[k] < #[trigger] p[l] by {
        assert(!lt(r[k], r[l]) && !lt(r[l], r[k]));
    }
}

/// What a stable sort moves keeps being there.
pub proof fn lemma_sort_keeps<T>(s: Seq<T>, r: Seq<T>, lt: spec_fn(T, T) -> bool, t: int)
    requires
        stable_sort_of(s, r, lt),
        0 <= t < s.len(),
    ensures
        exists|k: int| 0 <= k < r.len() && #[trigger] r[k] == s[t],
{
    let p = choose|p: Seq<int>| #[trigger] sorts_stably(s, r, p, lt);
    assert(hits(p, t));
    let k = choose|k: int| 0 <= k < p.len() && p[k] == t;
    assert(r[k] == s[t]);
}

proof fn lemma_increasing_at_least(p: Seq<int>, k: int)
    requires
        0 <= k < p.len(),
        forall|i: int| 0 <= i < p.len() ==> 0 <= #[trigger] p[i],
        forall|i: int, j: int| 0 <= i < j < p.len() ==> #[trigger] p[i] < #[trigger] p[j],
    ensures
        p[k] >= k,
    decreases k,
{
    if k > 0 {
        lemma_increasing_at_least(p, k - 1);
        assert(p[k - 1] < p[k]);
    }
}

proof fn lemma_increasing_at_most(p: Seq<int>, k: int)
    requires
        0 <= k < p.len(),
        forall|i: int| 0 <= i < p.len() ==> #[trigger] p[i] < p.len(),
        forall|i: int, j: int| 0 <= i < j < p.len() ==> #[trigger] p[i] < #[trigger] p[j],
    ensures
        p[k] <= k,
    decreases p.len() - k,
{
    if k < p.len() - 1 {
        lemma_increasing_at_most(p, k + 1);
        assert(p[k] < p[k + 1]);
    }
}

/// A stable sort leaves a list that is already in order as it is.
pub proof fn lemma_stable_sort_of_ordered<T>(s: Seq<T>, r: Seq<T>, lt: spec_fn(T, T) -> bool)
    requires
        strict_weak_order(lt),
        ordered_by(s, lt),
        stable_sort_of(s, r, lt),
    ensures
        r == s,
{
    let p = choose|p: Seq<int>| #[trigger] sorts_stably(s, r, p, lt);
    assert forall|k: int, l: int| 0 <= k < l < p.len() implies #[trigger] p[k] < #[trigger] p[l] by {
        assert(p[k] != p[l]);
        if !lt(r[k], r[l]) {
            assert(!lt(r[l], r[k]));
        } else if p[l] < p[k] {
            assert(!lt(s[p[k]], s[p[l]]));
        }
    }
    assert forall|k: int| 0 <= k < r.len() implies r[k] == s[k] by {
        lemma_increasing_at_least(p, k);
        lemma_increasing_at_most(p, k);
    }
    assert(r =~= s);
}

/// Sorts `v` stably by the strict weak order `lt`, which `less` decides.
pub fn stable_sort<T, F: Fn(&T, &T) -> bool>(v: Vec<T>, less: &F, Ghost(lt): Ghost<spec_fn(T, T) -> bool>) -> (r: Vec<T>)
    requires
        strict_weak_order(lt),
        forall|a: &T, b: &T| #[trigger] less.requires((a, b)),
        forall|a: &T, b: &T, x: bool| #[trigger] less.ensures((a, b), x) ==> x == lt(*a, *b),
    ensures
        stable_sort_of(v@, r@, lt),
{
    let ghost s = v@;
    let mut rest = v;
    let mut out: Vec<T> = Vec::new();
    let ghost mut p: Seq<int> = Seq::empty();
    let mut i: usize = 0;
    let n = rest.len();
    while i < n
        invariant
            n == s.len(),
            0 <= i <= n,
            rest@ == s.skip(i as int),
            sorts_stably(s.take(i as int), out@, p, lt),
            strict_weak_order(lt),
            forall|a: &T, b: &T| #[trigger] less.requires((a, b)),
            forall|a: &T, b: &T, x: bool| #[trigger] less.ensures((a, b), x) ==> x == lt(*a, *b),
        decreases n - i,
    {
        let x = rest.remove(0);
        assert(x == s[i as int]);
        let mut j: usize = out.len();
        while j > 0 && less(&x, &out[j - 1])
            invariant
                0 <= j <= out@.len(),
                forall|l: int| j <= l < out@.len() ==> lt(x, #[trigger] out@[l]),
                forall|a: &T, b: &T| #[trigger] less.requires((a, b)),
                forall|a: &T, b: &T, x: bool| #[trigger] less.ensures((a, b), x) ==> x == lt(*a, *b),
            decreases j,
        {
            j = j - 1;
        }
        proof {
            let r0 = out@;
            let t = s.take(i as int);
            assert forall|k: int| 0 <= k < j implies !lt(x, #[trigger] r0[k]) by {
                if k < j - 1 {
                    assert(!lt(r0[j - 1], r0[k]));
                }
            }
            let np = p.insert(j as int, i as int);
            let r1 = r0.insert(j as int, x);
            let t1 = s.take(i + 1);
            assert forall|k: int| 0 <= k < r1.len() implies 0 <= #[trigger] np[k] < t1.len() && r1[k] == t1[np[k]] by {
                if k < j {
                    assert(r1[k] == r0[k] && np[k] == p[k]);
                } else if k > j {
                    assert(r1[k] == r0[k - 1] && np[k] == p[k - 1]);
                }
            }
            assert forall|k: int, l: int| 0 <= k < l < r1.len() implies #[trigger] np[k] != #[trigger] np[l] by {
                if k != j && l != j {
                    let k0 = if k < j { k } else { k - 1 };
                    let l0 = if l < j { l } else { l - 1 };
                    assert(np[k] == p[k0] && np[l] == p[l0]);
                } else if k == j {
                    let l0 = l - 1;
                    assert(np[l] == p[l0]);
                } else {
                    assert(np[k] == p[k]);
                }
            }
            assert forall|u: int| 0 <= u < t1.len() implies #[trigger] hits(np, u) by {
                if u == i {
                    assert(np[j as int] == u);
                } else {
                    assert(hits(p, u));
                    let k0 = choose|k: int| 0 <= k < p.len() && p[k] == u;
                    if k0 < j {
                        assert(np[k0] == u);
                    } else {
                        assert(np[k0 + 1] == u);
                    }
                }
            }
            assert forall|k: int, l: int| 0 <= k < l < r1.len() implies !(#[trigger] lt(r1[l], r1[k])) by {
                if k != j && l != j {
                    let k0 = if k < j { k } else { k - 1 };
                    let l0 = if l < j { l } else { l - 1 };
                    assert(r1[k] == r0[k0] && r1[l] == r0[l0]);
                } else if k == j {
                    assert(r1[l] == r0[l - 1]);
                    assert(lt(x, r0[l - 1]));
                } else {
                    assert(r1[k] == r0[k]);
                }
            }
            assert forall|k: int, l: int|
                0 <= k < l < r1.len() && !lt(r1[k], r1[l]) && !lt(r1[l], r1[k]) implies #[trigger] np[k] < #[trigger] np[l] by {
                if k != j && l != j {
                    let k0 = if k < j { k } else { k - 1 };
                    let l0 = if l < j { l } else { l - 1 };
                    assert(r1[k] == r0[k0] && r1[l] == r0[l0]);
                    assert(np[k] == p[k0] && np[l] == p[l0]);
                } else if k == j {
                    assert(r1[l] == r0[l - 1]);
                    assert(lt(x, r0[l - 1]));
                } else {
                    assert(np[k] == p[k]);
                }
            }
            p = np;
        }
        out.insert(j, x);
        assert(rest@ =~= s.skip(i + 1));
        i = i + 1;
    }
    assert(s.take(n as int) =~= s);
    out
}

} // verus!
