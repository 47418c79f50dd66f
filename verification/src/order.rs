//! Ranking by an integer key: the higher key comes first, and among equal
//! keys the lower identifier. Every ranking of the game (squad candidates,
//! nations after the cup, stakes, news highlights) goes through here, so that
//! ties are always broken the same deterministic way.

use vstd::prelude::*;
use vstd::relations::*;
use vstd::seq_lib::*;

verus! {

/// `a` may stand before `b`: a higher key, or an equal key and an identifier
/// that is not larger.
pub open spec fn ranks_before(a: (u64, u64), b: (u64, u64)) -> bool {
    a.0 > b.0 || (a.0 == b.0 && a.1 <= b.1)
}

pub open spec fn ranking_leq() -> spec_fn((u64, u64), (u64, u64)) -> bool {
    |a: (u64, u64), b: (u64, u64)| ranks_before(a, b)
}

/// The ranked order of `s`: the unique arrangement of its entries sorted by
/// descending key, then ascending identifier.
pub open spec fn ranked(s: Seq<(u64, u64)>) -> Seq<(u64, u64)> {
    s.sort_by(ranking_leq())
}

pub proof fn lemma_ranking_total()
    ensures
        total_ordering(ranking_leq()),
{
    let r = ranking_leq();
    assert(reflexive(r));
    assert(antisymmetric(r));
    assert(transitive(r));
    assert(strongly_connected(r));
}

/// Any arrangement sorted by the ranking with the same entries is the ranked order.
pub proof fn lemma_ranked_unique(s: Seq<(u64, u64)>, r: Seq<(u64, u64)>)
    requires
        sorted_by(r, ranking_leq()),
        r.to_multiset() == s.to_multiset(),
    ensures
        r == ranked(s),
{
    lemma_ranking_total();
    s.lemma_sort_by_ensures(ranking_leq());
    lemma_sorted_unique(r, ranked(s), ranking_leq());
}

/// `a` ranks strictly before `b`: a higher key, or an equal key and a lower identifier.
pub open spec fn ranks_strictly_before(a: (u64, u64), b: (u64, u64)) -> bool {
    a.0 > b.0 || (a.0 == b.0 && a.1 < b.1)
}

/// No identifier occurs twice among the entries.
pub open spec fn ids_distinct(s: Seq<(u64, u64)>) -> bool {
    forall|a: int, b: int| 0 <= a < b < s.len() ==> (#[trigger] s[a]).1 != (#[trigger] s[b]).1
}

/// The ranked order holds exactly the entries of `s`, as many as `s` has,
/// and any two of them stand in ranking order.
pub proof fn lemma_ranked_is_sorted_permutation(s: Seq<(u64, u64)>)
    ensures
        ranked(s).len() == s.len(),
        forall|x: (u64, u64)| #[trigger] ranked(s).contains(x) <==> s.contains(x),
        forall|p: int, q: int|
            0 <= p < q < ranked(s).len() ==> ranks_before(
                #[trigger] ranked(s)[p],
                #[trigger] ranked(s)[q],
            ),
{
    broadcast use group_to_multiset_ensures;

    lemma_ranking_total();
    s.lemma_sort_by_ensures(ranking_leq());
    let r = ranked(s);
    assert forall|x: (u64, u64)| #[trigger] r.contains(x) <==> s.contains(x) by {
        assert(r.to_multiset().count(x) == s.to_multiset().count(x));
    }
    assert(r.len() == s.len()) by {
        assert(r.to_multiset().len() == s.to_multiset().len());
    }
    assert forall|p: int, q: int| 0 <= p < q < r.len() implies ranks_before(
        #[trigger] r[p],
        #[trigger] r[q],
    ) by {
        assert(ranking_leq()(r[p], r[q]));
    }
}

/// With distinct identifiers, an entry that ranks strictly before another
/// is placed before it: every place that holds the first one's identifier
/// comes before every place that holds the second one's, and both are placed.
pub proof fn lemma_ranked_places_before(s: Seq<(u64, u64)>, i: int, j: int)
    requires
        ids_distinct(s),
        0 <= i < s.len(),
        0 <= j < s.len(),
        ranks_strictly_before(s[i], s[j]),
    ensures
        forall|p: int, q: int|
            0 <= p < ranked(s).len() && 0 <= q < ranked(s).len() && (#[trigger] ranked(s)[p]).1
                == s[i].1 && (#[trigger] ranked(s)[q]).1 == s[j].1 ==> p < q,
        exists|p: int, q: int|
            0 <= p < q < ranked(s).len() && #[trigger] ranked(s)[p] == s[i] && #[trigger] ranked(
                s,
            )[q] == s[j],
{
    lemma_ranked_is_sorted_permutation(s);
    let r = ranked(s);
    // an entry of the ranking with the identifier of s[k] is s[k] itself
    assert forall|p: int, k: int|
        0 <= p < r.len() && 0 <= k < s.len() && (#[trigger] r[p]).1 == (#[trigger] s[k]).1
            implies r[p] == s[k] by {
        assert(r.contains(r[p]));
        let a = choose|a: int| 0 <= a < s.len() && s[a] == r[p];
        if a != k {
            if a < k {
                assert(s[a].1 != s[k].1);
            } else {
                assert(s[k].1 != s[a].1);
            }
        }
    }
    assert forall|p: int, q: int|
        0 <= p < r.len() && 0 <= q < r.len() && (#[trigger] r[p]).1 == s[i].1 && (
        #[trigger] r[q]).1 == s[j].1 implies p < q by {
        assert(r[p] == s[i]);
        assert(r[q] == s[j]);
        if q < p {
            assert(ranks_before(r[q], r[p]));
        }
        if p == q {
            assert(s[i].1 != s[j].1);
        }
    }
    assert(s.contains(s[i]));
    assert(s.contains(s[j]));
    assert(r.contains(s[i]));
    assert(r.contains(s[j]));
    let p = choose|p: int| 0 <= p < r.len() && r[p] == s[i];
    let q = choose|q: int| 0 <= q < r.len() && r[q] == s[j];
    assert(p < q);
}

/// Keeping some of the entries keeps their identifiers distinct.
pub proof fn lemma_filter_keeps_ids_distinct(s: Seq<(u64, u64)>, pred: spec_fn((u64, u64)) -> bool)
    requires
        ids_distinct(s),
    ensures
        ids_distinct(s.filter(pred)),
    decreases s.len(),
{
    reveal(Seq::filter);
    if s.len() > 0 {
        let rest = s.drop_last();
        assert(ids_distinct(rest)) by {
            assert forall|a: int, b: int| 0 <= a < b < rest.len() implies (#[trigger] rest[a]).1
                != (#[trigger] rest[b]).1 by {
                assert(rest[a] == s[a] && rest[b] == s[b]);
            }
        }
        lemma_filter_keeps_ids_distinct(rest, pred);
        let fr = rest.filter(pred);
        if pred(s.last()) {
            let f = fr.push(s.last());
            assert(s.filter(pred) == f);
            assert forall|a: int, b: int| 0 <= a < b < f.len() implies (#[trigger] f[a]).1
                != (#[trigger] f[b]).1 by {
                if b == f.len() - 1 {
                    assert(f[a] == fr[a]);
                    assert(fr.contains(fr[a]));
                    rest.lemma_filter_contains_rev(pred, fr[a]);
                    let c = choose|c: int| 0 <= c < rest.len() && rest[c] == fr[a];
                    assert(s[c] == fr[a]);
                    assert(f[b] == s[s.len() - 1]);
                } else {
                    assert(f[a] == fr[a] && f[b] == fr[b]);
                }
            }
        }
    }
}

/// Ranking keeps identifiers distinct: no two places of the ranked order
/// hold the same identifier.
pub proof fn lemma_ranked_keeps_ids_distinct(s: Seq<(u64, u64)>)
    requires
        ids_distinct(s),
    ensures
        ids_distinct(ranked(s)),
{
    lemma_ranked_is_sorted_permutation(s);
    lemma_ranking_total();
    s.lemma_sort_by_ensures(ranking_leq());
    let r = ranked(s);
    assert(s.no_duplicates()) by {
        assert forall|a: int, b: int| 0 <= a < s.len() && 0 <= b < s.len() && a != b implies s[a]
            != s[b] by {
            if a < b {
                assert(s[a].1 != s[b].1);
            } else {
                assert(s[b].1 != s[a].1);
            }
        }
    }
    s.lemma_multiset_has_no_duplicates();
    r.lemma_multiset_has_no_duplicates_conv();
    assert forall|a: int, b: int| 0 <= a < b < r.len() implies (#[trigger] r[a]).1
        != (#[trigger] r[b]).1 by {
        assert(r.contains(r[a]) && r.contains(r[b]));
        let x = choose|x: int| 0 <= x < s.len() && s[x] == r[a];
        let y = choose|y: int| 0 <= y < s.len() && s[y] == r[b];
        assert(r[a] != r[b]);
        if r[a].1 == r[b].1 {
            assert(x != y);
            if x < y {
                assert(s[x].1 != s[y].1);
            } else {
                assert(s[y].1 != s[x].1);
            }
        }
    }
}

/// Sorts the entries by descending key, then ascending identifier (insertion sort).
pub fn sort_ranked(v: &Vec<(u64, u64)>) -> (r: Vec<(u64, u64)>)
    ensures
        r@ == ranked(v@),
        r@.len() == v@.len(),
        r@.to_multiset() == v@.to_multiset(),
{
    broadcast use group_to_multiset_ensures;

    let mut r: Vec<(u64, u64)> = Vec::new();
    let n = v.len();
    let mut i: usize = 0;
    while i < n
        invariant
            n == v@.len(),
            i <= n,
            sorted_by(r@, ranking_leq()),
            r@.to_multiset() == v@.take(i as int).to_multiset(),
        decreases n - i,
    {
        let x = v[i];
        let m = r.len();
        let mut p: usize = 0;
        while p < m && !(x.0 > r[p].0 || (x.0 == r[p].0 && x.1 <= r[p].1))
            invariant
                m == r@.len(),
                p <= m,
                forall|k: int| 0 <= k < p ==> !ranks_before(x, #[trigger] r@[k]),
            decreases m - p,
        {
            p = p + 1;
        }
        proof {
            lemma_ranking_total();
            let old_r = r@;
            let nr = old_r.insert(p as int, x);
            assert forall|a: int, b: int| 0 <= a < b < nr.len() implies #[trigger] ranking_leq()(
                nr[a],
                nr[b],
            ) by {
                if b < p {
                    assert(nr[a] == old_r[a] && nr[b] == old_r[b]);
                    assert(ranking_leq()(old_r[a], old_r[b]));
                } else if b == p {
                    assert(nr[a] == old_r[a]);
                    assert(!ranks_before(x, old_r[a]));
                } else if a < p {
                    assert(nr[a] == old_r[a] && nr[b] == old_r[b - 1]);
                    assert(ranking_leq()(old_r[a], old_r[b - 1]));
                } else if a == p {
                    assert(nr[b] == old_r[b - 1]);
                    assert(p < m);
                    assert(ranks_before(x, old_r[p as int]));
                    if b - 1 > p {
                        assert(ranking_leq()(old_r[p as int], old_r[b - 1]));
                    }
                } else {
                    assert(nr[a] == old_r[a - 1] && nr[b] == old_r[b - 1]);
                    assert(ranking_leq()(old_r[a - 1], old_r[b - 1]));
                }
            }
            assert(v@.take(i + 1) == v@.take(i as int).push(x));
            to_multiset_build(v@.take(i as int), x);
            to_multiset_insert(old_r, p as int, x);
        }
        r.insert(p, x);
        i = i + 1;
    }
    proof {
        assert(v@.take(n as int) == v@);
        lemma_ranked_unique(v@, r@);
        r@.to_multiset_ensures();
        v@.to_multiset_ensures();
    }
    r
}

} // verus!
