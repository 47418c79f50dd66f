//! The world cup: choosing the squad, swapping players in, ranking the
//! nations after the round robin, choosing stakes, and moving the staked
//! territory. Ratings and strengths are given as order-preserving integer
//! keys (a higher key is a higher rating), so ties break deterministically.

use vstd::prelude::*;

use crate::ids::{DistrictId, NationId, PersonId};
use crate::order::{
    ids_distinct, lemma_ranked_is_sorted_permutation, lemma_ranked_places_before, ranked,
    ranks_strictly_before, sort_ranked,
};
use crate::targets::{kept_indices, lemma_kept_indices, lemma_kept_indices_complete};
use crate::world::PersonStatus;

verus! {

#[derive(Clone, Copy, PartialEq, Eq, Debug, Structural)]
pub struct MatchResult {
    pub a: NationId,
    pub b: NationId,
    pub score_a: u8,
    pub score_b: u8,
    /// A home player who stood out.
    pub highlight: Option<PersonId>,
}

/// Candidates keyed for ranking: rating key, then person index.
pub open spec fn candidate_keys(ratings: Seq<(PersonId, u32)>) -> Seq<(u64, u64)> {
    ratings.map_values(|c: (PersonId, u32)| (c.1 as u64, c.0.0 as u64))
}

pub open spec fn person_of(p: (u64, u64)) -> PersonId {
    PersonId(p.1 as u16)
}

/// The candidates from the best rated down; equal ratings by person index.
pub open spec fn spec_ranked_candidates(ratings: Seq<(PersonId, u32)>) -> Seq<PersonId> {
    ranked(candidate_keys(ratings)).map_values(|p: (u64, u64)| person_of(p))
}

/// Ranks the squad candidates (`(person, rating key)` pairs) from the best rated down.
pub fn ranked_candidates(ratings: &Vec<(PersonId, u32)>) -> (r: Vec<PersonId>)
    ensures
        r@ == spec_ranked_candidates(ratings@),
{
    let mut keyed: Vec<(u64, u64)> = Vec::new();
    let mut i: usize = 0;
    while i < ratings.len()
        invariant
            i <= ratings@.len(),
            keyed@ == candidate_keys(ratings@).take(i as int),
        decreases ratings@.len() - i,
    {
        let (p, k) = ratings[i];
        keyed.push((k as u64, p.0 as u64));
        proof {
            assert(candidate_keys(ratings@).take(i + 1) == candidate_keys(ratings@).take(
                i as int,
            ).push((k as u64, p.0 as u64)));
        }
        i = i + 1;
    }
    proof {
        assert(candidate_keys(ratings@).take(ratings@.len() as int) == candidate_keys(ratings@));
    }
    let order = sort_ranked(&keyed);
    let mut r: Vec<PersonId> = Vec::new();
    let mut k: usize = 0;
    while k < order.len()
        invariant
            k <= order@.len(),
            r@ == order@.take(k as int).map_values(|p: (u64, u64)| person_of(p)),
        decreases order@.len() - k,
    {
        r.push(PersonId(order[k].1 as u16));
        proof {
            assert(order@.take(k + 1) == order@.take(k as int).push(order@[k as int]));
            assert(order@.take(k + 1).map_values(|p: (u64, u64)| person_of(p)) == order@.take(
                k as int,
            ).map_values(|p: (u64, u64)| person_of(p)).push(person_of(order@[k as int])));
        }
        k = k + 1;
    }
    proof {
        assert(order@.take(order@.len() as int) == order@);
    }
    r
}

/// The proposed squad: the `squad_size` best rated candidates (all of them
/// when there are fewer).
pub fn propose_squad(ratings: &Vec<(PersonId, u32)>, squad_size: usize) -> (r: Vec<PersonId>)
    ensures
        squad_size <= ratings@.len() ==> r@ == spec_ranked_candidates(ratings@).take(
            squad_size as int,
        ),
        squad_size > ratings@.len() ==> r@ == spec_ranked_candidates(ratings@),
{
    let mut all = ranked_candidates(ratings);
    proof {
        assert(spec_ranked_candidates(ratings@).len() == ratings@.len()) by {
            crate::order::lemma_ranking_total();
            candidate_keys(ratings@).lemma_sort_by_ensures(crate::order::ranking_leq());
            vstd::seq_lib::lemma_multiset_commutative(
                candidate_keys(ratings@),
                Seq::<(u64, u64)>::empty(),
            );
            candidate_keys(ratings@).to_multiset_ensures();
            ranked(candidate_keys(ratings@)).to_multiset_ensures();
        }
    }
    if squad_size < all.len() {
        all.truncate(squad_size);
    }
    all
}

/// `w` is the squad member to give way: the lowest rating, and among equal
/// ratings the later position.
pub open spec fn is_weakest(ratings: Seq<u32>, w: int) -> bool {
    &&& 0 <= w < ratings.len()
    &&& forall|j: int|
        0 <= j < ratings.len() ==> ratings[w] < #[trigger] ratings[j] || (ratings[w] == ratings[j]
            && j <= w)
}

/// Swaps `incoming` into the squad in place of its weakest member, keeping
/// the squad's size; a player already in the squad changes nothing, and an
/// empty squad just takes the player. `ratings[i]` is the rating key of
/// `squad[i]`.
pub fn swap_in(squad: &Vec<PersonId>, ratings: &Vec<u32>, incoming: PersonId) -> (r: Vec<PersonId>)
    requires
        ratings@.len() == squad@.len(),
    ensures
        squad@.contains(incoming) ==> r@ == squad@,
        !squad@.contains(incoming) && squad@.len() == 0 ==> r@ == seq![incoming],
        !squad@.contains(incoming) && squad@.len() > 0 ==> exists|w: int|
            is_weakest(ratings@, w) && r@ == squad@.update(w, incoming),
{
    let n = squad.len();
    let mut i: usize = 0;
    while i < n
        invariant
            n == squad@.len(),
            i <= n,
            forall|k: int| 0 <= k < i ==> squad@[k] != incoming,
        decreases n - i,
    {
        if squad[i] == incoming {
            proof {
                assert(squad@.contains(incoming));
            }
            let mut same: Vec<PersonId> = Vec::new();
            let mut k: usize = 0;
            while k < n
                invariant
                    n == squad@.len(),
                    k <= n,
                    same@ == squad@.take(k as int),
                decreases n - k,
            {
                same.push(squad[k]);
                proof {
                    assert(squad@.take(k + 1) == squad@.take(k as int).push(squad@[k as int]));
                }
                k = k + 1;
            }
            proof {
                assert(squad@.take(n as int) == squad@);
            }
            return same;
        }
        i = i + 1;
    }
    proof {
        assert(!squad@.contains(incoming));
    }
    let mut next: Vec<PersonId> = Vec::new();
    let mut k: usize = 0;
    while k < n
        invariant
            n == squad@.len(),
            k <= n,
            next@ == squad@.take(k as int),
        decreases n - k,
    {
        next.push(squad[k]);
        proof {
            assert(squad@.take(k + 1) == squad@.take(k as int).push(squad@[k as int]));
        }
        k = k + 1;
    }
    proof {
        assert(squad@.take(n as int) == squad@);
    }
    if n == 0 {
        next.push(incoming);
        proof {
            assert(next@ == seq![incoming]);
        }
        return next;
    }
    let mut w: usize = 0;
    let mut j: usize = 1;
    while j < n
        invariant
            n == squad@.len(),
            n == ratings@.len(),
            1 <= j <= n,
            w < j,
            forall|q: int|
                0 <= q < j ==> ratings@[w as int] < #[trigger] ratings@[q] || (ratings@[w as int]
                    == ratings@[q] && q <= w),
        decreases n - j,
    {
        if ratings[j] <= ratings[w] {
            w = j;
        }
        j = j + 1;
    }
    proof {
        assert(is_weakest(ratings@, w as int));
    }
    next.set(w, incoming);
    next
}

/// Swapping into a squad without repeated players keeps it without repeats,
/// keeps its size (unless it was empty), and puts the player in it.
pub proof fn lemma_swap_keeps_squad(squad: Seq<PersonId>, ratings: Seq<u32>, incoming: PersonId, w: int)
    requires
        squad.no_duplicates(),
        !squad.contains(incoming),
        is_weakest(ratings, w),
        ratings.len() == squad.len(),
    ensures
        squad.update(w, incoming).no_duplicates(),
        squad.update(w, incoming).len() == squad.len(),
        squad.update(w, incoming).contains(incoming),
{
    let r = squad.update(w, incoming);
    assert(r[w] == incoming);
    assert forall|a: int, b: int| 0 <= a < r.len() && 0 <= b < r.len() && a != b implies r[a]
        != r[b] by {
        if a == w {
            assert(squad[b] != incoming);
        } else if b == w {
            assert(squad[a] != incoming);
        } else {
            assert(squad[a] != squad[b]);
        }
    }
}

/// Nations keyed for the final ranking: wins, then strength key.
pub open spec fn standing_keys(standings: Seq<(NationId, u32, u32)>) -> Seq<(u64, u64)> {
    standings.map_values(
        |s: (NationId, u32, u32)| ((s.1 as u64 * 0x1_0000_0000 + s.2 as u64) as u64, s.0.0 as u64),
    )
}

pub open spec fn nation_of(p: (u64, u64)) -> NationId {
    NationId(p.1 as u16)
}

/// The final ranking: more wins first, then the stronger, then the lower id.
pub open spec fn spec_rank_nations(standings: Seq<(NationId, u32, u32)>) -> Seq<NationId> {
    ranked(standing_keys(standings)).map_values(|p: (u64, u64)| nation_of(p))
}

/// Ranks the nations of a cup from `(nation, wins, strength key)`.
pub fn rank_nations(standings: &Vec<(NationId, u32, u32)>) -> (r: Vec<NationId>)
    ensures
        r@ == spec_rank_nations(standings@),
{
    let mut keyed: Vec<(u64, u64)> = Vec::new();
    let mut i: usize = 0;
    while i < standings.len()
        invariant
            i <= standings@.len(),
            keyed@ == standing_keys(standings@).take(i as int),
        decreases standings@.len() - i,
    {
        let (nid, wins, strength) = standings[i];
        let key: u64 = (wins as u64) * 0x1_0000_0000 + strength as u64;
        keyed.push((key, nid.0 as u64));
        proof {
            assert(standing_keys(standings@).take(i + 1) == standing_keys(standings@).take(
                i as int,
            ).push((key, nid.0 as u64)));
        }
        i = i + 1;
    }
    proof {
        assert(standing_keys(standings@).take(standings@.len() as int) == standing_keys(
            standings@,
        ));
    }
    let order = sort_ranked(&keyed);
    let mut r: Vec<NationId> = Vec::new();
    let mut k: usize = 0;
    while k < order.len()
        invariant
            k <= order@.len(),
            r@ == order@.take(k as int).map_values(|p: (u64, u64)| nation_of(p)),
        decreases order@.len() - k,
    {
        r.push(NationId(order[k].1 as u16));
        proof {
            assert(order@.take(k + 1) == order@.take(k as int).push(order@[k as int]));
            assert(order@.take(k + 1).map_values(|p: (u64, u64)| nation_of(p)) == order@.take(
                k as int,
            ).map_values(|p: (u64, u64)| nation_of(p)).push(nation_of(order@[k as int])));
        }
        k = k + 1;
    }
    proof {
        assert(order@.take(order@.len() as int) == order@);
    }
    r
}

/// No nation is listed twice.
pub open spec fn nations_distinct(standings: Seq<(NationId, u32, u32)>) -> bool {
    forall|a: int, b: int| 0 <= a < b < standings.len() ==> (#[trigger] standings[a]).0 != (#[trigger] standings[b]).0
}

/// Nation `i` finishes above nation `j`: more wins, whatever the strength;
/// at equal wins the stronger; at equal wins and strength the lower id.
pub open spec fn finishes_above(standings: Seq<(NationId, u32, u32)>, i: int, j: int) -> bool {
    let (a, b) = (standings[i], standings[j]);
    ||| a.1 > b.1
    ||| a.1 == b.1 && a.2 > b.2
    ||| a.1 == b.1 && a.2 == b.2 && a.0.0 < b.0.0
}

/// The ranking lists every nation once: it is as long as the standings,
/// each nation of the standings is in it, and it holds no other nation.
pub proof fn lemma_ranking_lists_every_nation(standings: Seq<(NationId, u32, u32)>)
    ensures
        spec_rank_nations(standings).len() == standings.len(),
        forall|i: int| 0 <= i < standings.len() ==> spec_rank_nations(standings).contains(#[trigger] standings[i].0),
        forall|p: int|
            0 <= p < spec_rank_nations(standings).len() ==> standings.map_values(
                |s: (NationId, u32, u32)| s.0,
            ).contains(#[trigger] spec_rank_nations(standings)[p]),
{
    let keys = standing_keys(standings);
    let r = ranked(keys);
    let out = spec_rank_nations(standings);
    lemma_ranked_is_sorted_permutation(keys);
    assert forall|i: int| 0 <= i < standings.len() implies out.contains(#[trigger] standings[i].0) by {
        assert(keys.contains(keys[i]));
        assert(r.contains(keys[i]));
        let p = choose|p: int| 0 <= p < r.len() && r[p] == keys[i];
        assert(out[p] == standings[i].0);
        assert(out.contains(out[p]));
    }
    let names = standings.map_values(|s: (NationId, u32, u32)| s.0);
    assert forall|p: int| 0 <= p < out.len() implies names.contains(#[trigger] out[p]) by {
        assert(0 <= p < r.len());
        assert(out[p] == nation_of(r[p]));
        assert(r.contains(r[p]));
        assert(keys.contains(r[p]));
        let i = choose|i: int| 0 <= i < keys.len() && keys[i] == r[p];
        assert(names[i] == out[p]);
    }
}

/// The cup ranking follows the standings: a nation with more wins finishes
/// above one with fewer, however strong either is; at equal wins the
/// stronger finishes above; at equal wins and strength, the lower id.
pub proof fn lemma_rank_nations_order(standings: Seq<(NationId, u32, u32)>, i: int, j: int)
    requires
        nations_distinct(standings),
        0 <= i < standings.len(),
        0 <= j < standings.len(),
        finishes_above(standings, i, j),
    ensures
        forall|p: int, q: int|
            0 <= p < spec_rank_nations(standings).len() && 0 <= q < spec_rank_nations(standings).len()
                && #[trigger] spec_rank_nations(standings)[p] == standings[i].0
                && #[trigger] spec_rank_nations(standings)[q] == standings[j].0 ==> p < q,
        exists|p: int, q: int|
            0 <= p < q < spec_rank_nations(standings).len()
                && #[trigger] spec_rank_nations(standings)[p] == standings[i].0
                && #[trigger] spec_rank_nations(standings)[q] == standings[j].0,
{
    let keys = standing_keys(standings);
    let r = ranked(keys);
    let out = spec_rank_nations(standings);
    lemma_ranked_is_sorted_permutation(keys);
    assert(ids_distinct(keys)) by {
        assert forall|a: int, b: int| 0 <= a < b < keys.len() implies (#[trigger] keys[a]).1
            != (#[trigger] keys[b]).1 by {
            assert(standings[a].0 != standings[b].0);
        }
    }
    let (a, b) = (standings[i], standings[j]);
    assert(ranks_strictly_before(keys[i], keys[j])) by {
        assert(keys[i].0 == a.1 as u64 * 0x1_0000_0000 + a.2 as u64);
        assert(keys[j].0 == b.1 as u64 * 0x1_0000_0000 + b.2 as u64);
        if a.1 > b.1 {
            assert(a.1 as u64 * 0x1_0000_0000 >= b.1 as u64 * 0x1_0000_0000 + 0x1_0000_0000);
        }
    }
    lemma_ranked_places_before(keys, i, j);
    // a ranked entry names nation k exactly when it carries k's id
    assert forall|p: int, k: int| 0 <= p < r.len() && 0 <= k < standings.len() && #[trigger] out[p]
        == #[trigger] standings[k].0 implies r[p].1 == keys[k].1 by {
        assert(r.contains(r[p]));
        let c = choose|c: int| 0 <= c < keys.len() && keys[c] == r[p];
    }
    assert forall|p: int, q: int|
        0 <= p < out.len() && 0 <= q < out.len() && #[trigger] out[p] == standings[i].0
            && #[trigger] out[q] == standings[j].0 implies p < q by {
        assert(r[p].1 == keys[i].1);
        assert(r[q].1 == keys[j].1);
    }
    let (p, q) = choose|p: int, q: int| 0 <= p < q < r.len() && #[trigger] r[p] == keys[i] && #[trigger] r[q] == keys[j];
    assert(out[p] == standings[i].0);
    assert(out[q] == standings[j].0);
}

/// Districts keyed for staking: the lower value first, then the lower id.
pub open spec fn stake_keys(values: Seq<(DistrictId, u32)>) -> Seq<(u64, u64)> {
    values.map_values(|v: (DistrictId, u32)| ((0xFFFF_FFFF - v.1) as u64, v.0.0 as u64))
}

pub open spec fn district_of(p: (u64, u64)) -> DistrictId {
    DistrictId(p.1 as u16)
}

/// The districts in the order they are put at stake: cheapest first.
pub open spec fn spec_stake_order(values: Seq<(DistrictId, u32)>) -> Seq<DistrictId> {
    ranked(stake_keys(values)).map_values(|p: (u64, u64)| district_of(p))
}

/// The districts a nation stakes: the `n` of lowest value (by value key),
/// ties by district id. The home district is never among `values`.
pub fn choose_stakes(values: &Vec<(DistrictId, u32)>, n: usize) -> (r: Vec<DistrictId>)
    ensures
        n <= values@.len() ==> r@ == spec_stake_order(values@).take(n as int),
        n > values@.len() ==> r@ == spec_stake_order(values@),
        r@ == spec_stakes(values@, n as nat),
{
    let mut keyed: Vec<(u64, u64)> = Vec::new();
    let mut i: usize = 0;
    while i < values.len()
        invariant
            i <= values@.len(),
            keyed@ == stake_keys(values@).take(i as int),
        decreases values@.len() - i,
    {
        let (d, v) = values[i];
        keyed.push(((0xFFFF_FFFFu32 - v) as u64, d.0 as u64));
        proof {
            assert(stake_keys(values@).take(i + 1) == stake_keys(values@).take(i as int).push(
                ((0xFFFF_FFFF - v) as u64, d.0 as u64),
            ));
        }
        i = i + 1;
    }
    proof {
        assert(stake_keys(values@).take(values@.len() as int) == stake_keys(values@));
    }
    let order = sort_ranked(&keyed);
    let m = if n < order.len() {
        n
    } else {
        order.len()
    };
    let mut r: Vec<DistrictId> = Vec::new();
    let mut k: usize = 0;
    while k < m
        invariant
            m <= order@.len(),
            k <= m,
            r@ == order@.take(k as int).map_values(|p: (u64, u64)| district_of(p)),
        decreases m - k,
    {
        r.push(DistrictId(order[k].1 as u16));
        proof {
            assert(order@.take(k + 1) == order@.take(k as int).push(order@[k as int]));
            assert(order@.take(k + 1).map_values(|p: (u64, u64)| district_of(p)) == order@.take(
                k as int,
            ).map_values(|p: (u64, u64)| district_of(p)).push(district_of(order@[k as int])));
        }
        k = k + 1;
    }
    proof {
        if n <= values@.len() {
            assert(order@.take(m as int).map_values(|p: (u64, u64)| district_of(p))
                =~= order@.map_values(|p: (u64, u64)| district_of(p)).take(n as int));
        } else {
            assert(order@.take(m as int) == order@);
        }
    }
    r
}

/// No district is offered twice.
pub open spec fn districts_distinct(values: Seq<(DistrictId, u32)>) -> bool {
    forall|a: int, b: int| 0 <= a < b < values.len() ==> (#[trigger] values[a]).0 != (#[trigger] values[b]).0
}

/// District `i` is cheaper to stake than district `j`: a lower value, or
/// an equal value and a lower id.
pub open spec fn cheaper(values: Seq<(DistrictId, u32)>, i: int, j: int) -> bool {
    ||| values[i].1 < values[j].1
    ||| values[i].1 == values[j].1 && values[i].0.0 < values[j].0.0
}

/// The districts staked when `n` are asked for (all of them when fewer are offered).
pub open spec fn spec_stakes(values: Seq<(DistrictId, u32)>, n: nat) -> Seq<DistrictId> {
    if n <= values.len() {
        spec_stake_order(values).take(n as int)
    } else {
        spec_stake_order(values)
    }
}

/// The stake order follows the values: a cheaper district comes before a
/// dearer one, and at equal value the lower id comes first.
pub proof fn lemma_stake_order_cheapest_first(values: Seq<(DistrictId, u32)>, i: int, j: int)
    requires
        districts_distinct(values),
        0 <= i < values.len(),
        0 <= j < values.len(),
        cheaper(values, i, j),
    ensures
        forall|p: int, q: int|
            0 <= p < spec_stake_order(values).len() && 0 <= q < spec_stake_order(values).len()
                && #[trigger] spec_stake_order(values)[p] == values[i].0
                && #[trigger] spec_stake_order(values)[q] == values[j].0 ==> p < q,
        exists|p: int, q: int|
            0 <= p < q < spec_stake_order(values).len()
                && #[trigger] spec_stake_order(values)[p] == values[i].0
                && #[trigger] spec_stake_order(values)[q] == values[j].0,
{
    let keys = stake_keys(values);
    let r = ranked(keys);
    let out = spec_stake_order(values);
    lemma_ranked_is_sorted_permutation(keys);
    assert(ids_distinct(keys)) by {
        assert forall|a: int, b: int| 0 <= a < b < keys.len() implies (#[trigger] keys[a]).1
            != (#[trigger] keys[b]).1 by {
            assert(values[a].0 != values[b].0);
        }
    }
    assert(ranks_strictly_before(keys[i], keys[j]));
    lemma_ranked_places_before(keys, i, j);
    assert forall|p: int, k: int| 0 <= p < r.len() && 0 <= k < values.len() && #[trigger] out[p]
        == #[trigger] values[k].0 implies r[p].1 == keys[k].1 by {
        assert(r.contains(r[p]));
        let c = choose|c: int| 0 <= c < keys.len() && keys[c] == r[p];
    }
    assert forall|p: int, q: int|
        0 <= p < out.len() && 0 <= q < out.len() && #[trigger] out[p] == values[i].0
            && #[trigger] out[q] == values[j].0 implies p < q by {
        assert(r[p].1 == keys[i].1);
        assert(r[q].1 == keys[j].1);
    }
    let (p, q) = choose|p: int, q: int| 0 <= p < q < r.len() && #[trigger] r[p] == keys[i] && #[trigger] r[q] == keys[j];
    assert(out[p] == values[i].0);
    assert(out[q] == values[j].0);
}

/// As many districts are staked as asked for, or all of them when fewer
/// are offered, and each staked district is one of those offered.
pub proof fn lemma_stakes_count(values: Seq<(DistrictId, u32)>, n: nat)
    ensures
        spec_stakes(values, n).len() == if n <= values.len() {
            n
        } else {
            values.len()
        },
        forall|k: int|
            0 <= k < spec_stakes(values, n).len() ==> values.map_values(
                |v: (DistrictId, u32)| v.0,
            ).contains(#[trigger] spec_stakes(values, n)[k]),
{
    let keys = stake_keys(values);
    let r = ranked(keys);
    let out = spec_stake_order(values);
    let st = spec_stakes(values, n);
    let names = values.map_values(|v: (DistrictId, u32)| v.0);
    lemma_ranked_is_sorted_permutation(keys);
    assert forall|k: int| 0 <= k < st.len() implies names.contains(#[trigger] st[k]) by {
        assert(st[k] == out[k]);
        assert(out[k] == district_of(r[k]));
        assert(r.contains(r[k]));
        assert(keys.contains(r[k]));
        let i = choose|i: int| 0 <= i < keys.len() && keys[i] == r[k];
        assert(names[i] == st[k]);
    }
}

/// The stakes are the cheapest districts: a staked district is cheaper
/// (lower value, or equal value and lower id) than every district left
/// unstaked.
pub proof fn lemma_stakes_are_the_cheapest(values: Seq<(DistrictId, u32)>, n: nat, i: int, j: int)
    requires
        districts_distinct(values),
        0 <= i < values.len(),
        0 <= j < values.len(),
        spec_stakes(values, n).contains(values[i].0),
        !spec_stakes(values, n).contains(values[j].0),
    ensures
        cheaper(values, i, j),
{
    let out = spec_stake_order(values);
    let st = spec_stakes(values, n);
    if !cheaper(values, i, j) {
        assert(i != j);
        if i < j {
            assert(values[i].0 != values[j].0);
        } else {
            assert(values[j].0 != values[i].0);
        }
        assert(cheaper(values, j, i));
        lemma_stake_order_cheapest_first(values, j, i);
        lemma_ranked_is_sorted_permutation(stake_keys(values));
        assert(out.len() == values.len());
        assert(st.len() <= out.len());
        assert forall|k: int| 0 <= k < st.len() implies #[trigger] st[k] == out[k] by {}
        let k = choose|k: int| 0 <= k < st.len() && st[k] == values[i].0;
        assert(out[k] == values[i].0);
        let (q, p) = choose|q: int, p: int|
            0 <= q < p < out.len() && #[trigger] out[q] == values[j].0 && #[trigger] out[p] == values[i].0;
        assert(out[q] == values[j].0 && out[k] == values[i].0);
        assert(q < k);
        assert(st[q] == values[j].0);
        assert(st.contains(values[j].0));
    }
}

/// The territory that changes hands after the cup: the district the last
/// placed nation staked goes to the champion. `staked` are the home nation's
/// stakes, `rival_stakes` each rival's. Nothing moves when the champion is
/// also last, when the ranking is empty, or when the last nation staked nothing.
pub open spec fn spec_transfer(
    ranking: Seq<NationId>,
    home: NationId,
    staked: Seq<DistrictId>,
    rival_stakes: Seq<(NationId, DistrictId)>,
) -> Option<(DistrictId, NationId)> {
    if ranking.len() == 0 || ranking[0] == ranking.last() {
        None
    } else if ranking.last() == home {
        if staked.len() > 0 {
            Some((staked[0], ranking[0]))
        } else {
            None
        }
    } else {
        match first_stake_of(rival_stakes, ranking.last()) {
            Some(d) => Some((d, ranking[0])),
            None => None,
        }
    }
}

/// The first stake listed for `nation`.
pub open spec fn first_stake_of(rival_stakes: Seq<(NationId, DistrictId)>, nation: NationId) -> Option<DistrictId>
    decreases rival_stakes.len(),
{
    if rival_stakes.len() == 0 {
        None
    } else if rival_stakes[0].0 == nation {
        Some(rival_stakes[0].1)
    } else {
        first_stake_of(rival_stakes.drop_first(), nation)
    }
}

/// Which district moves to which nation after the cup (see `spec_transfer`).
pub fn territory_transfer(
    ranking: &Vec<NationId>,
    home: NationId,
    staked: &Vec<DistrictId>,
    rival_stakes: &Vec<(NationId, DistrictId)>,
) -> (r: Option<(DistrictId, NationId)>)
    ensures
        r == spec_transfer(ranking@, home, staked@, rival_stakes@),
{
    let n = ranking.len();
    if n == 0 {
        return None;
    }
    let champion = ranking[0];
    let bottom = ranking[n - 1];
    if champion == bottom {
        return None;
    }
    if bottom == home {
        if staked.len() > 0 {
            return Some((staked[0], champion));
        }
        return None;
    }
    let mut i: usize = 0;
    proof {
        assert(rival_stakes@.skip(0) == rival_stakes@);
    }
    while i < rival_stakes.len()
        invariant
            n == ranking@.len(),
            n > 0,
            bottom == ranking@.last(),
            champion == ranking@[0],
            champion != bottom,
            bottom != home,
            i <= rival_stakes@.len(),
            first_stake_of(rival_stakes@, bottom) == first_stake_of(rival_stakes@.skip(i as int), bottom),
        decreases rival_stakes@.len() - i,
    {
        proof {
            assert(rival_stakes@.skip(i as int).drop_first() == rival_stakes@.skip(i + 1));
            assert(rival_stakes@.skip(i as int)[0] == rival_stakes@[i as int]);
        }
        if rival_stakes[i].0 == bottom {
            proof {
                assert(rival_stakes@.skip(i as int).len() > 0);
                assert(first_stake_of(rival_stakes@.skip(i as int), bottom) == Some(
                    rival_stakes@[i as int].1,
                ));
                assert(ranking@.last() == bottom);
            }
            return Some((rival_stakes[i].1, champion));
        }
        i = i + 1;
    }
    None
}

/// The first stake listed for a nation is one of its stakes.
proof fn lemma_first_stake_is_listed(rival_stakes: Seq<(NationId, DistrictId)>, nation: NationId)
    ensures
        first_stake_of(rival_stakes, nation) matches Some(d) ==> rival_stakes.contains((nation, d)),
    decreases rival_stakes.len(),
{
    if rival_stakes.len() > 0 && rival_stakes[0].0 != nation {
        lemma_first_stake_is_listed(rival_stakes.drop_first(), nation);
        match first_stake_of(rival_stakes, nation) {
            Some(d) => {
                let k = choose|k: int|
                    0 <= k < rival_stakes.drop_first().len() && rival_stakes.drop_first()[k] == (
                    nation,
                    d,
                );
                assert(rival_stakes[k + 1] == (nation, d));
            },
            None => {},
        }
    } else if rival_stakes.len() > 0 {
        assert(rival_stakes[0] == (nation, rival_stakes[0].1));
    }
}

/// Territory only moves from the last placed nation to the champion, and
/// only a district the last nation put at stake: one of the home nation's
/// stakes when it came last, else one listed for that rival.
pub proof fn lemma_transfer_moves_a_stake(
    ranking: Seq<NationId>,
    home: NationId,
    staked: Seq<DistrictId>,
    rival_stakes: Seq<(NationId, DistrictId)>,
)
    ensures
        spec_transfer(ranking, home, staked, rival_stakes) matches Some((d, to)) ==> {
            &&& ranking.len() > 0
            &&& to == ranking[0]
            &&& to != ranking.last()
            &&& ranking.last() == home ==> staked.contains(d)
            &&& ranking.last() != home ==> rival_stakes.contains((ranking.last(), d))
        },
{
    if ranking.len() > 0 && ranking[0] != ranking.last() {
        if ranking.last() == home {
            if staked.len() > 0 {
                assert(staked[0] == staked[0]);
                assert(staked.contains(staked[0]));
            }
        } else {
            lemma_first_stake_is_listed(rival_stakes, ranking.last());
        }
    }
}

/// `p` is one of the candidates.
pub open spec fn is_candidate(ratings: Seq<(PersonId, u32)>, p: PersonId) -> bool {
    exists|i: int| 0 <= i < ratings.len() && (#[trigger] ratings[i]).0 == p
}

/// Each candidate listed once.
pub open spec fn distinct_people(ratings: Seq<(PersonId, u32)>) -> bool {
    forall|i: int, j: int| 0 <= i < j < ratings.len() ==> ratings[i].0 != ratings[j].0
}

/// Ranking lists every candidate once and no one else: when each candidate
/// appears once, the ranking (and so the proposed squad, which is its top)
/// has no repeated player, and everyone in it is a candidate.
pub proof fn lemma_ranking_lists_each_candidate_once(ratings: Seq<(PersonId, u32)>)
    requires
        distinct_people(ratings),
    ensures
        spec_ranked_candidates(ratings).no_duplicates(),
        spec_ranked_candidates(ratings).len() == ratings.len(),
        forall|k: int|
            0 <= k < spec_ranked_candidates(ratings).len() ==> is_candidate(
                ratings,
                #[trigger] spec_ranked_candidates(ratings)[k],
            ),
{
    let keys = candidate_keys(ratings);
    let r = ranked(keys);
    crate::order::lemma_ranking_total();
    keys.lemma_sort_by_ensures(crate::order::ranking_leq());
    assert(r.to_multiset() == keys.to_multiset());
    // the keys are distinct, so each occurs once, in the ranking too
    assert(keys.no_duplicates()) by {
        assert forall|i: int, j: int| 0 <= i < keys.len() && 0 <= j < keys.len() && i != j
            implies keys[i] != keys[j] by {
            if i < j {
                assert(ratings[i].0 != ratings[j].0);
            } else {
                assert(ratings[j].0 != ratings[i].0);
            }
        }
    }
    keys.lemma_multiset_has_no_duplicates();
    r.lemma_multiset_has_no_duplicates_conv();
    assert(r.len() == keys.len()) by {
        keys.to_multiset_ensures();
        r.to_multiset_ensures();
    }
    // every ranked entry is one of the keys
    assert forall|k: int| 0 <= k < r.len() implies exists|i: int|
        0 <= i < keys.len() && keys[i] == #[trigger] r[k] by {
        r.to_multiset_ensures();
        keys.to_multiset_ensures();
        assert(r.contains(r[k]));
        assert(keys.contains(r[k]));
    }
    let out = spec_ranked_candidates(ratings);
    assert forall|a: int, b: int| 0 <= a < out.len() && 0 <= b < out.len() && a != b implies out[a]
        != out[b] by {
        let i = choose|i: int| 0 <= i < keys.len() && keys[i] == r[a];
        let j = choose|j: int| 0 <= j < keys.len() && keys[j] == r[b];
        assert(r[a] != r[b]);
        assert(i != j);
        if i < j {
            assert(ratings[i].0 != ratings[j].0);
        } else {
            assert(ratings[j].0 != ratings[i].0);
        }
    }
    assert forall|k: int| 0 <= k < out.len() implies is_candidate(ratings, #[trigger] out[k]) by {
        let i = choose|i: int| 0 <= i < keys.len() && keys[i] == r[k];
        assert(ratings[i].0 == out[k]);
    }
}

/// What squad selection reads of a tracked person.
#[derive(Clone, Copy, PartialEq, Eq, Debug, Structural)]
pub struct PlayerOutline {
    pub home: DistrictId,
    pub status: PersonStatus,
    pub injured: bool,
    /// The order key of the player's rating.
    pub rating: u32,
}

/// A player can be selected: active, not injured, and living in a district
/// that `home` owns.
pub open spec fn eligible(p: PlayerOutline, owners: Seq<NationId>, home: NationId) -> bool {
    &&& p.status == PersonStatus::Active
    &&& !p.injured
    &&& owners[p.home.0 as int] == home
}

pub open spec fn eligible_index(people: Seq<PlayerOutline>, owners: Seq<NationId>, home: NationId) -> spec_fn(int) -> bool {
    |i: int| eligible(people[i], owners, home)
}

/// The eligible players, in index order, each with the key of its rating.
pub open spec fn spec_eligible_candidates(
    people: Seq<PlayerOutline>,
    owners: Seq<NationId>,
    home: NationId,
) -> Seq<(PersonId, u32)> {
    kept_indices(people.len(), eligible_index(people, owners, home)).map_values(
        |i: int| (PersonId(i as u16), people[i].rating),
    )
}

/// The squad candidates of the `home` nation: the active, uninjured
/// players of its districts. `owners[d]` is the owner of district `d`.
pub fn eligible_candidates(
    people: &Vec<PlayerOutline>,
    owners: &Vec<NationId>,
    home: NationId,
) -> (r: Vec<(PersonId, u32)>)
    requires
        people@.len() <= 0x1_0000,
        forall|i: int|
            0 <= i < people@.len() && (#[trigger] people@[i]).status == PersonStatus::Active
                && !people@[i].injured ==> (people@[i].home.0 as int) < owners@.len(),
    ensures
        r@ == spec_eligible_candidates(people@, owners@, home),
{
    let ghost keep = eligible_index(people@, owners@, home);
    let ghost f = |i: int| (PersonId(i as u16), people@[i].rating);
    let mut r: Vec<(PersonId, u32)> = Vec::new();
    let n = people.len();
    let mut i: usize = 0;
    while i < n
        invariant
            n == people@.len(),
            n <= 0x1_0000,
            i <= n,
            keep == eligible_index(people@, owners@, home),
            f == (|i: int| (PersonId(i as u16), people@[i].rating)),
            forall|i: int|
                0 <= i < people@.len() && (#[trigger] people@[i]).status == PersonStatus::Active
                    && !people@[i].injured ==> (people@[i].home.0 as int) < owners@.len(),
            r@ == kept_indices(i as nat, keep).map_values(f),
        decreases n - i,
    {
        let p = people[i];
        if p.status == PersonStatus::Active && !p.injured && owners[p.home.0 as usize] == home {
            r.push((PersonId(i as u16), p.rating));
        }
        proof {
            assert(kept_indices((i + 1) as nat, keep).map_values(f) =~= r@);
        }
        i = i + 1;
    }
    r
}

/// The candidates are distinct eligible players.
proof fn lemma_eligible_candidates(people: Seq<PlayerOutline>, owners: Seq<NationId>, home: NationId)
    requires
        people.len() <= 0x1_0000,
    ensures
        distinct_people(spec_eligible_candidates(people, owners, home)),
        forall|k: int|
            0 <= k < spec_eligible_candidates(people, owners, home).len() ==> {
                let p = #[trigger] spec_eligible_candidates(people, owners, home)[k].0;
                &&& (p.0 as int) < people.len()
                &&& eligible(people[p.0 as int], owners, home)
            },
{
    let keep = eligible_index(people, owners, home);
    let idx = kept_indices(people.len(), keep);
    lemma_kept_indices(people.len(), keep);
    let c = spec_eligible_candidates(people, owners, home);
    assert forall|a: int, b: int| 0 <= a < b < c.len() implies c[a].0 != c[b].0 by {
        assert(idx[a] < idx[b]);
        assert(c[a].0 == PersonId(idx[a] as u16));
        assert(c[b].0 == PersonId(idx[b] as u16));
    }
    assert forall|k: int| 0 <= k < c.len() implies {
        let p = #[trigger] c[k].0;
        &&& (p.0 as int) < people.len()
        &&& eligible(people[p.0 as int], owners, home)
    } by {
        assert(0 <= idx[k] < people.len() && keep(idx[k]));
        assert(c[k].0 == PersonId(idx[k] as u16));
    }
}

/// The squad candidates are the active, uninjured players who live in a
/// district the home nation owns: each of them once, in index order, with
/// its rating, and no one else (not a paused, retired or emigrated player,
/// not an injured one, not one living abroad).
pub proof fn lemma_candidates_are_the_eligible_players(
    people: Seq<PlayerOutline>,
    owners: Seq<NationId>,
    home: NationId,
)
    requires
        people.len() <= 0x1_0000,
        forall|i: int|
            0 <= i < people.len() && (#[trigger] people[i]).status == PersonStatus::Active
                && !people[i].injured ==> (people[i].home.0 as int) < owners.len(),
    ensures
        forall|k: int|
            0 <= k < spec_eligible_candidates(people, owners, home).len() ==> {
                let c = #[trigger] spec_eligible_candidates(people, owners, home)[k];
                let i = c.0.0 as int;
                &&& i < people.len()
                &&& people[i].status == PersonStatus::Active
                &&& !people[i].injured
                &&& (people[i].home.0 as int) < owners.len()
                &&& owners[people[i].home.0 as int] == home
                &&& c.1 == people[i].rating
            },
        forall|i: int|
            0 <= i < people.len() && (#[trigger] people[i]).status == PersonStatus::Active
                && !people[i].injured && owners[people[i].home.0 as int] == home
                ==> spec_eligible_candidates(people, owners, home).contains(
                (PersonId(i as u16), people[i].rating),
            ),
        forall|a: int, b: int|
            0 <= a < b < spec_eligible_candidates(people, owners, home).len()
                ==> (#[trigger] spec_eligible_candidates(people, owners, home)[a]).0.0
                < (#[trigger] spec_eligible_candidates(people, owners, home)[b]).0.0,
{
    let keep = eligible_index(people, owners, home);
    let idx = kept_indices(people.len(), keep);
    let f = |i: int| (PersonId(i as u16), people[i].rating);
    let c = spec_eligible_candidates(people, owners, home);
    lemma_kept_indices(people.len(), keep);
    assert(c == idx.map_values(f));
    assert forall|k: int| 0 <= k < c.len() implies {
        let i = (#[trigger] c[k]).0.0 as int;
        &&& i < people.len()
        &&& people[i].status == PersonStatus::Active
        &&& !people[i].injured
        &&& (people[i].home.0 as int) < owners.len()
        &&& owners[people[i].home.0 as int] == home
        &&& c[k].1 == people[i].rating
    } by {
        assert(0 <= idx[k] < people.len() && keep(idx[k]));
        assert(c[k] == f(idx[k]));
        assert(c[k].0.0 as int == idx[k]);
    }
    assert forall|i: int|
        0 <= i < people.len() && (#[trigger] people[i]).status == PersonStatus::Active
            && !people[i].injured && owners[people[i].home.0 as int] == home implies c.contains(
        (PersonId(i as u16), people[i].rating),
    ) by {
        assert(keep(i));
        lemma_kept_indices_complete(people.len(), keep, i);
        let k = choose|k: int| 0 <= k < idx.len() && idx[k] == i;
        assert(c[k] == f(i));
    }
    assert forall|a: int, b: int| 0 <= a < b < c.len() implies (#[trigger] c[a]).0.0
        < (#[trigger] c[b]).0.0 by {
        assert(idx[a] < idx[b]);
        assert(0 <= idx[a] < people.len() && 0 <= idx[b] < people.len());
        assert(c[a] == f(idx[a]));
        assert(c[b] == f(idx[b]));
    }
}

/// The ranking of the eligible candidates, whose top is the proposed squad,
/// lists only eligible players of the home nation, and none of them twice.
pub proof fn lemma_squad_eligible_without_repeats(
    people: Seq<PlayerOutline>,
    owners: Seq<NationId>,
    home: NationId,
)
    requires
        people.len() <= 0x1_0000,
    ensures
        spec_ranked_candidates(spec_eligible_candidates(people, owners, home)).no_duplicates(),
        forall|k: int|
            0 <= k < spec_ranked_candidates(spec_eligible_candidates(people, owners, home)).len()
                ==> {
                let p = #[trigger] spec_ranked_candidates(
                    spec_eligible_candidates(people, owners, home),
                )[k];
                &&& (p.0 as int) < people.len()
                &&& eligible(people[p.0 as int], owners, home)
            },
{
    let c = spec_eligible_candidates(people, owners, home);
    lemma_eligible_candidates(people, owners, home);
    lemma_ranking_lists_each_candidate_once(c);
    let r = spec_ranked_candidates(c);
    assert forall|k: int| 0 <= k < r.len() implies {
        let p = #[trigger] r[k];
        &&& (p.0 as int) < people.len()
        &&& eligible(people[p.0 as int], owners, home)
    } by {
        assert(is_candidate(c, r[k]));
        let i = choose|i: int| 0 <= i < c.len() && (#[trigger] c[i]).0 == r[k];
        assert(c[i].0 == r[k]);
    }
}

/// What stake selection reads of a district.
#[derive(Clone, Copy, PartialEq, Eq, Debug, Structural)]
pub struct DistrictOutline {
    pub owner: NationId,
    pub is_home: bool,
}

/// A district `nation` can put at stake: one of its own, never its home district.
pub open spec fn stakeable(d: DistrictOutline, nation: NationId) -> bool {
    d.owner == nation && !d.is_home
}

pub open spec fn stakeable_index(districts: Seq<DistrictOutline>, nation: NationId) -> spec_fn(int) -> bool {
    |i: int| stakeable(districts[i], nation)
}

/// The districts `nation` can put at stake, in index order.
pub fn stakeable_districts(districts: &Vec<DistrictOutline>, nation: NationId) -> (r: Vec<DistrictId>)
    requires
        districts@.len() <= 0x1_0000,
    ensures
        r@ == kept_indices(districts@.len(), stakeable_index(districts@, nation)).map_values(
            |i: int| DistrictId(i as u16),
        ),
        forall|k: int|
            0 <= k < r@.len() ==> (r@[k].0 as int) < districts@.len() && stakeable(
                districts@[#[trigger] r@[k].0 as int],
                nation,
            ),
{
    let ghost keep = stakeable_index(districts@, nation);
    let mut r: Vec<DistrictId> = Vec::new();
    let n = districts.len();
    let mut i: usize = 0;
    while i < n
        invariant
            n == districts@.len(),
            n <= 0x1_0000,
            i <= n,
            keep == stakeable_index(districts@, nation),
            r@ == kept_indices(i as nat, keep).map_values(|i: int| DistrictId(i as u16)),
        decreases n - i,
    {
        let d = districts[i];
        if d.owner == nation && !d.is_home {
            r.push(DistrictId(i as u16));
        }
        proof {
            assert(kept_indices((i + 1) as nat, keep).map_values(|i: int| DistrictId(i as u16))
                =~= r@);
        }
        i = i + 1;
    }
    proof {
        lemma_kept_indices(n as nat, keep);
        let idx = kept_indices(n as nat, keep);
        assert forall|k: int| 0 <= k < r@.len() implies (r@[k].0 as int) < districts@.len()
            && stakeable(districts@[#[trigger] r@[k].0 as int], nation) by {
            assert(r@[k] == DistrictId(idx[k] as u16));
            assert(0 <= idx[k] < n && keep(idx[k]));
        }
    }
    r
}

/// A nation never stakes its home district: when every district offered
/// is one it can stake, so is every district in the stake order, whose
/// first entries `choose_stakes` returns.
pub proof fn lemma_home_district_never_staked(
    districts: Seq<DistrictOutline>,
    nation: NationId,
    values: Seq<(DistrictId, u32)>,
)
    requires
        forall|i: int|
            0 <= i < values.len() ==> (values[i].0.0 as int) < districts.len() && stakeable(
                districts[#[trigger] values[i].0.0 as int],
                nation,
            ),
    ensures
        forall|k: int|
            0 <= k < spec_stake_order(values).len() ==> {
                let d = #[trigger] spec_stake_order(values)[k];
                &&& (d.0 as int) < districts.len()
                &&& districts[d.0 as int].owner == nation
                &&& !districts[d.0 as int].is_home
            },
{
    let keys = stake_keys(values);
    let r = ranked(keys);
    crate::order::lemma_ranking_total();
    keys.lemma_sort_by_ensures(crate::order::ranking_leq());
    assert forall|k: int| 0 <= k < spec_stake_order(values).len() implies {
        let d = #[trigger] spec_stake_order(values)[k];
        &&& (d.0 as int) < districts.len()
        &&& districts[d.0 as int].owner == nation
        &&& !districts[d.0 as int].is_home
    } by {
        r.to_multiset_ensures();
        keys.to_multiset_ensures();
        assert(r.contains(r[k]));
        assert(keys.contains(r[k]));
        let i = choose|i: int| 0 <= i < keys.len() && keys[i] == r[k];
        assert(keys[i] == ((0xFFFF_FFFF - values[i].1) as u64, values[i].0.0 as u64));
        assert(spec_stake_order(values)[k] == district_of(r[k]));
        assert(district_of(r[k]) == values[i].0);
        assert(stakeable(districts[values[i].0.0 as int], nation));
    }
}

} // verus!
