use kbism::cup::{
    choose_stakes, eligible_candidates, propose_squad, rank_nations, ranked_candidates, stakeable_districts, swap_in,
    territory_transfer, DistrictOutline, PlayerOutline,
};
use kbism::world::PersonStatus;
use kbism::ids::{DistrictId, NationId, PersonId};

/// Rating keys of the eligible people of a small starting scenario.
fn ratings() -> Vec<(PersonId, u32)> {
    vec![
        (PersonId(0), 410),
        (PersonId(1), 720),
        (PersonId(2), 530),
        (PersonId(3), 720),
        (PersonId(4), 90),
        (PersonId(5), 655),
        (PersonId(6), 300),
        (PersonId(7), 530),
    ]
}

fn rating_of(all: &[(PersonId, u32)], id: PersonId) -> u32 {
    all.iter().find(|(p, _)| *p == id).map(|(_, r)| *r).unwrap()
}

#[test]
fn candidates_are_ranked_by_rating_then_index() {
    let order = ranked_candidates(&ratings());
    let ids: Vec<u16> = order.iter().map(|p| p.0).collect();
    assert_eq!(ids, vec![1, 3, 5, 2, 7, 0, 6, 4]);
}

#[test]
fn the_proposed_squad_is_the_top_of_the_ranking() {
    let squad = propose_squad(&ratings(), 5);
    let ids: Vec<u16> = squad.iter().map(|p| p.0).collect();
    assert_eq!(ids, vec![1, 3, 5, 2, 7]);
    assert_eq!(propose_squad(&ratings(), 20).len(), 8);
    assert!(propose_squad(&ratings(), 0).is_empty());
}

#[test]
fn squad_swap_keeps_size_and_stays_unique() {
    let all = ratings();
    let squad = propose_squad(&all, 5);
    let bench = ranked_candidates(&all)
        .into_iter()
        .find(|id| !squad.contains(id))
        .expect("控えが1人もいない初期シナリオは想定していない");

    let keys: Vec<u32> = squad.iter().map(|p| rating_of(&all, *p)).collect();
    let swapped = swap_in(&squad, &keys, bench);
    assert_eq!(swapped.len(), squad.len());
    assert!(swapped.contains(&bench));

    let mut seen = swapped.clone();
    seen.sort();
    seen.dedup();
    assert_eq!(seen.len(), swapped.len(), "同じ人物が二重に登録された");

    // 既に登録済みの人物を入れても何も変わらない
    let keys: Vec<u32> = swapped.iter().map(|p| rating_of(&all, *p)).collect();
    assert_eq!(swap_in(&swapped, &keys, bench), swapped);
}

#[test]
fn swap_replaces_the_weakest_and_the_later_on_ties() {
    let squad = vec![PersonId(1), PersonId(2), PersonId(3), PersonId(4)];
    let keys = vec![50, 10, 40, 10];
    let r = swap_in(&squad, &keys, PersonId(9));
    assert_eq!(r, vec![PersonId(1), PersonId(2), PersonId(3), PersonId(9)]);
    let r = swap_in(&Vec::new(), &Vec::new(), PersonId(9));
    assert_eq!(r, vec![PersonId(9)]);
}

#[test]
fn nations_rank_by_wins_then_strength_then_id() {
    let standings = vec![
        (NationId(0), 2, 500),
        (NationId(1), 3, 100),
        (NationId(2), 2, 700),
        (NationId(3), 2, 500),
        (NationId(4), 0, 900),
    ];
    let r: Vec<u16> = rank_nations(&standings).iter().map(|n| n.0).collect();
    assert_eq!(r, vec![1, 2, 0, 3, 4]);
}

#[test]
fn stakes_are_the_cheapest_districts() {
    let values = vec![(DistrictId(3), 900), (DistrictId(1), 200), (DistrictId(7), 200), (DistrictId(2), 50)];
    let s: Vec<u16> = choose_stakes(&values, 2).iter().map(|d| d.0).collect();
    assert_eq!(s, vec![2, 1]);
    assert_eq!(choose_stakes(&values, 10).len(), 4);
    assert!(choose_stakes(&values, 0).is_empty());
}

#[test]
fn the_champion_takes_the_stake_of_the_last() {
    let home = NationId(0);
    let staked = vec![DistrictId(5), DistrictId(6)];
    let rivals = vec![(NationId(1), DistrictId(11)), (NationId(2), DistrictId(12)), (NationId(2), DistrictId(13))];
    let ranking = vec![NationId(1), NationId(0), NationId(2)];
    assert_eq!(territory_transfer(&ranking, home, &staked, &rivals), Some((DistrictId(12), NationId(1))));
    let ranking = vec![NationId(2), NationId(1), NationId(0)];
    assert_eq!(territory_transfer(&ranking, home, &staked, &rivals), Some((DistrictId(5), NationId(2))));
    let ranking = vec![NationId(0), NationId(2), NationId(1)];
    assert_eq!(territory_transfer(&ranking, home, &staked, &rivals), Some((DistrictId(11), NationId(0))));
}

#[test]
fn nothing_moves_without_a_stake_or_a_field() {
    let home = NationId(0);
    let rivals = vec![(NationId(1), DistrictId(11))];
    assert_eq!(territory_transfer(&vec![], home, &vec![], &rivals), None);
    assert_eq!(territory_transfer(&vec![NationId(0)], home, &vec![DistrictId(1)], &rivals), None);
    assert_eq!(territory_transfer(&vec![NationId(1), NationId(0)], home, &vec![], &rivals), None);
    assert_eq!(territory_transfer(&vec![NationId(0), NationId(3)], home, &vec![], &rivals), None);
}

fn player(home: u16, status: PersonStatus, injured: bool, rating: u32) -> PlayerOutline {
    PlayerOutline { home: DistrictId(home), status, injured, rating }
}

#[test]
fn only_active_uninjured_home_players_are_candidates() {
    let owners = vec![NationId(0), NationId(1), NationId(0)];
    let people = vec![
        player(0, PersonStatus::Active, false, 500),
        player(1, PersonStatus::Active, false, 900),
        player(2, PersonStatus::Active, true, 800),
        player(2, PersonStatus::Retired, false, 700),
        player(7, PersonStatus::Emigrated, false, 650),
        player(2, PersonStatus::Active, false, 600),
    ];
    let c = eligible_candidates(&people, &owners, NationId(0));
    assert_eq!(c, vec![(PersonId(0), 500), (PersonId(5), 600)]);
    let order = ranked_candidates(&c);
    assert_eq!(order, vec![PersonId(5), PersonId(0)]);
    let other = eligible_candidates(&people, &owners, NationId(1));
    assert_eq!(other, vec![(PersonId(1), 900)]);
}

#[test]
fn the_home_district_is_never_offered_as_a_stake() {
    let districts = vec![
        DistrictOutline { owner: NationId(0), is_home: true },
        DistrictOutline { owner: NationId(0), is_home: false },
        DistrictOutline { owner: NationId(1), is_home: false },
        DistrictOutline { owner: NationId(0), is_home: false },
        DistrictOutline { owner: NationId(1), is_home: true },
    ];
    assert_eq!(stakeable_districts(&districts, NationId(0)), vec![DistrictId(1), DistrictId(3)]);
    assert_eq!(stakeable_districts(&districts, NationId(1)), vec![DistrictId(2)]);
    assert_eq!(stakeable_districts(&districts, NationId(2)), vec![]);
}
