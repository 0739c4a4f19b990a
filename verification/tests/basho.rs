use kachiclash::banzuke_table::{FetchBashoRikishi, FetchedRikishiRow};
use kachiclash::basho::{
    check_save_picks, torikumi_sides, SavePicksError,
    plan_basho_update, BashoRikishi, KnownRikishi, plan_torikumi, BanzukeEntry, BashoRikishiByRank, ShikonaError, TorikumiMatchUpdateData,
    TorikumiRow,
};
use kachiclash::rank::{Rank, RankGroup, RankName, RankSide};
use kachiclash::leaders::{min_max_picks, pick_slots};
use std::collections::{HashMap, HashSet};

fn rank(name: RankName, number: u16, side: RankSide) -> Rank {
    Rank { name, number, side }
}

fn row(r: Rank, id: u32, name: &str, day: Option<u8>, win: Option<bool>) -> FetchedRikishiRow {
    FetchedRikishiRow {
        rank: r,
        rikishi_id: id,
        family_name: name.to_string(),
        kyujyo: false,
        day,
        win,
        picks: 3,
    }
}

fn bout(winner: &str, loser: &str) -> TorikumiMatchUpdateData {
    TorikumiMatchUpdateData { winner: winner.to_string(), loser: loser.to_string() }
}

fn entry(id: u32, name: &str, r: Rank) -> BanzukeEntry {
    BanzukeEntry { rikishi_id: id, family_name: name.to_string(), rank: r }
}

#[test]
fn table_lists_ranks_in_order_with_boundaries() {
    let rows = vec![
        row(rank(RankName::Ozeki, 1, RankSide::West), 3, "Kirishima", None, None),
        row(rank(RankName::Ozeki, 1, RankSide::East), 2, "Hoshoryu", Some(1), Some(false)),
        row(rank(RankName::Maegashira, 1, RankSide::East), 4, "Abi", Some(1), Some(true)),
        row(rank(RankName::Juryo, 1, RankSide::East), 5, "Tamawashi", Some(1), Some(true)),
        row(rank(RankName::Yokozuna, 1, RankSide::East), 1, "Terunofuji", Some(1), Some(true)),
        row(rank(RankName::Yokozuna, 1, RankSide::East), 1, "Terunofuji", Some(2), Some(false)),
    ];
    let mut picks = HashSet::new();
    picks.insert(2u32);
    let table = FetchBashoRikishi::from_rows(&rows, &picks);

    let labels: Vec<&str> = table.by_rank.iter().map(|b| b.rank.as_str()).collect();
    assert_eq!(labels, vec!["Y1", "O1", "boundary", "M1"]);
    assert_eq!(table.by_rank[0].rank_group, RankGroup(1));
    assert_eq!(table.by_rank[1].rank_group, RankGroup(1));
    assert_eq!(table.by_rank[2].rank_group, RankGroup(255));
    assert_eq!(table.by_rank[3].rank_group, RankGroup(3));

    let yokozuna = table.by_rank[0].east.as_ref().unwrap();
    assert_eq!(yokozuna.id, 1);
    assert_eq!(yokozuna.wins, 1);
    assert_eq!(yokozuna.losses, 1);
    assert_eq!(yokozuna.results[0], Some(true));
    assert_eq!(yokozuna.results[1], Some(false));
    assert_eq!(yokozuna.results[2], None);
    assert!(table.by_rank[0].west.is_none());
    assert_eq!(table.by_rank[0].next_day(), 3);

    let ozeki_east = table.by_rank[1].east.as_ref().unwrap();
    let ozeki_west = table.by_rank[1].west.as_ref().unwrap();
    assert_eq!(ozeki_east.name, "Hoshoryu");
    assert!(ozeki_east.is_player_pick);
    assert_eq!(ozeki_east.losses, 1);
    assert_eq!(ozeki_west.name, "Kirishima");
    assert!(!ozeki_west.is_player_pick);
    assert_eq!(ozeki_west.results, [None; 15]);
    assert_eq!(ozeki_west.picks, 3);

    assert!(table.by_rank[2].east.is_none() && table.by_rank[2].west.is_none());
    assert_eq!(table.by_rank[3].east.as_ref().unwrap().id, 4);

    assert_eq!(table.by_id.len(), 4);
    assert_eq!(table.by_id[&1].wins, 1);
    assert_eq!(table.by_id[&3].name, "Kirishima");
    assert!(!table.by_id.contains_key(&5));
}

#[test]
fn table_of_no_rows_is_empty() {
    let table = FetchBashoRikishi::from_rows(&vec![], &HashSet::new());
    assert!(table.by_rank.is_empty());
    assert!(table.by_id.is_empty());
}

#[test]
fn boundary_line() {
    let b = BashoRikishiByRank::make_boundary();
    assert_eq!(b.rank, "boundary");
    assert_eq!(b.rank_group, RankGroup(255));
    assert_eq!(b.next_day(), 1);
}

#[test]
fn torikumi_sides_follow_rank() {
    let banzuke = vec![
        entry(1, "Hakuho", rank(RankName::Yokozuna, 1, RankSide::East)),
        entry(2, "Kakuryu", rank(RankName::Yokozuna, 1, RankSide::West)),
        entry(3, "Abi", rank(RankName::Maegashira, 3, RankSide::West)),
    ];
    let bouts = vec![bout("Kakuryu", "Hakuho"), bout("Hakuho", "Abi"), bout("Abi", "Kakuryu")];
    let rows = plan_torikumi(&banzuke, &bouts).unwrap();
    assert_eq!(
        rows,
        vec![
            TorikumiRow { seq: 0, side: RankSide::West, rikishi_id: 2, win: true },
            TorikumiRow { seq: 0, side: RankSide::East, rikishi_id: 1, win: false },
            TorikumiRow { seq: 1, side: RankSide::East, rikishi_id: 1, win: true },
            TorikumiRow { seq: 1, side: RankSide::West, rikishi_id: 3, win: false },
            TorikumiRow { seq: 2, side: RankSide::East, rikishi_id: 3, win: true },
            TorikumiRow { seq: 2, side: RankSide::West, rikishi_id: 2, win: false },
        ]
    );
}

#[test]
fn torikumi_rejects_shared_family_names() {
    let banzuke = vec![
        entry(1, "Hakuho", rank(RankName::Yokozuna, 1, RankSide::East)),
        entry(2, "Hakuho", rank(RankName::Maegashira, 9, RankSide::West)),
    ];
    match plan_torikumi(&banzuke, &vec![]) {
        Err(ShikonaError::AmbiguousShikona { family_names }) => {
            assert_eq!(family_names, vec!["Hakuho".to_string()])
        }
        _ => panic!("expected an ambiguous shikona"),
    }
}

#[test]
fn torikumi_rejects_unknown_rikishi() {
    let banzuke = vec![entry(1, "Hakuho", rank(RankName::Yokozuna, 1, RankSide::East))];
    match plan_torikumi(&banzuke, &vec![bout("Hakuho", "Nobody")]) {
        Err(ShikonaError::RikishiNotFound { family_name }) => assert_eq!(family_name, "Nobody"),
        _ => panic!("expected an unknown rikishi"),
    }
}

fn known(id: i64, family: &str, given: &str) -> KnownRikishi {
    KnownRikishi { id, family_name: family.to_string(), given_name: given.to_string() }
}

#[test]
fn basho_update_finds_known_rikishi() {
    let banzuke = vec![
        ("Hoshoryu".to_string(), rank(RankName::Ozeki, 1, RankSide::East), false),
        ("Newcomer".to_string(), rank(RankName::Maegashira, 17, RankSide::West), true),
    ];
    let plans = plan_basho_update(&vec![known(7, "Hoshoryu", "Tomokatsu")], &banzuke).unwrap();
    assert_eq!(plans.len(), 2);
    assert_eq!(plans[0].rikishi_id, Some(7));
    assert_eq!(plans[0].given_name, "Tomokatsu");
    assert_eq!(plans[1].rikishi_id, None);
    assert_eq!(plans[1].given_name, "");
    match plan_basho_update(&vec![known(1, "Abi", ""), known(2, "Abi", "")], &banzuke) {
        Err(ShikonaError::AmbiguousShikona { family_names }) => assert_eq!(family_names, vec!["Abi".to_string()]),
        _ => panic!("expected an ambiguous shikona"),
    }
}

fn rikishi(id: u32, r: Rank, wins: u8, kyujyo: bool) -> BashoRikishi {
    BashoRikishi {
        id,
        name: format!("R{id}"),
        rank: r,
        results: [None; 15],
        wins,
        losses: 0,
        picks: 0,
        is_player_pick: false,
        is_kyujyo: kyujyo,
    }
}

#[test]
fn picks_go_to_their_rank_group() {
    let mut map = HashMap::new();
    map.insert(1, rikishi(1, rank(RankName::Yokozuna, 1, RankSide::East), 3, false));
    map.insert(2, rikishi(2, rank(RankName::Maegashira, 12, RankSide::West), 5, false));
    map.insert(3, rikishi(3, rank(RankName::Ozeki, 1, RankSide::West), 1, false));
    let slots = pick_slots(&vec![1, 2, 99, 3], &map);
    assert_eq!(slots, [Some(3), None, None, None, Some(2)]);
}

#[test]
fn best_and_worst_picks() {
    let a = rikishi(1, rank(RankName::Yokozuna, 1, RankSide::East), 3, false);
    let b = rikishi(2, rank(RankName::Ozeki, 1, RankSide::East), 3, false);
    let c = rikishi(3, rank(RankName::Ozeki, 1, RankSide::West), 9, false);
    let d = rikishi(4, rank(RankName::Sekiwake, 1, RankSide::West), 0, true);
    let walk = vec![&a, &b, &c, &d];
    let (mins, maxes) = min_max_picks(&walk);
    assert_eq!(mins, [Some(0), None, None, None, None]);
    assert_eq!(maxes, [Some(2), None, None, None, None]);
}

#[test]
fn bout_sides_are_opposite() {
    let a = rank(RankName::Maegashira, 1, RankSide::East);
    let b = rank(RankName::Maegashira, 3, RankSide::East);
    let (w, l) = torikumi_sides(a, b);
    assert_ne!(w, l);
    assert_eq!((w, l), (RankSide::East, RankSide::West));
    let (w, l) = torikumi_sides(b, a);
    assert_ne!(w, l);
    assert_eq!((w, l), (RankSide::West, RankSide::East));
}

#[test]
fn picks_are_saved_only_before_the_start_and_one_per_group() {
    let y1e = rank(RankName::Yokozuna, 1, RankSide::East);
    let k1w = rank(RankName::Komusubi, 1, RankSide::West);
    let m2e = rank(RankName::Maegashira, 2, RankSide::East);
    let m5w = rank(RankName::Maegashira, 5, RankSide::West);
    let m9e = rank(RankName::Maegashira, 9, RankSide::East);
    let m12w = rank(RankName::Maegashira, 12, RankSide::West);
    assert_eq!(check_save_picks(2000, 1000, &vec![y1e, k1w, m2e, m9e, m12w]), Ok(()));
    assert_eq!(check_save_picks(2000, 1000, &vec![]), Ok(()));
    assert_eq!(
        check_save_picks(2000, 1000, &vec![y1e, m2e, m5w]),
        Err(SavePicksError::InvalidPicks)
    );
    assert_eq!(
        check_save_picks(1000, 2000, &vec![y1e, k1w]),
        Err(SavePicksError::BashoHasStarted)
    );
    assert_eq!(check_save_picks(1000, 1000, &vec![y1e]), Ok(()));
}
