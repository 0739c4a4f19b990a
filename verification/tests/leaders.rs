use kachiclash::basho::BashoRikishi;
use kachiclash::leaders::{
    assign_ord, leaders_order, picks_to_days, ranks_by_ord, BashoPlayerResults, BashoPlayerScore, ResultPlayer,
};
use kachiclash::player::PlayerId;
use kachiclash::rank::{Rank, RankName, RankSide};

fn score(id: i32, wins: u8) -> BashoPlayerScore {
    BashoPlayerScore { id: PlayerId(id), name: format!("P{id}"), wins, rank: 0 }
}

#[test]
fn ties_share_a_place() {
    let mut scores = vec![score(1, 10), score(2, 10), score(3, 8), score(4, 7), score(5, 7)];
    assign_ord(&mut scores);
    let places: Vec<usize> = scores.iter().map(|s| s.rank).collect();
    assert_eq!(places, vec![1, 1, 3, 4, 4]);
}

#[test]
fn places_become_ranks() {
    let ranks = ranks_by_ord(&vec![1, 1, 3, 4]);
    let y1e = Rank { name: RankName::Yokozuna, number: 1, side: RankSide::East };
    let y1w = Rank { name: RankName::Yokozuna, number: 1, side: RankSide::West };
    let o1e = Rank { name: RankName::Ozeki, number: 1, side: RankSide::East };
    assert_eq!(ranks, vec![y1e, y1e, y1w, o1e]);
}

fn rikishi(results: [Option<bool>; 15]) -> BashoRikishi {
    BashoRikishi {
        id: 1,
        name: "R".to_string(),
        rank: Rank { name: RankName::Ozeki, number: 1, side: RankSide::East },
        results,
        wins: 0,
        losses: 0,
        picks: 0,
        is_player_pick: false,
        is_kyujyo: false,
    }
}

#[test]
fn daily_wins_of_the_picks() {
    let mut a = [None; 15];
    a[0] = Some(true);
    a[1] = Some(false);
    let mut b = [None; 15];
    b[0] = Some(true);
    b[2] = Some(true);
    let ra = rikishi(a);
    let rb = rikishi(b);
    let (days, total) = picks_to_days(&[Some(&ra), None, Some(&rb), None, None]);
    assert_eq!(days[0], Some(2));
    assert_eq!(days[1], Some(0));
    assert_eq!(days[2], Some(1));
    assert_eq!(days[3], None);
    assert_eq!(total, 3);
}

fn line(player: ResultPlayer, names: &[&str]) -> BashoPlayerResults {
    BashoPlayerResults {
        is_self: false,
        player,
        picks: [None; 5],
        pick_names: names.iter().map(|n| if n.is_empty() { None } else { Some(n.to_string()) }).collect(),
        total: 0,
        days: [None; 15],
    }
}

fn ranked(name: &str, rank: Option<Rank>, basho_rank: usize) -> ResultPlayer {
    ResultPlayer::RankedPlayer { name: name.to_string(), rank, basho_rank }
}

#[test]
fn standings_during_basho_by_place_then_picks() {
    let lines = vec![
        line(ranked("Second", None, 2), &["Abi"]),
        line(ranked("Unplaced", None, 0), &["Ura", ""]),
        line(ResultPlayer::Min, &[]),
        line(ranked("FirstB", None, 1), &["Tobizaru"]),
        line(ranked("FirstA", None, 1), &["Takayasu"]),
        line(ResultPlayer::Max, &[]),
    ];
    assert_eq!(leaders_order(&lines, true), vec![5, 4, 3, 1, 0, 2]);
}

#[test]
fn standings_before_basho_by_rank_then_lowercase_name() {
    let m1e = Rank { name: RankName::Maegashira, number: 1, side: RankSide::East };
    let y1e = Rank { name: RankName::Yokozuna, number: 1, side: RankSide::East };
    let lines = vec![
        line(ranked("Bob", None, 0), &[]),
        line(ranked("alice", None, 0), &[]),
        line(ranked("zed", Some(m1e), 0), &[]),
        line(ranked("Yoko", Some(y1e), 0), &[]),
        line(ranked("Carl", Some(m1e), 0), &[]),
    ];
    assert_eq!(leaders_order(&lines, false), vec![3, 4, 2, 1, 0]);
}
