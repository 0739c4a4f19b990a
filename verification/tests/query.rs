use kachiclash::api_query::{
    basho_id_arg, basho_source, bashos_shown, leaderboard_place, player_scores_answer, limited_len, player_source, players_shown, score_of_basho,
    BashoFilter, BashoSource, PlayerFilter, PlayerSource, QueryError,
};
use kachiclash::award::Award;
use kachiclash::basho_id::BashoId;
use kachiclash::player::PlayerId;

fn pf(name: Option<&str>, id: Option<i32>, cup: Option<bool>, limit: Option<i32>) -> PlayerFilter {
    PlayerFilter { name: name.map(|n| n.to_string()), id: id.map(PlayerId), has_emperors_cup: cup, limit }
}

#[test]
fn query_basho_ids() {
    assert_eq!(basho_id_arg("202307"), Ok(BashoId { year: 2023, month: 7 }));
    assert_eq!(basho_id_arg("2023"), Err(QueryError::InvalidBashoId));
    assert_eq!(basho_id_arg("202313"), Err(QueryError::InvalidBashoId));
    assert_eq!(QueryError::InvalidBashoId.message(), "Invalid basho ID format");
    assert_eq!(QueryError::PlayerNotFound.message(), "Player not found");
    assert_eq!(QueryError::BashoNotFound.message(), "Basho not found");
}

#[test]
fn query_sources() {
    assert_eq!(player_source(&None), PlayerSource::All);
    assert_eq!(player_source(&Some(pf(Some("Bob"), Some(4), None, None))), PlayerSource::ById(PlayerId(4)));
    assert_eq!(player_source(&Some(pf(Some("Bob"), None, None, None))), PlayerSource::ByName("Bob".to_string()));
    assert_eq!(player_source(&Some(pf(None, None, Some(true), Some(3)))), PlayerSource::All);
    let bf = |id: Option<&str>| BashoFilter { id: id.map(|s| s.to_string()), completed_only: None, limit: None };
    assert_eq!(basho_source(&None), Ok(BashoSource::All));
    assert_eq!(basho_source(&Some(bf(None))), Ok(BashoSource::All));
    assert_eq!(basho_source(&Some(bf(Some("202401")))), Ok(BashoSource::ById(BashoId { year: 2024, month: 1 })));
    assert_eq!(basho_source(&Some(bf(Some("x")))), Err(QueryError::InvalidBashoId));
}

#[test]
fn query_limits_and_filters() {
    assert_eq!(limited_len(10, None), 10);
    assert_eq!(limited_len(10, Some(3)), 3);
    assert_eq!(limited_len(10, Some(30)), 10);
    assert_eq!(limited_len(10, Some(-1)), 10);
    assert_eq!(limited_len(10, Some(0)), 0);
    let cups = vec![0, 2, 0, 1, 5];
    assert_eq!(players_shown(&cups, &None), vec![0, 1, 2, 3, 4]);
    assert_eq!(players_shown(&cups, &Some(pf(None, None, Some(true), None))), vec![1, 3, 4]);
    assert_eq!(players_shown(&cups, &Some(pf(None, None, Some(false), None))), vec![0, 2]);
    assert_eq!(players_shown(&cups, &Some(pf(None, None, Some(true), Some(2)))), vec![1, 3]);
    assert_eq!(players_shown(&cups, &Some(pf(None, None, None, Some(-5)))), vec![0, 1, 2, 3, 4]);
    assert_eq!(leaderboard_place(0), 1);
    assert_eq!(leaderboard_place(65535), 0);
    let bashos = vec![BashoId { year: 2023, month: 5 }, BashoId { year: 2023, month: 7 }, BashoId { year: 2023, month: 7 }];
    assert_eq!(score_of_basho(&bashos, BashoId { year: 2023, month: 7 }), Some(1));
    assert_eq!(score_of_basho(&bashos, BashoId { year: 2023, month: 9 }), None);
    assert_eq!(Award::EmperorsCup.display_name(), "Emperor's Cup");
    assert_eq!(Award::EmperorsCup.kind_name(), "EmperorsCup");
}

#[test]
fn player_scores_answers() {
    let b = |month: u8| BashoId { year: 2024, month };
    let lists = vec![vec![b(1), b(3)], vec![b(5)], vec![b(3), b(3)]];
    assert_eq!(player_scores_answer(None, &lists, b(3), true), Ok(vec![(0, 1), (2, 0)]));
    assert_eq!(player_scores_answer(None, &lists, b(7), true), Ok(vec![]));
    assert_eq!(player_scores_answer(Some(false), &vec![], b(3), true), Err(QueryError::PlayerNotFound));
    assert_eq!(player_scores_answer(Some(false), &vec![], b(3), false), Err(QueryError::PlayerNotFound));
    assert_eq!(player_scores_answer(Some(true), &vec![vec![b(1)]], b(3), false), Err(QueryError::BashoNotFound));
    assert_eq!(player_scores_answer(None, &lists, b(3), false), Err(QueryError::BashoNotFound));
    assert_eq!(player_scores_answer(Some(true), &vec![vec![b(1), b(5)]], b(5), true), Ok(vec![(0, 1)]));
    assert_eq!(player_scores_answer(Some(true), &vec![vec![b(1)]], b(5), true), Ok(vec![]));
}

#[test]
fn bashos_completed_only() {
    let bf = |completed_only: Option<bool>, limit: Option<i32>| BashoFilter { id: None, completed_only, limit };
    let completed = vec![false, true, true, false, true];
    assert_eq!(bashos_shown(&completed, &None), vec![0, 1, 2, 3, 4]);
    assert_eq!(bashos_shown(&completed, &Some(bf(Some(true), None))), vec![1, 2, 4]);
    assert_eq!(bashos_shown(&completed, &Some(bf(Some(false), Some(2)))), vec![0, 1]);
    assert_eq!(bashos_shown(&completed, &Some(bf(Some(true), Some(2)))), vec![1, 2]);
}
