use kachiclash::auth::{service_for_name, AuthService};
use kachiclash::basho_id::BashoId;
use kachiclash::basho_info::{
    backfill_ids, current_and_previous, current_or_next_basho_id, leaders_range, link_url,
    next_basho_id, start_page,
};
use kachiclash::enter_picks::{check_next_pick, picks_by_rank, place_picks, single_match, Args, ArgsError, Pick, PickError};
use kachiclash::pages::{admin_allowed, HandlerErrorKind, Query};
use kachiclash::poll::{after_last_day, after_query, next_poll_time, next_retry_wait, tick_step, TickStep};
use kachiclash::rank::{Rank, RankName, RankSide};
use kachiclash::sumodb::{makuuchi_torikumi_text, results_url, SumodbError};

fn args(list: &[&str]) -> Vec<String> {
    list.iter().map(|s| s.to_string()).collect()
}

#[test]
fn enter_picks_arguments() {
    let parsed = Args::parse(&args(&["CoolPlayer", "202511", "A", "B", "C", "D", "E"]), None)
        .unwrap()
        .unwrap();
    assert_eq!(parsed.player_name, "CoolPlayer");
    assert_eq!(parsed.basho_id, BashoId { year: 2025, month: 11 });
    assert_eq!(parsed.rikishi, args(&["A", "B", "C", "D", "E"]));
    assert_eq!(parsed.db_path, "var/kachiclash.sqlite");
    assert!(!parsed.assume_yes);

    let parsed = Args::parse(&args(&["-y", "--db", "x.db", "P", "202511", "A", "B", "C", "D", "E"]), Some("env.db".to_string()))
        .unwrap()
        .unwrap();
    assert!(parsed.assume_yes);
    assert_eq!(parsed.db_path, "x.db");
    let parsed = Args::parse(&args(&["--db=--db=y.db", "P", "202511", "A", "B", "C", "D", "E"]), None).unwrap().unwrap();
    assert_eq!(parsed.db_path, "y.db");
    let parsed = Args::parse(&args(&["P", "202511", "A", "B", "C", "D", "E"]), Some("env.db".to_string())).unwrap().unwrap();
    assert_eq!(parsed.db_path, "env.db");

    assert!(Args::parse(&args(&["P", "--help"]), None).unwrap().is_none());
    assert!(matches!(Args::parse(&args(&["P", "--db"]), None), Err(ArgsError::DbNeedsPath)));
    assert!(matches!(Args::parse(&args(&["-x"]), None), Err(ArgsError::UnknownOption(o)) if o == "-x"));
    assert!(matches!(Args::parse(&args(&[]), None), Err(ArgsError::MissingPlayerName)));
    assert!(matches!(Args::parse(&args(&["P"]), None), Err(ArgsError::MissingBashoId)));
    assert!(matches!(Args::parse(&args(&["P", "2025x1"]), None), Err(ArgsError::InvalidBashoId(b)) if b == "2025x1"));
    assert!(matches!(Args::parse(&args(&["P", "202511", "A"]), None), Err(ArgsError::WrongPickCount(1))));
}

fn pick(id: u32, name: RankName, number: u16) -> Pick {
    Pick { id, name: format!("R{id}"), rank: Rank { name, number, side: RankSide::East }, is_kyujyo: false }
}

#[test]
fn picks_fill_the_rank_groups() {
    let picks = vec![
        pick(5, RankName::Maegashira, 12),
        pick(1, RankName::Yokozuna, 1),
        pick(3, RankName::Maegashira, 2),
        pick(2, RankName::Komusubi, 1),
        pick(4, RankName::Maegashira, 7),
    ];
    let placed = place_picks(&picks).unwrap();
    let ids: Vec<u32> = placed.iter().map(|p| p.id).collect();
    assert_eq!(ids, vec![1, 2, 3, 4, 5]);

    let clash = vec![
        pick(1, RankName::Yokozuna, 1),
        pick(2, RankName::Ozeki, 1),
        pick(3, RankName::Maegashira, 2),
        pick(4, RankName::Maegashira, 7),
        pick(5, RankName::Maegashira, 12),
    ];
    match place_picks(&clash) {
        Err(PickError::SameGroup { first, second, .. }) => {
            assert_eq!(first, "R1");
            assert_eq!(second, "R2");
        }
        _ => panic!("expected a rank group clash"),
    }
    let juryo = vec![
        pick(1, RankName::Juryo, 1),
        pick(2, RankName::Ozeki, 1),
        pick(3, RankName::Maegashira, 2),
        pick(4, RankName::Maegashira, 7),
        pick(5, RankName::Maegashira, 12),
    ];
    assert!(matches!(place_picks(&juryo), Err(PickError::NotMakuuchi { .. })));

    assert!(matches!(single_match(&"X".to_string(), vec![]), Err(PickError::NoRikishi { .. })));
    assert_eq!(single_match(&"X".to_string(), vec![pick(9, RankName::Ozeki, 1)]).unwrap().id, 9);
    assert!(matches!(
        single_match(&"X".to_string(), vec![pick(9, RankName::Ozeki, 1), pick(8, RankName::Ozeki, 1)]),
        Err(PickError::SeveralRikishi { count: 2, .. })
    ));
}

#[test]
fn polling_times() {
    // Basho starting 2023-07-09 00:00 JST (2023-07-08 15:00 UTC).
    let start = 1_688_828_400i64;
    let day1 = start + 18 * 3600; // 18:00 JST on day 1
    assert_eq!(next_poll_time(start, 1, start), day1);
    assert_eq!(next_poll_time(start, 1, day1 + 10), day1 + 10 + 300);
    assert_eq!(next_poll_time(start, 1, day1 + 4000), day1 + 4000 + 3600);
    assert_eq!(next_poll_time(start, 2, start), day1 + 86400);
    assert_eq!(after_query(start, 1, true, start), day1 + 86400);
    assert_eq!(after_query(start, 1, false, start), day1);
    assert_eq!(tick_step(0), TickStep::Query(1));
    assert_eq!(tick_step(15), TickStep::WaitADay);
    assert_eq!(after_last_day(100), 100 + 86400);
    assert_eq!(next_retry_wait(15), 30);
}

#[test]
fn basho_info_rules() {
    let b = BashoId { year: 2023, month: 7 };
    assert_eq!(current_or_next_basho_id(Some(b)), BashoId { year: 2023, month: 9 });
    assert_eq!(current_or_next_basho_id(None), BashoId { year: 2019, month: 1 });
    assert_eq!(link_url(&None, b), "/basho/202307");
    assert_eq!(link_url(&Some("https://x".to_string()), b), "https://x");
    assert_eq!(current_and_previous(Some(1), Some(2), false), (Some(1), Some(2)));
    assert_eq!(current_and_previous(Some(1), Some(2), true), (None, Some(1)));
    assert_eq!(current_and_previous::<i32>(None, None, true), (None, None));
    assert_eq!(next_basho_id(None), BashoId { year: 2019, month: 11 });
    assert_eq!(next_basho_id(Some(BashoId { year: 2023, month: 11 })), BashoId { year: 2024, month: 1 });
    let r = leaders_range(BashoId { year: 2024, month: 1 });
    assert_eq!(r.start, BashoId { year: 2023, month: 1 });
    assert_eq!(start_page(None), "/");
    let ids = backfill_ids(BashoId { year: 2019, month: 6 });
    assert_eq!(ids, vec![BashoId { year: 2019, month: 1 }, BashoId { year: 2019, month: 3 }, BashoId { year: 2019, month: 5 }]);
}

#[test]
fn handler_errors_and_api() {
    assert_eq!(HandlerErrorKind::NotFound("heya".to_string()).status(), 404);
    assert_eq!(HandlerErrorKind::NotFound("heya".to_string()).message(), "heya not found");
    assert_eq!(HandlerErrorKind::CsrfError.status(), 403);
    assert_eq!(HandlerErrorKind::Failure.status(), 500);
    assert_eq!(HandlerErrorKind::MustBeLoggedIn.message(), "Must be logged in");
    assert!(admin_allowed(Some(1)));
    assert!(!admin_allowed(Some(0)));
    assert!(!admin_allowed(None));
    assert_eq!(Query::api_version(), "1.0");
    assert_eq!(service_for_name("google"), Some(AuthService::Google));
    assert_eq!(service_for_name("myspace"), None);
}

#[test]
fn expected_start_is_second_sunday() {
    // 2023-07-09 15:00 UTC+9
    assert_eq!(BashoId { year: 2023, month: 7 }.expected_start_date(), 1_688_882_400);
    assert_eq!(BashoId { year: 2023, month: 13 }.expected_start_date_checked(), None);
}

#[test]
fn sumodb_results_page() {
    assert_eq!(
        results_url(BashoId { year: 2024, month: 1 }, 3),
        "http://sumodb.sumogames.de/Results_text.aspx?b=202401&d=3"
    );
    let page = "<html><div  class=\"simplecontent\">\n<pre>Hatsu 2024, Day 3\n\nMakuuchi\n\nAbi (2-1) yorikiri Ura (1-2)\nHoshoryu (3-0) uwatenage Kotozakura (2-1)\n</pre></div>";
    assert_eq!(
        makuuchi_torikumi_text(page),
        Ok("Abi (2-1) yorikiri Ura (1-2)\nHoshoryu (3-0) uwatenage Kotozakura (2-1)\n".to_string())
    );
    assert_eq!(makuuchi_torikumi_text("<html>maintenance</html>"), Err(SumodbError::NoMatch));
}

#[test]
fn existing_picks_shown_by_rank() {
    let p = |id: u32, name: RankName, number: u16, side: RankSide| Pick {
        id,
        name: format!("R{id}"),
        rank: Rank { name, number, side },
        is_kyujyo: false,
    };
    let picks = vec![
        p(1, RankName::Maegashira, 3, RankSide::West),
        p(2, RankName::Ozeki, 1, RankSide::East),
        p(3, RankName::Maegashira, 3, RankSide::East),
        p(4, RankName::Maegashira, 12, RankSide::East),
        p(5, RankName::Sekiwake, 1, RankSide::West),
    ];
    assert_eq!(picks_by_rank(&picks), vec![1, 4, 2, 0, 3]);
}

#[test]
fn picks_checked_in_turn() {
    let p = |id: u32, name: RankName, number: u16| Pick {
        id,
        name: format!("R{id}"),
        rank: Rank { name, number, side: RankSide::East },
        is_kyujyo: false,
    };
    let earlier = vec![p(1, RankName::Ozeki, 1), p(2, RankName::Maegashira, 2)];
    assert!(check_next_pick(&earlier, &p(3, RankName::Maegashira, 7)).is_ok());
    assert!(matches!(
        check_next_pick(&earlier, &p(4, RankName::Juryo, 1)),
        Err(PickError::NotMakuuchi { name, .. }) if name == "R4"
    ));
    assert!(matches!(
        check_next_pick(&earlier, &p(5, RankName::Maegashira, 4)),
        Err(PickError::SameGroup { first, second, .. }) if first == "R2" && second == "R5"
    ));
    assert!(check_next_pick(&vec![], &p(6, RankName::Yokozuna, 1)).is_ok());
}
