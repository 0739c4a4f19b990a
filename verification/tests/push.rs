use kachiclash::basho_id::BashoId;
use kachiclash::player::PlayerId;
use kachiclash::push::{
    countdown_text, day_result_text, PayloadData, PayloadFacts, PushType, PushTypeKey, RikishiDayResult,
    SendOutcome, SendStats, SubscriptionTarget,
};
use kachiclash::rank::{Rank, RankName, RankSide};

const DAY: i64 = 86400;

#[test]
fn push_kinds_and_lifetimes() {
    let b = BashoId { year: 2024, month: 1 };
    assert_eq!(PushType::KyujyoAlert(b, 7).key(), PushTypeKey::BashoStartCountdown);
    assert_eq!(PushType::DayResult(b, PlayerId(1), 3).key(), PushTypeKey::DayResult);
    assert_eq!(PushType::Test.ttl(), 600);
    assert_eq!(PushType::BashoStartCountdown(b).ttl(), 12 * 3600);
    assert_eq!(PushType::KyujyoAlert(b, 7).ttl(), 3 * DAY);
    assert_eq!(PushType::BashoResult(b, PlayerId(1)).ttl(), 7 * DAY);
}

#[test]
fn countdown_texts() {
    assert_eq!(countdown_text(3 * DAY + 5, 0), "You have 3 days to get your picks in!");
    assert_eq!(countdown_text(2 * DAY, 1), "You have 2 days to get your picks in!");
    assert_eq!(countdown_text(2 * DAY, 0), "You have one day to get your picks in!");
    assert_eq!(countdown_text(DAY, 0), "You have 24 hours to get your picks in!");
    assert_eq!(countdown_text(5 * 3600 + 59, 0), "You have 5 hours to get your picks in!");
    assert_eq!(countdown_text(-1800, -5), "You have 0 hours to get your picks in!");
    assert_eq!(countdown_text(-7300, 0), "You have -2 hours to get your picks in!");
}

#[test]
fn day_result_texts() {
    let rikishi = vec![
        RikishiDayResult { name: "Abi".to_string(), win: Some(true) },
        RikishiDayResult { name: "Ura".to_string(), win: Some(false) },
        RikishiDayResult { name: "Ichiyamamoto".to_string(), win: None },
    ];
    assert_eq!(
        day_result_text(&"Bob".to_string(), 3, 10, 12, &rikishi),
        "Bob now ranked #3, 2 points behind the leader. ⚪️ Abi, ⚫️ Ura, ❌ Ichiyamamoto"
    );
    assert_eq!(
        day_result_text(&"Bob".to_string(), 1, 12, 12, &vec![]),
        "Bob now ranked #1, 0 points behind the leader. "
    );
}

#[test]
fn payloads() {
    let url = "https://kachiclash.com/pwa".to_string();
    let p = PushType::Test.build_payload(url.clone(), PayloadFacts::Nothing);
    assert_eq!((p.title.as_str(), p.body.as_str(), p.url.as_str()), ("Test", "It worked!", "https://kachiclash.com/pwa"));

    let b = BashoId { year: 2024, month: 1 };
    let p = PushType::EntriesOpen(b).build_payload(url.clone(), PayloadFacts::BashoStart { start_date: 1705186800 });
    assert_eq!(p.title, "New Basho!");
    assert_eq!(p.body, "Entries for Hatsu Basho January 2024 are now open");
    assert!(matches!(p.data, PayloadData::EntriesOpen { start_date: 1705186800, .. }));

    let rank = Rank { name: RankName::Maegashira, number: 4, side: RankSide::West };
    let p = PushType::KyujyoAlert(b, 7).build_payload(
        url.clone(),
        PayloadFacts::Kyujyo { rikishi_name: "Ura".to_string(), rikishi_rank: rank },
    );
    assert_eq!(p.title, "Kyujyo Alert!");
    assert_eq!(p.body, "Ura (M4w) has gone kyujyo. You should pick another rikishi.");

    let p = PushType::DayResult(b, PlayerId(1), 9).build_payload(
        url,
        PayloadFacts::DayStanding {
            name: "Bob".to_string(),
            score: 20,
            rank: 2,
            leader_score: 21,
            rikishi: vec![RikishiDayResult { name: "Abi".to_string(), win: Some(true) }],
        },
    );
    assert_eq!(p.title, "Day 9 Results");
    assert_eq!(p.body, "Bob now ranked #2, 1 points behind the leader. ⚪️ Abi");
}

#[test]
fn send_tally() {
    let subs = vec![(1, PlayerId(10)), (2, PlayerId(10)), (3, PlayerId(11))];
    let results = vec![(1, SendOutcome::Success), (2, SendOutcome::Invalid), (3, SendOutcome::Failed)];
    let s = SendStats::from_results(&results, &subs);
    assert_eq!((s.players, s.success, s.invalid, s.fail), (2, 1, 1, 1));
}

fn target(id: usize, player: i32, opt_in: &[PushTypeKey]) -> SubscriptionTarget {
    SubscriptionTarget { id, player_id: PlayerId(player), opt_in: opt_in.to_vec() }
}

#[test]
fn notification_recipients() {
    let b = BashoId { year: 2024, month: 1 };
    let all = vec![
        target(1, 10, &[PushTypeKey::Announcement, PushTypeKey::DayResult]),
        target(2, 11, &[PushTypeKey::BashoStartCountdown]),
        target(3, 12, &[PushTypeKey::BashoStartCountdown, PushTypeKey::DayResult]),
        target(4, 10, &[PushTypeKey::BashoStartCountdown]),
    ];
    let none: Vec<PlayerId> = vec![];
    assert_eq!(PushType::Announcement("hi".to_string()).subscriptions(&all, &none), vec![0]);
    assert_eq!(PushType::Test.subscriptions(&all, &none), Vec::<usize>::new());
    assert_eq!(
        PushType::BashoStartCountdown(b).subscriptions(&all, &vec![PlayerId(12), PlayerId(10)]),
        vec![2, 3]
    );
    assert_eq!(PushType::KyujyoAlert(b, 5).subscriptions(&all, &vec![PlayerId(11)]), vec![1]);
    assert_eq!(PushType::DayResult(b, PlayerId(10), 4).subscriptions(&all, &none), vec![0]);
}

#[test]
fn payload_leads_to_the_pwa_page() {
    let p = PushType::Test.payload_for("https://kachiclash.com/", PayloadFacts::Nothing).unwrap();
    assert_eq!(p.url, "https://kachiclash.com/pwa");
    assert_eq!(p.body, "It worked!");
    let p = PushType::Announcement("Hi".to_string())
        .payload_for("http://localhost:8000/basho/202401", PayloadFacts::Nothing)
        .unwrap();
    assert_eq!(p.url, "http://localhost:8000/basho/pwa");
    assert_eq!(p.body, "Hi");
    assert!(PushType::Test.payload_for("not a url", PayloadFacts::Nothing).is_none());
}
