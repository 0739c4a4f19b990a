use kachiclash::auth::{
    avatar_url_checked, DiscordAuthProvider, GoogleAuthProvider, ImageExt, ImageSize, RedditAuthProvider,
};
use kachiclash::award::Award;
use kachiclash::banzuke_table::{rows_fit, FetchedRikishiRow};
use kachiclash::basho::BashoRikishi;
use kachiclash::basho_id::BashoId;
use kachiclash::leaders::{cup_winners, BashoPlayerScore};
use kachiclash::lex::{compare_bytes, compare_texts, key_less, stable_order, Cmp, SortKey};
use kachiclash::pages::UserAgent;
use kachiclash::player::{PlayerId, PlayerLogins};
use kachiclash::rank::{Rank, RankName, RankSide};
use kachiclash::text::{decimal_len, parse_u16};
use kachiclash::utf8_text::{bytes_eq, lit_string, owned, str_is, substr};

#[test]
fn basho_calendar() {
    let hatsu = BashoId { year: 2024, month: 1 };
    let kyushu = BashoId { year: 2023, month: 11 };
    assert_eq!(hatsu.expected_venue(), "Tokyo");
    assert_eq!(BashoId { year: 2024, month: 3 }.expected_venue(), "Osaka");
    assert_eq!(BashoId { year: 2024, month: 7 }.expected_venue(), "Nagoya");
    assert_eq!(kyushu.expected_venue(), "Fukuoka");
    assert_eq!(hatsu.season(), "Hatsu");
    assert_eq!(kyushu.season(), "Kyushu");
    assert_eq!(BashoId { year: 2024, month: 2 }.season(), "February");
    assert_eq!(hatsu.month_name(), "January");
    assert_eq!(kyushu.incr(1), hatsu);
    assert_eq!(hatsu.incr(-1), kyushu);
    assert_eq!(hatsu.incr_month(-2), kyushu);
    assert_eq!(hatsu.incr_month(25), BashoId { year: 2026, month: 2 });
    let range = hatsu.range_for_banzuke();
    assert_eq!(range.start, BashoId { year: 2023, month: 1 });
    assert_eq!(range.end, hatsu);
    assert!(kyushu.is_before(&hatsu));
    assert!(!hatsu.is_before(&kyushu));
    assert!(!hatsu.is_before(&hatsu));
    assert_eq!(BashoId::from_year_month(2025, 9), BashoId { year: 2025, month: 9 });
}

#[test]
fn rank_names_and_order() {
    assert!(RankName::Ozeki.at_or_above(RankName::Sekiwake));
    assert!(RankName::Ozeki.at_or_above(RankName::Ozeki));
    assert!(!RankName::Juryo.at_or_above(RankName::Maegashira));
    assert_eq!(RankName::Yokozuna.position(), 0);
    assert_eq!(RankName::BanzukeGai.position(), 10);
    assert_eq!(RankName::Maegashira.short_str(), "M");
    assert_eq!(RankName::Maegashira.long_str(), "Maegashira");
    assert_eq!(RankSide::West.short_str(), "w");
    assert_eq!(RankSide::West.long_str(), "West");
    assert_eq!(RankName::parse_bytes(b"xxKomusubiyy", 2, 10), Some(RankName::Komusubi));
    assert_eq!(RankName::parse_bytes(b"Kx", 0, 2), None);
    assert_eq!(RankSide::parse_bytes(b"east", 0, 4), Some(RankSide::East));
    assert_eq!(Rank::bottom(), Rank { name: RankName::BanzukeGai, number: 999, side: RankSide::West });
    let m1e = Rank { name: RankName::Maegashira, number: 1, side: RankSide::East };
    let m1w = Rank { name: RankName::Maegashira, number: 1, side: RankSide::West };
    assert!(m1e.is_above(&m1w));
    assert!(!m1w.is_above(&m1e));
    assert!(!m1e.is_above(&m1e));
}

#[test]
fn awards_and_cups() {
    assert_eq!(Award::EmperorsCup.emoji(), "🏆");
    let scores = vec![
        BashoPlayerScore { id: PlayerId(1), name: "a".to_string(), wins: 30, rank: 1 },
        BashoPlayerScore { id: PlayerId(2), name: "b".to_string(), wins: 30, rank: 1 },
        BashoPlayerScore { id: PlayerId(3), name: "c".to_string(), wins: 20, rank: 3 },
    ];
    assert_eq!(cup_winners(&scores), vec![PlayerId(1), PlayerId(2)]);
}

fn row(r: Rank, id: u32, day: Option<u8>, win: Option<bool>) -> FetchedRikishiRow {
    FetchedRikishiRow { rank: r, rikishi_id: id, family_name: "R".to_string(), kyujyo: false, day, win, picks: 0 }
}

#[test]
fn banzuke_rows_that_fit() {
    let m1e = Rank { name: RankName::Maegashira, number: 1, side: RankSide::East };
    assert!(rows_fit(&vec![row(m1e, 1, Some(1), Some(true)), row(m1e, 1, Some(15), Some(false))]));
    assert!(!rows_fit(&vec![row(m1e, 1, Some(16), Some(true))]));
    assert!(!rows_fit(&vec![row(m1e, 1, Some(0), Some(true))]));
    let j1e = Rank { name: RankName::Juryo, number: 1, side: RankSide::East };
    assert!(rows_fit(&vec![row(j1e, 2, Some(40), Some(true))]));
}

#[test]
fn result_chunks_of_five_days() {
    let mut results = [None; 15];
    results[0] = Some(true);
    results[7] = Some(false);
    results[14] = Some(true);
    let r = BashoRikishi {
        id: 1,
        name: "Abi".to_string(),
        rank: Rank { name: RankName::Komusubi, number: 1, side: RankSide::East },
        results,
        wins: 2,
        losses: 1,
        picks: 0,
        is_player_pick: false,
        is_kyujyo: false,
    };
    let chunks = r.result_chunks();
    assert_eq!(chunks.len(), 3);
    assert_eq!(chunks[0], &[Some(true), None, None, None, None]);
    assert_eq!(chunks[1], &[None, None, Some(false), None, None]);
    assert_eq!(chunks[2], &[None, None, None, None, Some(true)]);
}

#[test]
fn byte_and_text_order() {
    assert_eq!(compare_bytes(b"abc", b"abd"), Cmp::Less);
    assert_eq!(compare_bytes(b"ab", b"abc"), Cmp::Less);
    assert_eq!(compare_bytes(b"b", b"abc"), Cmp::Greater);
    assert_eq!(compare_bytes(b"", b""), Cmp::Equal);
    let a = vec![b"Abi".to_vec(), b"Ura".to_vec()];
    let b = vec![b"Abi".to_vec(), b"Ura".to_vec(), Vec::new()];
    let c = vec![b"Abi".to_vec(), b"Tobizaru".to_vec()];
    assert_eq!(compare_texts(&a, &b), Cmp::Less);
    assert_eq!(compare_texts(&a, &c), Cmp::Greater);
    assert_eq!(compare_texts(&a, &a.clone()), Cmp::Equal);
    let k = |primary: u64, t: &[&str]| SortKey { primary, texts: t.iter().map(|s| s.as_bytes().to_vec()).collect() };
    assert!(key_less(&k(1, &["z"]), &k(2, &["a"])));
    assert!(key_less(&k(2, &["a"]), &k(2, &["b"])));
    assert!(!key_less(&k(2, &["b"]), &k(2, &["b"])));
    let keys = vec![k(2, &["b"]), k(1, &["z"]), k(2, &["a"]), k(2, &["b"]), k(0, &[])];
    assert_eq!(stable_order(&keys), vec![4, 1, 2, 0, 3]);
}

#[test]
fn numbers_and_text_pieces() {
    assert_eq!(parse_u16(b"xx123yy", 2, 5), Ok(123));
    assert_eq!(parse_u16(b"+65535", 0, 6), Ok(65535));
    assert!(parse_u16(b"65536", 0, 5).is_err());
    assert!(parse_u16(b"", 0, 0).is_err());
    assert!(parse_u16(b"1a", 0, 2).is_err());
    assert_eq!(decimal_len(0), 1);
    assert_eq!(decimal_len(9), 1);
    assert_eq!(decimal_len(10), 2);
    assert_eq!(decimal_len(u64::MAX), 20);
    assert_eq!(substr("Hakuho", 2, 4), "ku");
    assert!(bytes_eq(b"xxEastyy", 2, 6, b"East"));
    assert!(!bytes_eq(b"xxEastyy", 2, 6, b"West"));
    assert!(str_is("matchResults", b"matchResults"));
    assert!(!str_is("matchResult", b"matchResults"));
    assert_eq!(owned("Ura"), "Ura".to_string());
    assert_eq!(lit_string("Ura"), "Ura".to_string());
}

#[test]
fn login_services_and_urls() {
    assert_eq!(ImageSize::Tiny.pixels(), 64);
    assert_eq!(ImageSize::Medium.pixels(), 512);
    assert_eq!(DiscordAuthProvider.logged_in_user_info_url(), "https://discordapp.com/api/v6/users/@me");
    assert_eq!(DiscordAuthProvider.auth_url(), "https://discordapp.com/api/oauth2/authorize");
    assert_eq!(DiscordAuthProvider.token_url(), "https://discordapp.com/api/oauth2/token");
    assert_eq!(DiscordAuthProvider.redirect_path(), "login/discord_redirect");
    assert_eq!(GoogleAuthProvider.logged_in_user_info_url(), "https://www.googleapis.com/userinfo/v2/me");
    assert_eq!(GoogleAuthProvider.auth_url(), "https://accounts.google.com/o/oauth2/v2/auth");
    assert_eq!(GoogleAuthProvider.token_url(), "https://oauth2.googleapis.com/token");
    assert_eq!(GoogleAuthProvider.redirect_path(), "login/google_redirect");
    assert_eq!(RedditAuthProvider.logged_in_user_info_url(), "https://oauth.reddit.com/api/v1/me");
    assert_eq!(RedditAuthProvider.auth_url(), "https://www.reddit.com/api/v1/authorize?duration=temporary");
    assert_eq!(RedditAuthProvider.token_url(), "https://www.reddit.com/api/v1/access_token");
    assert_eq!(RedditAuthProvider.redirect_path(), "login/reddit_redirect");
    assert_eq!(
        avatar_url_checked("5", &None, "1237", ImageExt::Png, ImageSize::Medium),
        Some("https://cdn.discordapp.com/embed/avatars/2.png?size=512".to_string())
    );
    assert_eq!(
        avatar_url_checked("5", &Some("abc".to_string()), "0", ImageExt::Png, ImageSize::Tiny),
        Some("https://cdn.discordapp.com/avatars/5/abc.png?size=64".to_string())
    );
    let google = PlayerLogins {
        discord_user_id: None,
        discord_avatar: None,
        discord_discriminator: None,
        google_picture: Some("https://lh3.example/photo.jpg".to_string()),
        reddit_icon: None,
    };
    assert_eq!(google.image_url_checked(ImageSize::Tiny), Some("https://lh3.example/photo.jpg".to_string()));
    assert_eq!(google.image_url(ImageSize::Medium), "https://lh3.example/photo.jpg");
    assert_eq!(UserAgent::from_value("curl/8.0").to_string(), "curl/8.0");
}
