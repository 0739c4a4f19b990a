use kachiclash::auth::{
    anon_name_suggestion, avatar_path, avatar_url, DiscordAuthProvider, DiscordUserInfo,
    GoogleAuthProvider, ImageExt, ImageSize, RedditAuthProvider,
};
use kachiclash::award::Award;
use kachiclash::basho_id::BashoId;
use kachiclash::config::Config;
use kachiclash::pages::{
    csrf_matches, initially_selectable, leader_limit, login_redirect_target, n_completed_basho,
    other_count_options, self_rank, SavePicksFormData, UserAgent,
};
use kachiclash::player::{
    candidate_name, check_new_name, name_from_suggestion, name_is_valid, new_player_name, picks_of_basho, url_path_for_name, PickedRikishiRow, PlayerLogins,
};
use kachiclash::rank::{Rank, RankName, RankSide};
use kachiclash::util::GroupRuns;

fn config(env: &str, host: &str, port: u16) -> Config {
    Config {
        env: env.to_string(),
        static_path: "public".to_string(),
        db_path: "var/kachiclash.sqlite".to_string(),
        host: host.to_string(),
        port,
        hero_img_src: String::new(),
        session_secret: "abcdefghijklmnopqrstuvwxyz012345abcdefghijklmnopqrstuvwxyz012345".to_string(),
        vapid_public_key: String::new(),
        vapid_private_key: String::new(),
        discord_client_id: String::new(),
        discord_client_secret: String::new(),
        google_client_id: String::new(),
        google_client_secret: String::new(),
        reddit_client_id: String::new(),
        reddit_client_secret: String::new(),
        webhook_secret: "hook".to_string(),
    }
}

#[test]
fn config_url_by_environment() {
    let dev = config("dev", "localhost", 8000);
    assert!(dev.is_dev());
    assert!(dev.session_secret_ok());
    assert_eq!(dev.url(), "http://localhost:8000/");
    let prod = config("prod", "kachiclash.com", 443);
    assert!(!prod.is_dev());
    assert!(!prod.session_secret_ok());
    assert_eq!(prod.url(), "https://kachiclash.com/");
    assert_eq!(config("prod", "bad host", 1).url_checked(), None);
}

#[test]
fn player_names() {
    assert!(name_is_valid("Abc"));
    assert!(name_is_valid("a1234567890123"));
    assert!(!name_is_valid("a12345678901234"));
    assert!(!name_is_valid("ab"));
    assert!(!name_is_valid("1abc"));
    assert!(!name_is_valid("ab_c"));
    assert_eq!(url_path_for_name("Abc"), "/player/Abc");
}

#[test]
fn avatars() {
    assert_eq!(
        avatar_path("123", &Some("abc".to_string()), "0001", ImageExt::Png, ImageSize::Tiny),
        "avatars/123/abc.png?size=64"
    );
    assert_eq!(
        avatar_path("123", &None, "0007", ImageExt::Png, ImageSize::Medium),
        "embed/avatars/2.png?size=512"
    );
    assert_eq!(avatar_path("123", &None, "x", ImageExt::Png, ImageSize::Tiny), "embed/avatars/0.png?size=64");
    assert_eq!(
        avatar_url("123", &None, "0007", ImageExt::Png, ImageSize::Medium),
        "https://cdn.discordapp.com/embed/avatars/2.png?size=512"
    );
    assert_eq!(anon_name_suggestion(42), "anon00042");
}

#[test]
fn login_services() {
    assert_eq!(DiscordAuthProvider.service_name(), "Discord");
    assert_eq!(DiscordAuthProvider.make_user_info_url("9"), "https://discordapp.com/api/v6/users/9");
    assert_eq!(GoogleAuthProvider.oauth_scopes(), vec!["https://www.googleapis.com/auth/userinfo.profile"]);
    assert_eq!(
        GoogleAuthProvider.make_user_info_url("7"),
        "https://people.googleapis.com/v1/{resourceName=people/7}?personFields=photos"
    );
    assert_eq!(RedditAuthProvider.oauth_scopes(), vec!["identity"]);
    let user = DiscordUserInfo { id: "1".to_string(), username: "Sumo Fan".to_string(), discriminator: "1".to_string(), avatar: None };
    assert_eq!(user.name_suggestion(), Some("Sumo Fan".to_string()));

    let none = PlayerLogins { discord_user_id: None, discord_avatar: None, discord_discriminator: None, google_picture: None, reddit_icon: None };
    assert_eq!(none.login_service_name(), "unknown");
    assert_eq!(none.tiny_thumb(), "/static/img/oicho-silhouette.png");
    let reddit = PlayerLogins { reddit_icon: Some("https://x.example/i.png?a=1&amp;b=2".to_string()), ..none };
    assert_eq!(reddit.login_service_name(), "Reddit");
    assert_eq!(reddit.medium_thumb(), "https://x.example/i.png?a=1&b=2");
    let discord = PlayerLogins {
        discord_user_id: Some("5".to_string()),
        discord_avatar: Some("hash".to_string()),
        discord_discriminator: None,
        google_picture: None,
        reddit_icon: None,
    };
    assert_eq!(discord.login_service_name(), "Discord");
    assert_eq!(discord.tiny_thumb(), "https://cdn.discordapp.com/avatars/5/hash.png?size=64");
}

#[test]
fn awards() {
    assert_eq!(Award::from_str("1").unwrap(), Award::EmperorsCup);
    assert_eq!(Award::from_str("2").unwrap_err(), "unknown award type 2");
    assert_eq!(Award::parse_list(None), vec![]);
    assert_eq!(Award::parse_list(Some(String::new())), vec![]);
    assert_eq!(Award::parse_list(Some("1,x,1".to_string())), vec![Award::EmperorsCup, Award::EmperorsCup]);
    assert_eq!(Award::EmperorsCup.to_string(), "\u{1F3C6}");
    assert_eq!(Award::from_number(1), Some(Award::EmperorsCup));
    assert_eq!(Award::from_number(2), None);
}

#[test]
fn pages() {
    assert_eq!(leader_limit(false, None, true), 1000000);
    assert_eq!(leader_limit(true, Some(true), false), 1000000);
    assert_eq!(leader_limit(true, None, true), 3);
    assert_eq!(leader_limit(true, Some(false), false), 100);
    assert!(initially_selectable(false, true, 4));
    assert!(!initially_selectable(false, true, 5));
    assert_eq!(self_rank(true, &vec![(Some(1), false), (None, true), (Some(4), true)]), Some(4));
    assert_eq!(self_rank(false, &vec![(Some(4), true)]), None);
    assert_eq!(other_count_options(3), vec![6, 2]);
    assert!(csrf_matches(Some("abc"), "abc"));
    assert!(!csrf_matches(Some("abc"), "abd"));
    assert!(!csrf_matches(None, "abc"));
    assert_eq!(login_redirect_target(true), "/settings");
    assert_eq!(login_redirect_target(false), "/");
    assert_eq!(UserAgent::default().to_string(), "unknown user agent");
    let form = SavePicksFormData { rank_group_1: Some(1), rank_group_2: None, rank_group_3: Some(3), rank_group_4: None, rank_group_5: Some(5) };
    assert_eq!(form.picks(), [Some(1), None, Some(3), None, Some(5)]);

    let r = n_completed_basho(None, 6);
    assert_eq!((r.start, r.end), (BashoId { year: 2019, month: 1 }, BashoId { year: 2020, month: 1 }));
    let r = n_completed_basho(Some((BashoId { year: 2023, month: 7 }, true)), 3);
    assert_eq!((r.start, r.end), (BashoId { year: 2023, month: 3 }, BashoId { year: 2023, month: 9 }));
    let r = n_completed_basho(Some((BashoId { year: 2023, month: 7 }, false)), 2);
    assert_eq!((r.start, r.end), (BashoId { year: 2023, month: 3 }, BashoId { year: 2023, month: 7 }));
}

#[test]
fn runs_of_equal_neighbours() {
    let v = [1, 1, 2, 3, 3, 3];
    let mut runs = v[..].group_runs(|a: &i32, b: &i32| a == b);
    assert_eq!(runs.next(), Some(&[1, 1][..]));
    assert_eq!(runs.next(), Some(&[2][..]));
    assert_eq!(runs.next(), Some(&[3, 3, 3][..]));
    assert_eq!(runs.next(), None);

    let mut w = [1, 1, 2];
    {
        let mut runs = w[..].group_runs_mut(|a: &i32, b: &i32| a == b);
        while let Some(run) = runs.next() {
            let n = run.len() as i32;
            for x in run.iter_mut() {
                *x = n;
            }
        }
    }
    assert_eq!(w, [2, 2, 1]);
}

#[test]
fn all_runs_cover_the_slice() {
    let v = [1, 1, 2, 3, 3, 3];
    let mut runs = v[..].group_runs(|a: &i32, b: &i32| a == b);
    let all = runs.collect_all();
    assert_eq!(all, vec![&[1, 1][..], &[2][..], &[3, 3, 3][..]]);
    assert_eq!(runs.next(), None);
    assert_eq!(runs.next(), None);
    let empty: [i32; 0] = [];
    assert!(empty[..].group_runs(|a: &i32, b: &i32| a == b).collect_all().is_empty());
}

#[test]
fn webhook_registration() {
    let c = config("prod", "kachiclash.com", 443);
    let data = kachiclash::sumo_api::RegisterWebhookData::with_types(&c, &vec!["matchResults"]);
    assert_eq!(data.name, "kachiclash-prod");
    assert_eq!(data.destination, "https://kachiclash.com/webhook/sumo_api");
    assert_eq!(data.secret, "hook");
    assert_eq!(data.subscriptions, vec!["matchResults".to_string()]);
}

#[test]
fn picks_per_basho_and_names() {
    let b = BashoId { year: 2023, month: 7 };
    let other = BashoId { year: 2023, month: 5 };
    let row = |basho, name: &str, rank_name, number, wins| PickedRikishiRow {
        basho_id: basho,
        name: name.to_string(),
        rank: Rank { name: rank_name, number, side: RankSide::East },
        wins,
        losses: 15 - wins,
    };
    let rows = vec![
        row(b, "Terunofuji", RankName::Yokozuna, 1, 12),
        row(other, "Abi", RankName::Maegashira, 2, 9),
        row(b, "Abi", RankName::Maegashira, 14, 8),
    ];
    let picks = picks_of_basho(&rows, b);
    assert_eq!(picks.len(), 5);
    assert_eq!(picks[0].as_ref().unwrap().name, "Terunofuji");
    assert!(picks[1].is_none() && picks[2].is_none() && picks[3].is_none());
    assert_eq!(picks[4].as_ref().unwrap().wins, 8);
    assert!(check_new_name("Tochi").is_ok());
    assert_eq!(check_new_name("x").unwrap_err(), "Invalid name: x");
}

#[test]
fn suggested_names_drop_blanks_and_are_cut() {
    assert_eq!(name_from_suggestion("Cool Player_1"), Some("CoolPlayer1".to_string()));
    assert_eq!(name_from_suggestion("abcdefghijklmnopqrst"), Some("abcdefghijklmn".to_string()));
    assert_eq!(name_from_suggestion("1abc"), None);
    assert_eq!(name_from_suggestion("a b"), None);
    assert_eq!(name_from_suggestion("Jürgen"), None);
    assert_eq!(new_player_name(Some("sumo fan"), 7), "sumofan");
    assert_eq!(new_player_name(Some("__"), 7), "anon00007");
    assert_eq!(new_player_name(None, 42), "anon00042");
    assert_eq!(candidate_name("sumofan", None), "sumofan");
    assert_eq!(candidate_name("sumofan", Some(123)), "sumofan123");
}
