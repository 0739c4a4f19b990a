use kachiclash::basho::TorikumiMatchUpdateData;
use kachiclash::basho_id::BashoId;
use kachiclash::rank::{Rank, RankDivision, RankName, RankSide};
use kachiclash::sumo_api::{
    decode_hex_sha256, match_results_update, verify_webhook, webhook_url, BanzukeResponse, BoutResponse, BoutResult,
    HexError, RikishiResponse, SumoApiTorikumi, WebhookData, WebhookError,
};

fn hex(bytes: &[u8]) -> String {
    bytes.iter().map(|b| format!("{:02x}", b)).collect()
}

fn bout(result: BoutResult, opponent: &str) -> BoutResponse {
    BoutResponse { result, opponent_shikona_en: opponent.to_string() }
}

fn rikishi(name: &str, number: u16, side: RankSide, record: Vec<BoutResponse>) -> RikishiResponse {
    RikishiResponse {
        shikona_en: name.to_string(),
        rank: Rank { name: RankName::Maegashira, number, side },
        record,
    }
}

fn bouts(pairs: &[(&str, &str)]) -> Vec<TorikumiMatchUpdateData> {
    pairs
        .iter()
        .map(|(w, l)| TorikumiMatchUpdateData { winner: w.to_string(), loser: l.to_string() })
        .collect()
}

#[test]
fn hex_digests() {
    let digits = "00ff10".to_string() + &"ab".repeat(29);
    let d = decode_hex_sha256(&digits).unwrap();
    assert_eq!(&d[..3], &[0x00, 0xff, 0x10]);
    assert_eq!(d[31], 0xab);
    assert_eq!(decode_hex_sha256("abc"), Err(HexError::InvalidLength(3)));
    let bad = "zz".to_string() + &"00".repeat(31);
    assert_eq!(decode_hex_sha256(&bad), Err(HexError::InvalidDigit));
}

#[test]
fn webhook_signatures() {
    let url = "https://kachiclash.com/webhook/sumo_api";
    let body = br#"{"type":"matchResults","payload":"e30="}"#;
    let secret = "s3cret";
    let mut message = url.as_bytes().to_vec();
    message.extend_from_slice(body);
    let sig = hex(&hmac_sha256::HMAC::mac(&message, secret.as_bytes()));
    let data = WebhookData { webhook_type: "matchResults".to_string(), payload: "e30=".to_string() };
    assert!(verify_webhook(url, body, &sig, &data, secret).is_ok());

    let other_secret = hex(&hmac_sha256::HMAC::mac(&message, b"other"));
    assert!(matches!(
        verify_webhook(url, body, &other_secret, &data, secret),
        Err(WebhookError::InvalidSignature)
    ));
    assert!(matches!(
        verify_webhook(url, body, "00", &data, secret),
        Err(WebhookError::BadSignature(HexError::InvalidLength(2)))
    ));
    let new_basho = WebhookData { webhook_type: "newBasho".to_string(), payload: String::new() };
    assert!(matches!(
        verify_webhook(url, body, &sig, &new_basho, secret),
        Err(WebhookError::UnexpectedType(t)) if t == "newBasho"
    ));
}

fn banzuke() -> BanzukeResponse {
    BanzukeResponse {
        basho_id: BashoId { year: 2023, month: 7 },
        division: RankDivision::Makuuchi,
        east: vec![
            rikishi("Abi", 1, RankSide::East, vec![bout(BoutResult::Win, "Ura"), bout(BoutResult::Loss, "Tobizaru")]),
            rikishi("Tobizaru", 2, RankSide::East, vec![bout(BoutResult::Absent, ""), bout(BoutResult::FusenWin, "Abi")]),
        ],
        west: vec![
            rikishi("Ura", 1, RankSide::West, vec![bout(BoutResult::Loss, "Abi"), bout(BoutResult::NoResult, "")]),
        ],
    }
}

#[test]
fn day_results_from_banzuke() {
    let b = banzuke();
    assert!(b.day_complete(1));
    assert!(!b.day_complete(2));
    assert!(!b.day_complete(3));
    assert_eq!(b.torikumi_update_data(1), bouts(&[("Abi", "Ura")]));
    assert_eq!(b.torikumi_update_data(2), bouts(&[("Tobizaru", "Abi")]));
    let all: Vec<&str> = b.all_rikishi().iter().map(|r| r.shikona_en.as_str()).collect();
    assert_eq!(all, vec!["Abi", "Tobizaru", "Ura"]);
}

fn torikumi(day: u8, east: &str, west: &str, winner: &str) -> SumoApiTorikumi {
    SumoApiTorikumi {
        id: format!("202307-{day}"),
        basho_id: BashoId { year: 2023, month: 7 },
        division: RankDivision::Makuuchi,
        day,
        match_no: 1,
        east_id: 1,
        east_shikona: east.to_string(),
        east_rank: "M1e".to_string(),
        west_id: 2,
        west_shikona: west.to_string(),
        west_rank: "M1w".to_string(),
        kimarite: "yorikiri".to_string(),
        winner_id: 1,
        winner_en: winner.to_string(),
        winner_jp: String::new(),
    }
}

#[test]
fn match_results_webhook() {
    let current = BashoId { year: 2023, month: 7 };
    let list = vec![torikumi(3, "Abi", "Ura", "Ura"), torikumi(3, "Hoshoryu", "Kotozakura", "Hoshoryu")];
    let (day, data) = match_results_update(current, &list, current).unwrap();
    assert_eq!(day, 3);
    assert_eq!(data, bouts(&[("Ura", "Abi"), ("Hoshoryu", "Kotozakura")]));

    let mixed = vec![torikumi(3, "Abi", "Ura", "Ura"), torikumi(4, "Abi", "Ura", "Abi")];
    assert!(matches!(match_results_update(current, &mixed, current), Err(WebhookError::MismatchedDay)));

    let later = BashoId { year: 2023, month: 9 };
    assert!(matches!(
        match_results_update(current, &list, later),
        Err(WebhookError::NotCurrentBasho { webhook, current: c }) if webhook == current && c == later
    ));
}

#[test]
fn webhook_urls() {
    assert_eq!(
        webhook_url("https://kachiclash.com", "/webhook/sumo_api"),
        Some("https://kachiclash.com/webhook/sumo_api".to_string())
    );
    assert_eq!(
        webhook_url("http://localhost:8000/basho/", "/webhook/sumo_api"),
        Some("http://localhost:8000/webhook/sumo_api".to_string())
    );
    assert_eq!(webhook_url("no scheme", "/webhook/sumo_api"), None);
}

#[test]
fn juryo_opponent_is_kept() {
    let b = BanzukeResponse {
        basho_id: BashoId { year: 2023, month: 7 },
        division: RankDivision::Makuuchi,
        east: vec![
            rikishi("Abi", 15, RankSide::East, vec![bout(BoutResult::Win, "Roga")]),
            rikishi("Tobizaru", 16, RankSide::East, vec![bout(BoutResult::Absent, "")]),
        ],
        west: vec![rikishi("Bushozan", 16, RankSide::West, vec![bout(BoutResult::FusenLoss, "Kotoshoho")])],
    };
    assert!(b.day_complete(1));
    assert_eq!(b.torikumi_update_data(1), bouts(&[("Abi", "Roga"), ("Kotoshoho", "Bushozan")]));
}

#[test]
fn absent_rikishi_gives_no_bout() {
    let b = BanzukeResponse {
        basho_id: BashoId { year: 2023, month: 7 },
        division: RankDivision::Makuuchi,
        east: vec![rikishi("Tobizaru", 2, RankSide::East, vec![bout(BoutResult::Absent, "")])],
        west: vec![rikishi("Ura", 2, RankSide::West, vec![bout(BoutResult::Absent, "")])],
    };
    assert!(b.day_complete(1));
    assert_eq!(b.torikumi_update_data(1), vec![]);
}
