//! Results as sumo-api reports them: a division's banzuke with each rikishi's
//! record, and the signed webhook that announces a day's bouts.

use vstd::prelude::*;
use vstd::string::*;

use crate::basho::TorikumiMatchUpdateData;
use crate::basho_id::BashoId;
use crate::rank::{Rank, RankDivision};
use crate::text::{is_hex_digit, hex_value};
use crate::mac::{hmac_of_parts, hmac_sha256};
use crate::utf8_text::{str_is, ascii_bytes, lemma_ascii_encode, lit_string};
use crate::config::Config;
use crate::web_url::{join_url, set_url_path, url_joined, url_with_path};

verus! {

/// The result of one bout in a rikishi's record.
#[derive(Debug, PartialEq, Eq, Structural, Clone, Copy)]
pub enum BoutResult {
    Win,
    Loss,
    Absent,
    FusenLoss,
    FusenWin,
    NoResult,
}

/// One day of a rikishi's record.
#[derive(Debug, PartialEq, Eq)]
pub struct BoutResponse {
    pub result: BoutResult,
    pub opponent_shikona_en: String,
}

/// A rikishi of the banzuke, with the record of the basho so far.
#[derive(Debug, PartialEq, Eq)]
pub struct RikishiResponse {
    pub shikona_en: String,
    pub rank: Rank,
    pub record: Vec<BoutResponse>,
}

/// A division's banzuke for a basho, East and West.
#[derive(Debug)]
pub struct BanzukeResponse {
    pub basho_id: BashoId,
    pub division: RankDivision,
    pub east: Vec<RikishiResponse>,
    pub west: Vec<RikishiResponse>,
}

/// The envelope of a sumo-api webhook: its type and its payload (base64 JSON).
#[derive(Debug)]
pub struct WebhookData {
    pub webhook_type: String,
    pub payload: String,
}

/// One bout as the match-results webhook reports it.
#[derive(Debug)]
pub struct SumoApiTorikumi {
    pub id: String,
    pub basho_id: BashoId,
    pub division: RankDivision,
    pub day: u8,
    pub match_no: u8,
    pub east_id: u32,
    pub east_shikona: String,
    pub east_rank: String,
    pub west_id: u32,
    pub west_shikona: String,
    pub west_rank: String,
    pub kimarite: String,
    pub winner_id: u32,
    pub winner_en: String,
    pub winner_jp: String,
}

/// Why a hex-encoded SHA-256 digest could not be read.
#[derive(Debug, PartialEq, Eq, Structural)]
pub enum HexError {
    InvalidLength(usize),
    InvalidDigit,
}

/// Why a webhook call was refused.
#[derive(Debug)]
pub enum WebhookError {
    BadSignature(HexError),
    InvalidSignature,
    UnexpectedType(String),
    MismatchedDay,
    NotCurrentBasho { webhook: BashoId, current: BashoId },
}

/// The record entry for a day, as a pair of result and opponent name.
pub open spec fn bout_view(b: BoutResponse) -> (BoutResult, Seq<char>) {
    (b.result, b.opponent_shikona_en@)
}

impl BanzukeResponse {
    /// All the rikishi, East first.
    pub open spec fn spec_all(&self) -> Seq<RikishiResponse> {
        self.east@ + self.west@
    }

    /// Is the result of day `day` in for every rikishi?
    pub open spec fn spec_day_complete(&self, day: int) -> bool {
        forall|i: int| 0 <= i < self.spec_all().len() ==> {
            let r = #[trigger] self.spec_all()[i];
            r.record@.len() > day - 1 && r.record@[day - 1].result != BoutResult::NoResult
        }
    }

    /// All the rikishi, East first.
    pub fn all_rikishi(&self) -> (r: Vec<&RikishiResponse>)
        ensures
            r@.len() == self.spec_all().len(),
            forall|i: int| 0 <= i < r@.len() ==> *r@[i] == self.spec_all()[i],
    {
        let mut r: Vec<&RikishiResponse> = Vec::new();
        let mut i: usize = 0;
        while i < self.east.len()
            invariant
                i <= self.east@.len(),
                r@.len() == i,
                forall|k: int| 0 <= k < i ==> *r@[k] == self.east@[k],
            decreases self.east@.len() - i,
        {
            r.push(&self.east[i]);
            i = i + 1;
        }
        let mut j: usize = 0;
        while j < self.west.len()
            invariant
                j <= self.west@.len(),
                r@.len() == self.east@.len() + j,
                forall|k: int| 0 <= k < self.east@.len() ==> *r@[k] == self.east@[k],
                forall|k: int| 0 <= k < j ==> *r@[self.east@.len() + k] == self.west@[k],
            decreases self.west@.len() - j,
        {
            r.push(&self.west[j]);
            j = j + 1;
        }
        r
    }

    /// Are the results of day `day` in for every rikishi of the division?
    pub fn day_complete(&self, day: u8) -> (r: bool)
        requires
            1 <= day <= 15,
        ensures
            r == self.spec_day_complete(day as int),
    {
        let day_idx = (day - 1) as usize;
        let all = self.all_rikishi();
        let mut i: usize = 0;
        while i < all.len()
            invariant
                all@.len() == self.spec_all().len(),
                forall|k: int| 0 <= k < all@.len() ==> *all@[k] == self.spec_all()[k],
                day_idx == day - 1,
                i <= all@.len(),
                forall|k: int| 0 <= k < i ==> {
                    let r = #[trigger] self.spec_all()[k];
                    r.record@.len() > day - 1 && r.record@[day - 1].result != BoutResult::NoResult
                },
            decreases all@.len() - i,
        {
            let rikishi = all[i];
            if day_idx >= rikishi.record.len() {
                return false;
            }
            match rikishi.record[day_idx].result {
                BoutResult::NoResult => return false,
                _ => {},
            }
            i = i + 1;
        }
        true
    }

    /// The bouts of day `day`, each once, in the order of the banzuke.
    pub fn torikumi_update_data(&self, day: u8) -> (r: Vec<TorikumiMatchUpdateData>)
        requires
            1 <= day <= 15,
            torikumi_scan(self.spec_all(), self.spec_all().len() as int, day - 1).0,
        ensures
            r@.map_values(|t: TorikumiMatchUpdateData| t@)
                == torikumi_scan(self.spec_all(), self.spec_all().len() as int, day - 1).2,
    {
        let day_idx = (day - 1) as usize;
        let all = self.all_rikishi();
        let ghost rs = self.spec_all();
        let mut seen: Vec<String> = Vec::new();
        let mut out: Vec<TorikumiMatchUpdateData> = Vec::new();
        let mut i: usize = 0;
        proof { lemma_scan_ok_prefix(rs, rs.len() as int, 0, day_idx as int); }
        while i < all.len()
            invariant
                all@.len() == rs.len(),
                rs == self.spec_all(),
                forall|k: int| 0 <= k < all@.len() ==> *all@[k] == rs[k],
                day_idx == day - 1,
                day_idx < 15,
                i <= all@.len(),
                torikumi_scan(rs, rs.len() as int, day_idx as int).0,
                torikumi_scan(rs, i as int, day_idx as int).0,
                seen@.map_values(|s: String| s@) == torikumi_scan(rs, i as int, day_idx as int).1,
                out@.map_values(|t: TorikumiMatchUpdateData| t@)
                    == torikumi_scan(rs, i as int, day_idx as int).2,
            decreases all@.len() - i,
        {
            proof { lemma_scan_ok_prefix(rs, rs.len() as int, i + 1, day_idx as int); }
            let rikishi = all[i];
            let ghost prev = torikumi_scan(rs, i as int, day_idx as int);
            if contains_name(&seen, &rikishi.shikona_en) {
                i = i + 1;
                continue;
            }
            let torikumi = &rikishi.record[day_idx];
            seen.push(rikishi.shikona_en.clone());
            if !torikumi.opponent_shikona_en.as_str().is_empty() {
                seen.push(torikumi.opponent_shikona_en.clone());
            }
            let ghost seen_prev = seen@;
            match torikumi.result {
                BoutResult::Win | BoutResult::FusenWin => {
                    out.push(TorikumiMatchUpdateData {
                        winner: rikishi.shikona_en.clone(),
                        loser: torikumi.opponent_shikona_en.clone(),
                    });
                },
                BoutResult::Loss | BoutResult::FusenLoss => {
                    out.push(TorikumiMatchUpdateData {
                        winner: torikumi.opponent_shikona_en.clone(),
                        loser: rikishi.shikona_en.clone(),
                    });
                },
                BoutResult::Absent | BoutResult::NoResult => {},
            }
            proof {
                assert(seen@.map_values(|s: String| s@)
                    =~= torikumi_scan(rs, i + 1, day_idx as int).1);
                assert(out@.map_values(|t: TorikumiMatchUpdateData| t@)
                    =~= torikumi_scan(rs, i + 1, day_idx as int).2);
            }
            i = i + 1;
        }
        out
    }
}

/// Scanning the first `n` rikishi for day index `d`: whether no check fails
/// (the record has the day; neither a new rikishi nor his opponent was seen
/// before), the names seen, and the bouts, as (winner, loser).
///
/// A rikishi already seen (as an earlier opponent) is passed over; an absence, or
/// a day without a result, gives no bout.
pub open spec fn torikumi_scan(rs: Seq<RikishiResponse>, n: int, d: int)
    -> (bool, Seq<Seq<char>>, Seq<(Seq<char>, Seq<char>)>)
    decreases n,
{
    if n <= 0 {
        (true, seq![], seq![])
    } else {
        let prev = torikumi_scan(rs, n - 1, d);
        let r = rs[n - 1];
        let name = r.shikona_en@;
        if prev.1.contains(name) {
            prev
        } else if !(r.record@.len() > d) {
            (false, prev.1, prev.2)
        } else {
            let bout = r.record@[d];
            let opp = bout.opponent_shikona_en@;
            let seen1 = prev.1.push(name);
            let ok = prev.0 && (opp.len() == 0 || !seen1.contains(opp));
            let seen2 = if opp.len() == 0 { seen1 } else { seen1.push(opp) };
            let out = match bout.result {
                BoutResult::Win | BoutResult::FusenWin => prev.2.push((name, opp)),
                BoutResult::Loss | BoutResult::FusenLoss => prev.2.push((opp, name)),
                _ => prev.2,
            };
            (ok, seen2, out)
        }
    }
}

/// A scan that passes all its checks passes them on every prefix.
proof fn lemma_scan_ok_prefix(rs: Seq<RikishiResponse>, n: int, m: int, d: int)
    requires
        0 <= m <= n,
        torikumi_scan(rs, n, d).0,
    ensures
        torikumi_scan(rs, m, d).0,
    decreases n - m,
{
    if m < n {
        assert(torikumi_scan(rs, n - 1, d).0);
        lemma_scan_ok_prefix(rs, n - 1, m, d);
    }
}

/// The signature that a webhook call to `url` with `body` must carry.
pub open spec fn expected_signature(secret: &str, url: &str, body: Seq<u8>) -> Seq<u8> {
    hmac_sha256(secret.spec_bytes(), url.spec_bytes() + body)
}

/// Checks a webhook call: its signature must be the hex HMAC-SHA256 of the URL
/// followed by the body, under the shared secret; then its type must be `matchResults`.
pub fn verify_webhook(url: &str, body: &[u8], sig: &str, data: &WebhookData, secret: &str)
    -> (r: Result<(), WebhookError>)
    ensures
        match decode_hex_sha256_spec(sig) {
            Err(e) => r matches Err(WebhookError::BadSignature(e2)) && e2 == e,
            Ok(d) => if d != expected_signature(secret, url, body@) {
                r matches Err(WebhookError::InvalidSignature)
            } else if data.webhook_type@ != seq!['m', 'a', 't', 'c', 'h', 'R', 'e', 's', 'u', 'l', 't', 's'] {
                r matches Err(WebhookError::UnexpectedType(t)) && t@ == data.webhook_type@
            } else {
                r is Ok
            },
        },
{
    let mac = hmac_of_parts(secret.as_bytes(), url.as_bytes(), body);
    let decoded = match decode_hex_sha256(sig) {
        Ok(d) => d,
        Err(e) => return Err(WebhookError::BadSignature(e)),
    };
    assert(decode_hex_sha256_spec(sig) matches Ok(v) && v == decoded@);
    assert(mac@ == expected_signature(secret, url, body@));
    let mut k: usize = 0;
    while k < 32
        invariant
            k <= 32,
            forall|j: int| 0 <= j < k ==> decoded@[j] == mac@[j],
            decode_hex_sha256_spec(sig) matches Ok(v) && v == decoded@,
            mac@ == expected_signature(secret, url, body@),
        decreases 32 - k,
    {
        if decoded[k] != mac[k] {
            proof { assert(decoded@ != mac@); }
            return Err(WebhookError::InvalidSignature);
        }
        k = k + 1;
    }
    proof { assert(decoded@ =~= mac@); }
    let expected = ['m' as u8, 'a' as u8, 't' as u8, 'c' as u8, 'h' as u8, 'R' as u8,
        'e' as u8, 's' as u8, 'u' as u8, 'l' as u8, 't' as u8, 's' as u8];
    if !str_is(data.webhook_type.as_str(), &expected) {
        proof {
            let lit = seq!['m', 'a', 't', 'c', 'h', 'R', 'e', 's', 'u', 'l', 't', 's'];
            if data.webhook_type@ == lit {
                lemma_ascii_encode(lit);
                assert(expected@ =~= ascii_bytes(lit));
            }
        }
        return Err(WebhookError::UnexpectedType(data.webhook_type.clone()));
    }
    proof {
        let lit = seq!['m', 'a', 't', 'c', 'h', 'R', 'e', 's', 'u', 'l', 't', 's'];
        lemma_ascii_encode(lit);
        assert(expected@ =~= ascii_bytes(lit));
        vstd::utf8::encode_utf8_decode_utf8(data.webhook_type@);
        vstd::utf8::encode_utf8_decode_utf8(lit);
    }
    Ok(())
}

/// What `decode_hex_sha256` makes of `s`, as a byte sequence.
pub open spec fn decode_hex_sha256_spec(s: &str) -> Result<Seq<u8>, HexError> {
    let b = s.spec_bytes();
    if b.len() != 64 {
        Err(HexError::InvalidLength(b.len() as usize))
    } else if forall|i: int| 0 <= i < 32 ==> #[trigger] hex_pair_ok(b[2 * i], b[2 * i + 1]) {
        Ok(Seq::new(32, |i: int| hex_pair_value(b[2 * i], b[2 * i + 1]) as u8))
    } else {
        Err(HexError::InvalidDigit)
    }
}

/// The bouts of a match-results webhook, all of one day of the current basho:
/// each bout's winner, and as loser the rikishi of the other side.
pub fn match_results_update(
    basho_id: BashoId,
    torikumi: &Vec<SumoApiTorikumi>,
    current_basho_id: BashoId,
) -> (r: Result<(u8, Vec<TorikumiMatchUpdateData>), WebhookError>)
    requires
        torikumi@.len() > 0,
    ensures
        (exists|i: int| 0 <= i < torikumi@.len() && #[trigger] torikumi@[i].day != torikumi@[0].day)
            ==> r matches Err(WebhookError::MismatchedDay),
        (forall|i: int| 0 <= i < torikumi@.len() ==> #[trigger] torikumi@[i].day == torikumi@[0].day)
            ==> if basho_id != current_basho_id {
                r matches Err(WebhookError::NotCurrentBasho { webhook, current })
                    && webhook == basho_id && current == current_basho_id
            } else {
                r matches Ok((day, data)) && day == torikumi@[0].day
                    && data@.len() == torikumi@.len()
                    && forall|i: int| 0 <= i < torikumi@.len() ==> {
                        let t = #[trigger] torikumi@[i];
                        data@[i]@ == (t.winner_en@,
                            if t.winner_en@ == t.east_shikona@ { t.west_shikona@ } else { t.east_shikona@ })
                    }
            },
{
    let day = torikumi[0].day;
    let mut i: usize = 0;
    while i < torikumi.len()
        invariant
            day == torikumi@[0].day,
            i <= torikumi@.len(),
            forall|k: int| 0 <= k < i ==> #[trigger] torikumi@[k].day == day,
        decreases torikumi@.len() - i,
    {
        if torikumi[i].day != day {
            return Err(WebhookError::MismatchedDay);
        }
        i = i + 1;
    }
    if basho_id.year != current_basho_id.year || basho_id.month != current_basho_id.month {
        return Err(WebhookError::NotCurrentBasho { webhook: basho_id, current: current_basho_id });
    }
    let mut data: Vec<TorikumiMatchUpdateData> = Vec::new();
    let mut j: usize = 0;
    while j < torikumi.len()
        invariant
            j <= torikumi@.len(),
            data@.len() == j,
            forall|k: int| 0 <= k < j ==> {
                let t = #[trigger] torikumi@[k];
                data@[k]@ == (t.winner_en@,
                    if t.winner_en@ == t.east_shikona@ { t.west_shikona@ } else { t.east_shikona@ })
            },
        decreases torikumi@.len() - j,
    {
        let t = &torikumi[j];
        let loser = if t.winner_en == t.east_shikona {
            t.west_shikona.clone()
        } else {
            t.east_shikona.clone()
        };
        data.push(TorikumiMatchUpdateData { winner: t.winner_en.clone(), loser });
        j = j + 1;
    }
    Ok((day, data))
}

/// Is `name` among `names`?
fn contains_name(names: &Vec<String>, name: &String) -> (r: bool)
    ensures
        r == names@.map_values(|s: String| s@).contains(name@),
{
    let ghost v = names@.map_values(|s: String| s@);
    let mut i: usize = 0;
    while i < names.len()
        invariant
            v == names@.map_values(|s: String| s@),
            i <= names@.len(),
            forall|k: int| 0 <= k < i ==> v[k] != name@,
        decreases names@.len() - i,
    {
        if names[i] == *name {
            proof { assert(v[i as int] == name@); }
            return true;
        }
        i = i + 1;
    }
    proof {
        assert forall|k: int| 0 <= k < v.len() implies v[k] != name@ by {}
    }
    false
}

/// The 32 bytes of a SHA-256 digest written as 64 hexadecimal digits: two digits a
/// byte, each pair possibly written `+x` for the single digit `x`.
pub open spec fn hex_pair_ok(b0: u8, b1: u8) -> bool {
    (is_hex_digit(b0) && is_hex_digit(b1)) || (b0 == 0x2b && is_hex_digit(b1))
}

pub open spec fn hex_pair_value(b0: u8, b1: u8) -> nat {
    if b0 == 0x2b { hex_value(b1) } else { hex_value(b0) * 16 + hex_value(b1) }
}

/// Reads a SHA-256 digest written in hexadecimal. The text must be 64 bytes long,
/// and each pair of bytes one byte's digits.
pub fn decode_hex_sha256(s: &str) -> (r: Result<[u8; 32], HexError>)
    ensures
        match decode_hex_sha256_spec(s) {
            Ok(v) => r matches Ok(a) && a@ == v,
            Err(e) => r == Err::<[u8; 32], HexError>(e),
        },
{
    let b = s.as_bytes();
    if b.len() != 64 {
        return Err(HexError::InvalidLength(b.len()));
    }
    let mut bytes = [0u8; 32];
    let mut i: usize = 0;
    while i < 32
        invariant
            b@ == s.spec_bytes(),
            b@.len() == 64,
            i <= 32,
            forall|k: int| 0 <= k < i ==> #[trigger] hex_pair_ok(b@[2 * k], b@[2 * k + 1]),
            forall|k: int| 0 <= k < i ==>
                bytes@[k] as nat == #[trigger] hex_pair_value(b@[2 * k], b@[2 * k + 1]),
        decreases 32 - i,
    {
        let b0 = b[2 * i];
        let b1 = b[2 * i + 1];
        let v1 = match hex_digit(b1) {
            Some(v) => v,
            None => {
                assert(!hex_pair_ok(b@[2 * (i as int)], b@[2 * (i as int) + 1]));
                return Err(HexError::InvalidDigit);
            },
        };
        let v = if b0 == 0x2b {
            v1
        } else {
            match hex_digit(b0) {
                Some(v0) => v0 * 16 + v1,
                None => {
                    assert(!hex_pair_ok(b@[2 * (i as int)], b@[2 * (i as int) + 1]));
                    return Err(HexError::InvalidDigit);
                },
            }
        };
        bytes[i] = v;
        i = i + 1;
    }
    proof {
        let b = s.spec_bytes();
        assert forall|k: int| 0 <= k < 32 implies #[trigger] hex_pair_value(b[2 * k], b[2 * k + 1]) < 256 by {
            lemma_hex_pair_small(b[2 * k], b[2 * k + 1]);
        }
        assert(bytes@ =~= Seq::new(32, |i: int| hex_pair_value(b[2 * i], b[2 * i + 1]) as u8));
    }
    Ok(bytes)
}

proof fn lemma_hex_pair_small(b0: u8, b1: u8)
    requires
        hex_pair_ok(b0, b1),
    ensures
        hex_pair_value(b0, b1) < 256,
{
    assert(is_hex_digit(b1) ==> hex_value(b1) < 16);
    assert(is_hex_digit(b0) ==> hex_value(b0) < 16);
}

/// The value of a hexadecimal digit.
fn hex_digit(c: u8) -> (r: Option<u8>)
    ensures
        is_hex_digit(c) ==> r == Some(hex_value(c) as u8),
        !is_hex_digit(c) ==> r is None,
        r matches Some(v) ==> v < 16,
{
    if 0x30 <= c && c <= 0x39 {
        Some(c - 0x30)
    } else if 0x41 <= c && c <= 0x46 {
        Some(c - 0x41 + 10)
    } else if 0x61 <= c && c <= 0x66 {
        Some(c - 0x61 + 10)
    } else {
        None
    }
}

/// What registering a webhook with sumo-api sends: the hook's name, where to
/// send it, the secret to sign with, and the event types wanted.
pub struct RegisterWebhookData {
    pub name: String,
    pub destination: String,
    pub secret: String,
    pub subscriptions: Vec<String>,
}

/// The path on this site that receives sumo-api's webhooks.
pub const WEBHOOK_PATH: &'static str = "/webhook/sumo_api";

/// Can the url crate build the webhook's destination from the site's URL?
pub open spec fn webhook_destination_ok(config: &Config) -> bool {
    &&& config.spec_url() is Some
    &&& url_with_path(config.spec_url()->Some_0, WEBHOOK_PATH@) is Some
}

impl RegisterWebhookData {
    /// The registration for the event `types`: named after the environment, sent
    /// to this site's webhook path, signed with the webhook secret.
    pub fn with_types(config: &Config, types: &Vec<&str>) -> (r: Self)
        requires
            webhook_destination_ok(config),
        ensures
            r.name@ == "kachiclash-"@ + config.env@,
            Some(r.destination@) == url_with_path(config.spec_url()->Some_0, WEBHOOK_PATH@),
            r.secret@ == config.webhook_secret@,
            r.subscriptions@.len() == types@.len(),
            forall|i: int| 0 <= i < types@.len() ==> (#[trigger] r.subscriptions@[i])@ == types@[i]@,
    {
        let mut subscriptions: Vec<String> = Vec::new();
        let mut i: usize = 0;
        while i < types.len()
            invariant
                i <= types@.len(),
                subscriptions@.len() == i,
                forall|j: int| 0 <= j < i ==> (#[trigger] subscriptions@[j])@ == types@[j]@,
            decreases types@.len() - i,
        {
            subscriptions.push(lit_string(types[i]));
            i = i + 1;
        }
        let base = config.url();
        let destination = match set_url_path(base.as_str(), WEBHOOK_PATH) {
            Some(d) => d,
            None => String::new(),
        };
        let mut name = lit_string("kachiclash-");
        name.append(config.env.as_str());
        RegisterWebhookData { name, destination, secret: config.webhook_secret.clone(), subscriptions }
    }

    /// The registration, or `None` where the url crate cannot build its
    /// destination.
    pub fn with_types_checked(config: &Config, types: &Vec<&str>) -> (r: Option<Self>)
        ensures
            r is Some <==> webhook_destination_ok(config),
            r matches Some(d) ==> Some(d.destination@) == url_with_path(config.spec_url()->Some_0, WEBHOOK_PATH@),
    {
        match config.url_checked() {
            Some(base) => match set_url_path(base.as_str(), WEBHOOK_PATH) {
                Some(_) => Some(Self::with_types(config, types)),
                None => None,
            },
            None => None,
        }
    }
}

/// The URL a webhook call was made to, as its signature covers it: the request's
/// path joined to the site's URL; `None` where the url crate cannot join them.
pub fn webhook_url(base_url: &str, path: &str) -> (r: Option<String>)
    ensures
        match url_joined(base_url@, path@) {
            Some(u) => r matches Some(s) && s@ == u,
            None => r is None,
        },
{
    join_url(base_url, path)
}

} // verus!
