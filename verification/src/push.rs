//! Push notifications: their kinds, how long they live, what they say, and the
//! tally of a round of sending.

use vstd::prelude::*;
use vstd::string::*;

use crate::basho::{Day, RikishiId};
use crate::basho_id::BashoId;
use crate::player::PlayerId;
use crate::rank::Rank;
use crate::text::{decimal, push_decimal, push_signed_decimal, signed_decimal};
use crate::utf8_text::lit_string;
use crate::web_url::{join_url, url_joined};

verus! {

/// The kinds of notification a player can opt in to.
#[derive(Debug, Clone, Copy, PartialEq, Eq, Structural, Hash)]
pub enum PushTypeKey {
    Test,
    Announcement,
    EntriesOpen,
    BashoStartCountdown,
    DayResult,
    BashoResult,
}

/// A notification to send.
#[derive(Debug)]
pub enum PushType {
    Test,
    Announcement(String),
    EntriesOpen(BashoId),
    BashoStartCountdown(BashoId),
    KyujyoAlert(BashoId, RikishiId),
    DayResult(BashoId, PlayerId, Day),
    BashoResult(BashoId, PlayerId),
}

/// How one delivery went.
#[derive(Debug, Clone, Copy, PartialEq, Eq, Structural)]
pub enum SendOutcome {
    Success,
    /// The push service no longer knows the endpoint.
    Invalid,
    Failed,
}

/// The tally of a round of sending.
#[derive(Debug, Clone, Copy, Default)]
pub struct SendStats {
    pub players: usize,
    pub success: usize,
    pub invalid: usize,
    pub fail: usize,
}

/// A rikishi a player picked, and his result on a day (`None` when he did not fight).
#[derive(Debug)]
pub struct RikishiDayResult {
    pub name: String,
    pub win: Option<bool>,
}

/// The kind-specific part of a notification.
#[derive(Debug)]
pub enum PayloadData {
    Empty,
    EntriesOpen { basho_id: BashoId, start_date: i64 },
    BashoStartCountdown { basho_id: BashoId, start_date: i64 },
    DayResult {
        basho_id: BashoId,
        name: String,
        day: Day,
        rikishi: Vec<RikishiDayResult>,
        rank: u16,
        score: u8,
        leader_score: u8,
    },
}

/// What a notification shows, and where it leads.
#[derive(Debug)]
pub struct Payload {
    pub title: String,
    pub body: String,
    pub url: String,
    pub data: PayloadData,
}

/// What the database says about the subject of a notification.
pub enum PayloadFacts {
    /// Nothing is needed (test and announcement notifications).
    Nothing,
    /// When the basho starts, in seconds since the epoch.
    BashoStart { start_date: i64 },
    /// When the basho starts, in milliseconds since the epoch, and the time left
    /// until then as whole seconds and the nanoseconds beyond them (both taking the
    /// sign of the time left).
    Countdown { start_date_millis: i64, seconds_left: i64, subsec_nanos_left: i32 },
    /// The rikishi who went kyujyo.
    Kyujyo { rikishi_name: String, rikishi_rank: Rank },
    /// The player's standing after the day, and the day's results of his picks.
    DayStanding { name: String, score: u8, rank: u16, leader_score: u8, rikishi: Vec<RikishiDayResult> },
}

/// Seconds in a day and in an hour.
pub const SECS_PER_DAY: i64 = 86400;
pub const SECS_PER_HOUR: i64 = 3600;

impl PushType {
    pub open spec fn spec_key(&self) -> PushTypeKey {
        match self {
            PushType::Test => PushTypeKey::Test,
            PushType::Announcement(_) => PushTypeKey::Announcement,
            PushType::EntriesOpen(_) => PushTypeKey::EntriesOpen,
            PushType::BashoStartCountdown(_) | PushType::KyujyoAlert(_, _) => PushTypeKey::BashoStartCountdown,
            PushType::DayResult(_, _, _) => PushTypeKey::DayResult,
            PushType::BashoResult(_, _) => PushTypeKey::BashoResult,
        }
    }

    /// How long the push service keeps a notification, in seconds.
    pub open spec fn spec_ttl(&self) -> i64 {
        match self {
            PushType::Test => 600,
            PushType::Announcement(_) => 86400,
            PushType::EntriesOpen(_) => 86400,
            PushType::BashoStartCountdown(_) => 43200,
            PushType::KyujyoAlert(_, _) => 259200,
            PushType::DayResult(_, _, _) => 86400,
            PushType::BashoResult(_, _) => 604800,
        }
    }

    /// The opt-in kind a notification falls under; kyujyo alerts go with the countdown.
    pub fn key(&self) -> (k: PushTypeKey)
        ensures
            k == self.spec_key(),
    {
        match self {
            PushType::Test => PushTypeKey::Test,
            PushType::Announcement(_) => PushTypeKey::Announcement,
            PushType::EntriesOpen(_) => PushTypeKey::EntriesOpen,
            PushType::BashoStartCountdown(_) | PushType::KyujyoAlert(_, _) => {
                PushTypeKey::BashoStartCountdown
            },
            PushType::DayResult(_, _, _) => PushTypeKey::DayResult,
            PushType::BashoResult(_, _) => PushTypeKey::BashoResult,
        }
    }

    /// How long the push service keeps a notification, in seconds: ten minutes for a
    /// test, half a day for the countdown, three days for a kyujyo alert, a week for
    /// basho results, a day otherwise.
    pub fn ttl(&self) -> (secs: i64)
        ensures
            secs == self.spec_ttl(),
    {
        match self {
            PushType::Test => 10 * 60,
            PushType::Announcement(_) => SECS_PER_DAY,
            PushType::EntriesOpen(_) => SECS_PER_DAY,
            PushType::BashoStartCountdown(_) => 12 * SECS_PER_HOUR,
            PushType::KyujyoAlert(_, _) => 3 * SECS_PER_DAY,
            PushType::DayResult(_, _, _) => SECS_PER_DAY,
            PushType::BashoResult(_, _) => 7 * SECS_PER_DAY,
        }
    }

    /// Do the facts fit the kind of notification?
    pub open spec fn facts_fit(&self, facts: PayloadFacts) -> bool {
        match self {
            PushType::Test | PushType::Announcement(_) => facts is Nothing,
            PushType::EntriesOpen(b) => facts is BashoStart && 1 <= b.month <= 12,
            PushType::BashoStartCountdown(_) => facts is Countdown,
            PushType::KyujyoAlert(_, _) => facts is Kyujyo,
            PushType::DayResult(_, _, _) => match facts {
                PayloadFacts::DayStanding { score, leader_score, .. } => score <= leader_score,
                _ => false,
            },
            PushType::BashoResult(_, _) => false,
        }
    }

    /// The title of a notification.
    pub open spec fn spec_title(&self) -> Seq<char> {
        match self {
            PushType::Test => seq!['T', 'e', 's', 't'],
            PushType::Announcement(_) => seq!['A', 'n', 'n', 'o', 'u', 'n', 'c', 'e', 'm', 'e', 'n', 't'],
            PushType::EntriesOpen(_) => seq!['N', 'e', 'w', ' ', 'B', 'a', 's', 'h', 'o', '!'],
            PushType::BashoStartCountdown(_) =>
                seq!['B', 'a', 's', 'h', 'o', ' ', 'R', 'e', 'm', 'i', 'n', 'd', 'e', 'r'],
            PushType::KyujyoAlert(_, _) =>
                seq!['K', 'y', 'u', 'j', 'y', 'o', ' ', 'A', 'l', 'e', 'r', 't', '!'],
            PushType::DayResult(_, _, day) =>
                seq!['D', 'a', 'y', ' '] + decimal(*day as nat) + seq![' ', 'R', 'e', 's', 'u', 'l', 't', 's'],
            PushType::BashoResult(_, _) => seq![],
        }
    }
}

/// Each kind of notification falls under the opt-in of the same name, except
/// that kyujyo alerts go with the basho countdown: a key is given exactly to the
/// kinds of its name.
pub proof fn lemma_push_keys_by_kind(p: PushType)
    ensures
        (p.spec_key() == PushTypeKey::Test) == (p is Test),
        (p.spec_key() == PushTypeKey::Announcement) == (p is Announcement),
        (p.spec_key() == PushTypeKey::EntriesOpen) == (p is EntriesOpen),
        (p.spec_key() == PushTypeKey::BashoStartCountdown) == (p is BashoStartCountdown || p is KyujyoAlert),
        (p.spec_key() == PushTypeKey::DayResult) == (p is DayResult),
        (p.spec_key() == PushTypeKey::BashoResult) == (p is BashoResult),
{
}

/// Kinds other than the countdown and its kyujyo alert never share a key: two
/// notifications under one key are of one kind.
pub proof fn lemma_push_keys_distinct(p: PushType, q: PushType)
    requires
        p.spec_key() == q.spec_key(),
        !(p is BashoStartCountdown || p is KyujyoAlert),
    ensures
        (p is Test) == (q is Test),
        (p is Announcement) == (q is Announcement),
        (p is EntriesOpen) == (q is EntriesOpen),
        (p is DayResult) == (q is DayResult),
        (p is BashoResult) == (q is BashoResult),
{
}

/// The text of the countdown notification for the time left: whole days while more
/// than two days are left, "one day" while more than one, whole hours after that.
pub open spec fn countdown_body(seconds_left: i64, subsec_nanos_left: i32) -> Seq<char> {
    let more_than_two_days = seconds_left > 2 * 86400 || (seconds_left == 2 * 86400 && subsec_nanos_left > 0);
    let more_than_one_day = seconds_left > 86400 || (seconds_left == 86400 && subsec_nanos_left > 0);
    if more_than_two_days {
        seq!['Y', 'o', 'u', ' ', 'h', 'a', 'v', 'e', ' '] + decimal((seconds_left / 86400) as nat)
            + seq![' ', 'd', 'a', 'y', 's', ' ', 't', 'o', ' ', 'g', 'e', 't', ' ', 'y', 'o', 'u', 'r',
                ' ', 'p', 'i', 'c', 'k', 's', ' ', 'i', 'n', '!']
    } else if more_than_one_day {
        seq!['Y', 'o', 'u', ' ', 'h', 'a', 'v', 'e', ' ', 'o', 'n', 'e', ' ', 'd', 'a', 'y', ' ', 't',
            'o', ' ', 'g', 'e', 't', ' ', 'y', 'o', 'u', 'r', ' ', 'p', 'i', 'c', 'k', 's', ' ', 'i',
            'n', '!']
    } else {
        seq!['Y', 'o', 'u', ' ', 'h', 'a', 'v', 'e', ' '] + signed_decimal(trunc_div_i(seconds_left as int, 3600))
            + seq![' ', 'h', 'o', 'u', 'r', 's', ' ', 't', 'o', ' ', 'g', 'e', 't', ' ', 'y', 'o', 'u',
                'r', ' ', 'p', 'i', 'c', 'k', 's', ' ', 'i', 'n', '!']
    }
}

/// Division truncating towards zero.
pub open spec fn trunc_div_i(a: int, b: int) -> int {
    if a >= 0 { a / b } else { -((-a) / b) }
}


/// The mark of a day's result: a white circle for a win, a black one for a loss,
/// a cross for no bout.
pub open spec fn result_mark(win: Option<bool>) -> Seq<char> {
    match win {
        Some(true) => seq!['\u{26aa}', '\u{fe0f}'],
        Some(false) => seq!['\u{26ab}', '\u{fe0f}'],
        None => seq!['\u{274c}'],
    }
}

/// The day's results of the picks, as `mark name`, separated by `, `.
pub open spec fn day_results_text(rs: Seq<RikishiDayResult>) -> Seq<char>
    decreases rs.len(),
{
    if rs.len() == 0 {
        seq![]
    } else if rs.len() == 1 {
        result_mark(rs[0].win) + seq![' '] + rs[0].name@
    } else {
        day_results_text(rs.drop_last()) + seq![',', ' '] + result_mark(rs.last().win)
            + seq![' '] + rs.last().name@
    }
}

/// The text of the day-results notification.
pub open spec fn day_result_body(name: Seq<char>, rank: u16, behind: int, rs: Seq<RikishiDayResult>) -> Seq<char> {
    name + seq![' ', 'n', 'o', 'w', ' ', 'r', 'a', 'n', 'k', 'e', 'd', ' ', '#'] + decimal(rank as nat)
        + seq![',', ' '] + decimal(behind as nat)
        + seq![' ', 'p', 'o', 'i', 'n', 't', 's', ' ', 'b', 'e', 'h', 'i', 'n', 'd', ' ', 't', 'h',
            'e', ' ', 'l', 'e', 'a', 'd', 'e', 'r', '.', ' ']
        + day_results_text(rs)
}

/// The countdown notification's text for the time left.
pub fn countdown_text(seconds_left: i64, subsec_nanos_left: i32) -> (r: String)
    ensures
        r@ == countdown_body(seconds_left, subsec_nanos_left),
{
    proof {
        reveal_strlit("You have ");
        reveal_strlit(" days to get your picks in!");
        reveal_strlit("You have one day to get your picks in!");
        reveal_strlit(" hours to get your picks in!");
    }
    if seconds_left > 2 * SECS_PER_DAY || (seconds_left == 2 * SECS_PER_DAY && subsec_nanos_left > 0) {
        let mut s = lit_string("You have ");
        push_decimal(&mut s, (seconds_left / SECS_PER_DAY) as u64);
        s.append(" days to get your picks in!");
        s
    } else if seconds_left > SECS_PER_DAY || (seconds_left == SECS_PER_DAY && subsec_nanos_left > 0) {
        lit_string("You have one day to get your picks in!")
    } else {
        let mut s = lit_string("You have ");
        let hours = seconds_left / SECS_PER_HOUR;
        assert(hours == trunc_div_i(seconds_left as int, 3600));
        push_signed_decimal(&mut s, hours);
        s.append(" hours to get your picks in!");
        s
    }
}

/// Appends the mark of a day's result.
fn push_result_mark(s: &mut String, win: Option<bool>)
    ensures
        final(s)@ == old(s)@ + result_mark(win),
{
    match win {
        Some(true) => {
            proof { reveal_strlit("\u{26aa}\u{fe0f}"); }
            s.append("\u{26aa}\u{fe0f}");
        },
        Some(false) => {
            proof { reveal_strlit("\u{26ab}\u{fe0f}"); }
            s.append("\u{26ab}\u{fe0f}");
        },
        None => {
            proof { reveal_strlit("\u{274c}"); }
            s.append("\u{274c}");
        },
    }
}

/// The day-results notification's text.
pub fn day_result_text(name: &String, rank: u16, score: u8, leader_score: u8, rikishi: &Vec<RikishiDayResult>) -> (r: String)
    requires
        score <= leader_score,
    ensures
        r@ == day_result_body(name@, rank, leader_score - score, rikishi@),
{
    proof {
        reveal_strlit(" now ranked #");
        reveal_strlit(", ");
        reveal_strlit(" points behind the leader. ");
        reveal_strlit(" ");
    }
    let mut s = name.clone();
    s.append(" now ranked #");
    push_decimal(&mut s, rank as u64);
    s.append(", ");
    push_decimal(&mut s, (leader_score - score) as u64);
    s.append(" points behind the leader. ");
    let ghost head = s@;
    let mut i: usize = 0;
    while i < rikishi.len()
        invariant
            i <= rikishi@.len(),
            s@ == head + day_results_text(rikishi@.subrange(0, i as int)),
        decreases rikishi@.len() - i,
    {
        proof {
            reveal_strlit(", ");
            reveal_strlit(" ");
        }
        let ghost before = s@;
        if i > 0 {
            s.append(", ");
        }
        let ghost sep = s@;
        push_result_mark(&mut s, rikishi[i].win);
        s.append(" ");
        s.append(rikishi[i].name.as_str());
        proof {
            let sub = rikishi@.subrange(0, i + 1);
            let r = rikishi@[i as int];
            assert(sub.drop_last() =~= rikishi@.subrange(0, i as int));
            assert(sub.last() == r);
            assert(s@ =~= sep + result_mark(r.win) + seq![' '] + r.name@);
            if i == 0 {
                assert(sep == before);
                assert(rikishi@.subrange(0, 0) =~= Seq::<RikishiDayResult>::empty());
                assert(day_results_text(sub) =~= result_mark(r.win) + seq![' '] + r.name@);
            } else {
                assert(sep =~= before + seq![',', ' ']);
                assert(day_results_text(sub) =~= day_results_text(rikishi@.subrange(0, i as int))
                    + seq![',', ' '] + result_mark(r.win) + seq![' '] + r.name@);
            }
            assert(s@ =~= head + day_results_text(sub));
        }
        i = i + 1;
    }
    proof {
        assert(rikishi@.subrange(0, rikishi@.len() as int) =~= rikishi@);
        assert(s@ =~= day_result_body(name@, rank, leader_score - score, rikishi@));
    }
    s
}

impl PushType {
    /// Is `p` the notification this kind makes from `facts`, leading to `url`: the
    /// kind's title, and as body "It worked!", the announcement, that entries are
    /// open, the time left to pick, which rikishi went kyujyo, or the player's
    /// standing and picks?
    pub open spec fn payload_ok(&self, url: Seq<char>, facts: PayloadFacts, p: Payload) -> bool {
        &&& p.url@ =~= url
        &&& p.title@ =~= self.spec_title()
        &&& match (self, facts) {
            (PushType::Test, _) => p.body@ =~= seq!['I', 't', ' ', 'w', 'o', 'r', 'k', 'e', 'd', '!']
                && p.data is Empty,
            (PushType::Announcement(msg), _) => p.body@ =~= msg@ && p.data is Empty,
            (PushType::EntriesOpen(b), PayloadFacts::BashoStart { start_date }) =>
                p.body@ =~= seq!['E', 'n', 't', 'r', 'i', 'e', 's', ' ', 'f', 'o', 'r', ' ']
                    + b.season_name() + seq![' ', 'B', 'a', 's', 'h', 'o', ' ']
                    + crate::dates::english_month_name(b.month as int) + seq![' ']
                    + crate::text::decimal_padded(b.year as nat, 4)
                    + seq![' ', 'a', 'r', 'e', ' ', 'n', 'o', 'w', ' ', 'o', 'p', 'e', 'n']
                && p.data == PayloadData::EntriesOpen { basho_id: *b, start_date },
            (PushType::BashoStartCountdown(b),
                PayloadFacts::Countdown { start_date_millis, seconds_left, subsec_nanos_left }) =>
                p.body@ =~= countdown_body(seconds_left, subsec_nanos_left)
                && p.data == PayloadData::BashoStartCountdown { basho_id: *b, start_date: start_date_millis },
            (PushType::KyujyoAlert(_, _), PayloadFacts::Kyujyo { rikishi_name, rikishi_rank }) =>
                p.body@ =~= rikishi_name@ + seq![' ', '('] + rikishi_rank.text()
                    + seq![')', ' ', 'h', 'a', 's', ' ', 'g', 'o', 'n', 'e', ' ', 'k', 'y', 'u', 'j', 'y',
                        'o', '.', ' ', 'Y', 'o', 'u', ' ', 's', 'h', 'o', 'u', 'l', 'd', ' ', 'p', 'i',
                        'c', 'k', ' ', 'a', 'n', 'o', 't', 'h', 'e', 'r', ' ', 'r', 'i', 'k', 'i', 's',
                        'h', 'i', '.']
                && p.data is Empty,
            (PushType::DayResult(b, _, day),
                PayloadFacts::DayStanding { name, score, rank, leader_score, rikishi }) =>
                {
                    &&& p.body@ =~= day_result_body(name@, rank, leader_score - score, rikishi@)
                    &&& p.data matches PayloadData::DayResult {
                        basho_id: b2, name: n2, day: d2, rikishi: r2, rank: k2, score: s2, leader_score: l2 }
                    &&& b2 == *b && n2@ =~= name@ && d2 == *day && r2 == rikishi
                    &&& k2 == rank && s2 == score && l2 == leader_score
                },
            _ => true,
        }
    }

    /// The notification's text, from the facts the database gives: each kind's title,
    /// and as body "It worked!", the announcement, that entries are open, the time
    /// left to pick, which rikishi went kyujyo, or the player's standing and picks.
    pub fn build_payload(&self, url: String, facts: PayloadFacts) -> (p: Payload)
        requires
            self.facts_fit(facts),
        ensures
            self.payload_ok(url@, facts, p),
    {
        match self {
            PushType::Test => {
                proof { reveal_strlit("Test"); reveal_strlit("It worked!"); }
                Payload {
                    title: lit_string("Test"),
                    body: lit_string("It worked!"),
                    url,
                    data: PayloadData::Empty,
                }
            },
            PushType::Announcement(msg) => {
                proof { reveal_strlit("Announcement"); }
                Payload { title: lit_string("Announcement"), body: msg.clone(), url, data: PayloadData::Empty }
            },
            PushType::EntriesOpen(basho_id) => {
                proof { reveal_strlit("New Basho!"); reveal_strlit("Entries for "); reveal_strlit(" are now open"); }
                let start_date = match facts {
                    PayloadFacts::BashoStart { start_date } => start_date,
                    _ => 0,
                };
                let mut body = lit_string("Entries for ");
                let title_text = basho_id.to_string();
                body.append(title_text.as_str());
                body.append(" are now open");
                Payload {
                    title: lit_string("New Basho!"),
                    body,
                    url,
                    data: PayloadData::EntriesOpen { basho_id: *basho_id, start_date },
                }
            },
            PushType::BashoStartCountdown(basho_id) => {
                proof { reveal_strlit("Basho Reminder"); }
                match facts {
                    PayloadFacts::Countdown { start_date_millis, seconds_left, subsec_nanos_left } => {
                        Payload {
                            title: lit_string("Basho Reminder"),
                            body: countdown_text(seconds_left, subsec_nanos_left),
                            url,
                            data: PayloadData::BashoStartCountdown {
                                basho_id: *basho_id,
                                start_date: start_date_millis,
                            },
                        }
                    },
                    _ => Payload {
                        title: lit_string("Basho Reminder"),
                        body: String::new(),
                        url,
                        data: PayloadData::Empty,
                    },
                }
            },
            PushType::KyujyoAlert(_, _) => {
                proof {
                    reveal_strlit("Kyujyo Alert!");
                    reveal_strlit(" (");
                    reveal_strlit(") has gone kyujyo. You should pick another rikishi.");
                }
                match facts {
                    PayloadFacts::Kyujyo { rikishi_name, rikishi_rank } => {
                        let mut body = rikishi_name;
                        body.append(" (");
                        let rank_text = rikishi_rank.to_string();
                        body.append(rank_text.as_str());
                        body.append(") has gone kyujyo. You should pick another rikishi.");
                        Payload {
                            title: lit_string("Kyujyo Alert!"),
                            body,
                            url,
                            data: PayloadData::Empty,
                        }
                    },
                    _ => Payload {
                        title: lit_string("Kyujyo Alert!"),
                        body: String::new(),
                        url,
                        data: PayloadData::Empty,
                    },
                }
            },
            PushType::DayResult(basho_id, _, day) => {
                proof { reveal_strlit("Day "); reveal_strlit(" Results"); }
                let mut title = lit_string("Day ");
                push_decimal(&mut title, *day as u64);
                title.append(" Results");
                match facts {
                    PayloadFacts::DayStanding { name, score, rank, leader_score, rikishi } => {
                        let body = day_result_text(&name, rank, score, leader_score, &rikishi);
                        Payload {
                            title,
                            body,
                            url,
                            data: PayloadData::DayResult {
                                basho_id: *basho_id,
                                name,
                                day: *day,
                                rikishi,
                                rank,
                                score,
                                leader_score,
                            },
                        }
                    },
                    _ => Payload { title, body: String::new(), url, data: PayloadData::Empty },
                }
            },
            PushType::BashoResult(_, _) => {
                Payload { title: String::new(), body: String::new(), url, data: PayloadData::Empty }
            },
        }
    }
}

/// The player of subscription `id`: that of the last entry with this id.
pub open spec fn player_of(subs: Seq<(usize, PlayerId)>, id: usize) -> Option<PlayerId>
    decreases subs.len(),
{
    if subs.len() == 0 {
        None
    } else if subs.last().0 == id {
        Some(subs.last().1)
    } else {
        player_of(subs.drop_last(), id)
    }
}

/// The number of outcomes of a kind.
pub open spec fn count_outcome(results: Seq<(usize, SendOutcome)>, o: SendOutcome) -> nat
    decreases results.len(),
{
    if results.len() == 0 {
        0
    } else {
        count_outcome(results.drop_last(), o) + if results.last().1 == o { 1nat } else { 0nat }
    }
}

/// The players reached by the deliveries.
pub open spec fn players_of(results: Seq<(usize, SendOutcome)>, subs: Seq<(usize, PlayerId)>) -> Set<PlayerId> {
    Set::new(|p: PlayerId| exists|i: int| 0 <= i < results.len() && player_of(subs, #[trigger] results[i].0) == Some(p))
}

impl SendStats {
    /// Tallies a round of sending: successes, endpoints found invalid, other failures,
    /// and the number of different players the deliveries were for.
    pub fn from_results(results: &Vec<(usize, SendOutcome)>, subscriptions: &Vec<(usize, PlayerId)>) -> (s: Self)
        requires
            forall|i: int| 0 <= i < results@.len() ==> #[trigger] player_of(subscriptions@, results@[i].0) is Some,
        ensures
            s.success == count_outcome(results@, SendOutcome::Success),
            s.invalid == count_outcome(results@, SendOutcome::Invalid),
            s.fail == count_outcome(results@, SendOutcome::Failed),
            s.players == players_of(results@, subscriptions@).len(),
    {
        let mut stats = SendStats { players: 0, success: 0, invalid: 0, fail: 0 };
        let mut players: Vec<PlayerId> = Vec::new();
        let mut i: usize = 0;
        while i < results.len()
            invariant
                i <= results@.len(),
                forall|k: int| 0 <= k < results@.len() ==> #[trigger] player_of(subscriptions@, results@[k].0) is Some,
                stats.success == count_outcome(results@.subrange(0, i as int), SendOutcome::Success),
                stats.invalid == count_outcome(results@.subrange(0, i as int), SendOutcome::Invalid),
                stats.fail == count_outcome(results@.subrange(0, i as int), SendOutcome::Failed),
                stats.success + stats.invalid + stats.fail == i,
                players@.no_duplicates(),
                players@.to_set() == players_of(results@.subrange(0, i as int), subscriptions@),
                stats.players == players@.len(),
                players@.len() <= i,
            decreases results@.len() - i,
        {
            let (id, outcome) = results[i];
            let ghost pre = results@.subrange(0, i as int);
            let ghost post = results@.subrange(0, i + 1);
            proof {
                assert(post.drop_last() =~= pre);
                assert(post.last() == results@[i as int]);
            }
            match outcome {
                SendOutcome::Success => stats.success = stats.success + 1,
                SendOutcome::Invalid => stats.invalid = stats.invalid + 1,
                SendOutcome::Failed => stats.fail = stats.fail + 1,
            }
            let player = lookup_player(subscriptions, id);
            proof {
                assert(player_of(subscriptions@, results@[i as int].0) is Some);
            }
            let p = match player {
                Some(p) => p,
                None => PlayerId(0),
            };
            let ghost before = players@;
            if !contains_player(&players, p) {
                players.push(p);
                stats.players = stats.players + 1;
                proof {
                    assert(players@.no_duplicates());
                    assert(players@[players@.len() - 1] == p);
                    assert forall|x: PlayerId| before.contains(x) implies players@.contains(x) by {
                        let k = choose|k: int| 0 <= k < before.len() && before[k] == x;
                        assert(players@[k] == x);
                    }
                }
            }
            proof {
                assert(players@.contains(p));
                assert(forall|x: PlayerId| before.contains(x) ==> players@.contains(x));
                assert(players@.to_set() =~= players_of(post, subscriptions@)) by {
                    assert forall|q: PlayerId| players@.to_set().contains(q) implies
                        players_of(post, subscriptions@).contains(q) by {
                        if before.to_set().contains(q) {
                            let k = choose|k: int| 0 <= k < pre.len() && player_of(subscriptions@, #[trigger] pre[k].0) == Some(q);
                            assert(post[k] == pre[k]);
                        } else {
                            assert(q == p);
                            assert(post[i as int] == results@[i as int]);
                        }
                    }
                    assert forall|q: PlayerId| players_of(post, subscriptions@).contains(q) implies
                        players@.to_set().contains(q) by {
                        let k = choose|k: int| 0 <= k < post.len() && player_of(subscriptions@, #[trigger] post[k].0) == Some(q);
                        if k < i {
                            assert(pre[k] == post[k]);
                            assert(players_of(pre, subscriptions@).contains(q));
                            assert(before.to_set().contains(q));
                        } else {
                            assert(q == p);
                        }
                    }
                }
            }
            i = i + 1;
        }
        proof {
            assert(results@.subrange(0, results@.len() as int) =~= results@);
            players@.unique_seq_to_set();
        }
        stats
    }
}

/// The player of subscription `id`, from the last entry with that id.
fn lookup_player(subs: &Vec<(usize, PlayerId)>, id: usize) -> (r: Option<PlayerId>)
    ensures
        r == player_of(subs@, id),
{
    let mut i: usize = subs.len();
    proof { assert(subs@.subrange(0, subs@.len() as int) =~= subs@); }
    while i > 0
        invariant
            i <= subs@.len(),
            player_of(subs@, id) == player_of(subs@.subrange(0, i as int), id),
        decreases i,
    {
        let ghost sub = subs@.subrange(0, i as int);
        proof {
            assert(sub.drop_last() =~= subs@.subrange(0, i - 1));
        }
        if subs[i - 1].0 == id {
            return Some(subs[i - 1].1);
        }
        i = i - 1;
    }
    None
}

/// Is `p` among `players`?
fn contains_player(players: &Vec<PlayerId>, p: PlayerId) -> (r: bool)
    ensures
        r == players@.contains(p),
{
    let mut i: usize = 0;
    while i < players.len()
        invariant
            i <= players@.len(),
            forall|k: int| 0 <= k < i ==> players@[k] != p,
        decreases players@.len() - i,
    {
        if players[i].0 == p.0 {
            proof { assert(players@[i as int] == p); }
            return true;
        }
        i = i + 1;
    }
    false
}

/// A push subscription as the choice of recipients sees it: its id, its player,
/// and the kinds of notification it opted in to.
pub struct SubscriptionTarget {
    pub id: usize,
    pub player_id: PlayerId,
    pub opt_in: Vec<PushTypeKey>,
}

/// Does notification `p` go to subscription `s`? Test, announcement and
/// entries-open notifications go to every subscription opted in to their kind;
/// a countdown or a kyujyo alert only to those whose player is among `players`
/// (for a countdown the players short of five picks, for an alert those who
/// picked the rikishi); a day's result to the player's own subscriptions opted
/// in to day results.
pub open spec fn goes_to(p: PushType, s: SubscriptionTarget, players: Seq<PlayerId>) -> bool {
    match p {
        PushType::Test | PushType::Announcement(_) | PushType::EntriesOpen(_) => s.opt_in@.contains(p.spec_key()),
        PushType::BashoStartCountdown(_) | PushType::KyujyoAlert(_, _) => s.opt_in@.contains(p.spec_key())
            && players.contains(s.player_id),
        PushType::DayResult(_, player, _) => s.player_id == player && s.opt_in@.contains(PushTypeKey::DayResult),
        PushType::BashoResult(_, _) => false,
    }
}

/// Is `k` among `keys`?
fn has_key(keys: &Vec<PushTypeKey>, k: PushTypeKey) -> (r: bool)
    ensures
        r == keys@.contains(k),
{
    let mut i: usize = 0;
    while i < keys.len()
        invariant
            i <= keys@.len(),
            forall|j: int| 0 <= j < i ==> keys@[j] != k,
        decreases keys@.len() - i,
    {
        if keys[i] == k {
            proof { assert(keys@[i as int] == k); }
            return true;
        }
        i = i + 1;
    }
    false
}

impl PushType {
    /// The subscriptions this notification goes to, by position in `all`, in the
    /// order given; `players` as `goes_to` reads it.
    pub fn subscriptions(&self, all: &Vec<SubscriptionTarget>, players: &Vec<PlayerId>) -> (r: Vec<usize>)
        requires
            !(*self is BashoResult),
        ensures
            forall|k: int| 0 <= k < r@.len() ==> (#[trigger] r@[k]) < all@.len()
                && goes_to(*self, all@[r@[k] as int], players@),
            forall|a: int, b: int| 0 <= a < b < r@.len() ==> #[trigger] r@[a] < #[trigger] r@[b],
            forall|i: int| 0 <= i < all@.len() && goes_to(*self, #[trigger] all@[i], players@) ==> r@.contains(i as usize),
    {
        let key = self.key();
        let mut r: Vec<usize> = Vec::new();
        let mut i: usize = 0;
        while i < all.len()
            invariant
                i <= all@.len(),
                key == self.spec_key(),
                !(*self is BashoResult),
                forall|k: int| 0 <= k < r@.len() ==> (#[trigger] r@[k]) < i
                    && goes_to(*self, all@[r@[k] as int], players@),
                forall|a: int, b: int| 0 <= a < b < r@.len() ==> #[trigger] r@[a] < #[trigger] r@[b],
                forall|j: int| 0 <= j < i && goes_to(*self, #[trigger] all@[j], players@) ==> r@.contains(j as usize),
            decreases all@.len() - i,
        {
            let s = &all[i];
            let wanted = match self {
                PushType::Test | PushType::Announcement(_) | PushType::EntriesOpen(_) => has_key(&s.opt_in, key),
                PushType::BashoStartCountdown(_) | PushType::KyujyoAlert(_, _) => has_key(&s.opt_in, key)
                    && contains_player(players, s.player_id),
                PushType::DayResult(_, player, _) => s.player_id.0 == player.0
                    && has_key(&s.opt_in, PushTypeKey::DayResult),
                PushType::BashoResult(_, _) => false,
            };
            assert(wanted == goes_to(*self, all@[i as int], players@));
            if wanted {
                let ghost old_r = r@;
                r.push(i);
                proof {
                    assert forall|j: int| 0 <= j < i + 1 && goes_to(*self, #[trigger] all@[j], players@) implies r@.contains(
                        j as usize,
                    ) by {
                        if j == i {
                            assert(r@[r@.len() - 1] == i);
                        } else {
                            assert(old_r.contains(j as usize));
                            let w = choose|w: int| 0 <= w < old_r.len() && old_r[w] == j as usize;
                            assert(r@[w] == j as usize);
                        }
                    }
                }
            }
            i = i + 1;
        }
        r
    }
}

/// The page a notification opens, relative to the site's URL.
pub const PWA_PAGE: &'static str = "pwa";

impl PushType {
    /// The notification for the site at `base_url`: it leads to `pwa` joined to
    /// that URL; `None` where the url crate cannot join them.
    pub fn payload_for(&self, base_url: &str, facts: PayloadFacts) -> (r: Option<Payload>)
        requires
            self.facts_fit(facts),
        ensures
            match url_joined(base_url@, PWA_PAGE@) {
                Some(u) => r matches Some(p) && self.payload_ok(u, facts, p),
                None => r is None,
            },
    {
        match join_url(base_url, PWA_PAGE) {
            Some(url) => Some(self.build_payload(url, facts)),
            None => None,
        }
    }
}

} // verus!
