//! What the web pages decide from their requests: which leaders to show, which
//! picks a form makes, where a login goes next, and the like.

use vstd::prelude::*;

use crate::basho::{BashoRikishiByRank, RikishiId, opt_next_day};
use crate::basho_id::{BashoId, BashoRange};
use crate::rank::RankGroup;
use crate::utf8_text::lit_string;

verus! {

/// The query of the basho page: `all` asks for every player.
pub struct BashoQuery {
    pub all: Option<bool>,
}

/// The picks form of the basho page: one rikishi, or none, per rank group.
pub struct SavePicksFormData {
    pub rank_group_1: Option<RikishiId>,
    pub rank_group_2: Option<RikishiId>,
    pub rank_group_3: Option<RikishiId>,
    pub rank_group_4: Option<RikishiId>,
    pub rank_group_5: Option<RikishiId>,
}

impl SavePicksFormData {
    /// The picks in rank-group order.
    pub fn picks(&self) -> (r: [Option<RikishiId>; 5])
        ensures
            r@ == seq![self.rank_group_1, self.rank_group_2, self.rank_group_3, self.rank_group_4, self.rank_group_5],
    {
        let r = [self.rank_group_1, self.rank_group_2, self.rank_group_3, self.rank_group_4, self.rank_group_5];
        assert(r@ =~= seq![self.rank_group_1, self.rank_group_2, self.rank_group_3, self.rank_group_4, self.rank_group_5]);
        r
    }
}

/// The query of the stats page: `b` is how many basho the leaders are counted over.
pub struct QueryParams {
    pub b: Option<usize>,
}

/// The query an OAuth provider redirects back with.
pub struct OAuthRedirectQuery {
    pub code: String,
    pub state: String,
}

/// The form that creates a heya.
pub struct CreateHeyaData {
    pub name: String,
}

/// The `User-Agent` a request came with.
pub struct UserAgent(pub String);

impl UserAgent {
    /// The agent given by a header value.
    pub fn from_value(value: &str) -> (r: UserAgent)
        ensures
            r.0@ == value@,
    {
        UserAgent(lit_string(value))
    }

    /// The agent text.
    pub fn to_string(&self) -> (r: String)
        ensures
            r@ == self.0@,
    {
        self.0.clone()
    }
}

impl Default for UserAgent {
    /// The agent of a request without the header.
    fn default() -> (r: UserAgent)
        ensures
            r.0@ == "unknown user agent"@,
    {
        UserAgent(lit_string("unknown user agent"))
    }
}

/// How many leaders the basho page lists: all before the basho starts or when
/// asked for, 3 in development and 100 otherwise.
pub fn leader_limit(has_started: bool, show_all: Option<bool>, is_dev: bool) -> (n: usize)
    ensures
        n == if !has_started || show_all == Some(true) {
            1000000usize
        } else if is_dev {
            3usize
        } else {
            100usize
        },
{
    let all = match show_all {
        Some(a) => a,
        None => false,
    };
    if !has_started || all {
        1000000
    } else if is_dev {
        3
    } else {
        100
    }
}

/// The latest next day of the first `n` lines, or 1.
pub open spec fn lines_next_day(lines: Seq<BashoRikishiByRank>, n: int) -> int
    decreases n,
{
    if n <= 0 {
        1
    } else {
        let before = lines_next_day(lines, n - 1);
        let d = line_next_day(lines[n - 1]);
        if d > before { d } else { before }
    }
}

/// A line's next day: the later of its two rikishi's.
pub open spec fn line_next_day(line: BashoRikishiByRank) -> int {
    if opt_next_day(line.east) >= opt_next_day(line.west) {
        opt_next_day(line.east)
    } else {
        opt_next_day(line.west)
    }
}

/// The day the basho page opens on: the latest next day of its lines, 1 when
/// there are none.
pub fn table_next_day(lines: &Vec<BashoRikishiByRank>) -> (d: u8)
    ensures
        d == lines_next_day(lines@, lines@.len() as int),
{
    let mut d: u8 = 1;
    let mut i: usize = 0;
    while i < lines.len()
        invariant
            i <= lines@.len(),
            d == lines_next_day(lines@, i as int),
        decreases lines@.len() - i,
    {
        let n = lines[i].next_day();
        if n > d {
            d = n;
        }
        i = i + 1;
    }
    d
}

/// Can the player start picking at once: the basho has not started, a player is
/// logged in and fewer picks are made than there are rank groups?
pub fn initially_selectable(has_started: bool, logged_in: bool, picks_made: usize) -> (r: bool)
    ensures
        r == (!has_started && logged_in && picks_made < 5),
{
    !has_started && logged_in && picks_made < RankGroup::count()
}

/// The place of the logged-in player among the first `n` leaders, given as
/// (place when a ranked player, is the logged-in player).
pub open spec fn find_self_rank(leaders: Seq<(Option<usize>, bool)>, n: int) -> Option<usize>
    decreases n,
{
    if n <= 0 {
        None
    } else {
        match find_self_rank(leaders, n - 1) {
            Some(r) => Some(r),
            None => if leaders[n - 1].1 && leaders[n - 1].0 is Some { leaders[n - 1].0 } else { None },
        }
    }
}

/// The logged-in player's place, once the basho has started: that of the first
/// ranked leader who is that player.
pub fn self_rank(has_started: bool, leaders: &Vec<(Option<usize>, bool)>) -> (r: Option<usize>)
    ensures
        r == if has_started { find_self_rank(leaders@, leaders@.len() as int) } else { None },
{
    if !has_started {
        return None;
    }
    let mut i: usize = 0;
    while i < leaders.len()
        invariant
            has_started,
            i <= leaders@.len(),
            find_self_rank(leaders@, i as int) is None,
        decreases leaders@.len() - i,
    {
        let (place, is_self) = leaders[i];
        if is_self && place.is_some() {
            assert(leaders@[i as int].0 == place && leaders@[i as int].1 == is_self);
            assert(find_self_rank(leaders@, i as int + 1) == place);
            proof { lemma_self_rank_stays(leaders@, i as int + 1, leaders@.len() as int); }
            return place;
        }
        i = i + 1;
    }
    None
}

/// Once the player is found, later leaders do not change the answer.
proof fn lemma_self_rank_stays(leaders: Seq<(Option<usize>, bool)>, m: int, n: int)
    requires
        0 <= m <= n,
        find_self_rank(leaders, m) is Some,
    ensures
        find_self_rank(leaders, n) == find_self_rank(leaders, m),
    decreases n - m,
{
    if m < n {
        lemma_self_rank_stays(leaders, m, n - 1);
    }
}

/// The basho that the stats page counts leaders over: the `n` basho up to the
/// latest one with winners (up to and including it), or 2019 when there is none.
pub fn n_completed_basho(latest: Option<(BashoId, bool)>, n: usize) -> (r: BashoRange)
    requires
        latest matches Some((id, has_winners)) ==> {
            &&& (has_winners ==> id.incr_ok(1))
            &&& (if has_winners { id.spec_incr(1) } else { id }).incr_ok(-(n as int))
            &&& -(n as int) >= isize::MIN
        },
    ensures
        match latest {
            None => r.start == (BashoId { year: 2019, month: 1 }) && r.end == (BashoId { year: 2020, month: 1 }),
            Some((id, has_winners)) => {
                let end = if has_winners { id.spec_incr(1) } else { id };
                r.end == end && r.start == end.spec_incr(-(n as int))
            },
        },
{
    match latest {
        None => BashoRange { start: BashoId { year: 2019, month: 1 }, end: BashoId { year: 2020, month: 1 } },
        Some((id, has_winners)) => {
            let end = if has_winners { id.incr(1) } else { id };
            BashoRange { start: end.incr(-(n as isize)), end }
        },
    }
}

/// The other counts of basho that the stats page offers, from 6, 3 and 2.
pub fn other_count_options(current: usize) -> (r: Vec<usize>)
    ensures
        r@ == seq![6usize, 3, 2].filter(|c: usize| c != current),
{
    let options: [usize; 3] = [6, 3, 2];
    let mut r: Vec<usize> = Vec::new();
    let mut i: usize = 0;
    while i < 3
        invariant
            i <= 3,
            options@ == seq![6usize, 3, 2],
            r@ == options@.take(i as int).filter(|c: usize| c != current),
        decreases 3 - i,
    {
        proof {
            reveal(Seq::filter);
            assert(options@.take(i + 1).drop_last() =~= options@.take(i as int));
        }
        if options[i] != current {
            r.push(options[i]);
        }
        i = i + 1;
    }
    proof {
        assert(options@.take(3) =~= options@);
    }
    r
}

/// Does the state an OAuth provider returned match the one kept in the session?
pub fn csrf_matches(session_state: Option<&str>, returned_state: &str) -> (r: bool)
    ensures
        r == (session_state matches Some(s) && s@ == returned_state@),
{
    match session_state {
        Some(s) => lit_string(s) == lit_string(returned_state),
        None => false,
    }
}

/// Where a login goes on: a new player to the settings, others home.
pub fn login_redirect_target(is_new: bool) -> (r: &'static str)
    ensures
        r@ == if is_new { "/settings"@ } else { "/"@ },
{
    if is_new { "/settings" } else { "/" }
}

/// The API's root query.
pub struct Query;

impl Query {
    /// The version of the API.
    pub fn api_version() -> (r: &'static str)
        ensures
            r@ == "1.0"@,
    {
        "1.0"
    }
}

/// What went wrong in a page handler, as far as the response tells it.
#[derive(Debug)]
pub enum HandlerErrorKind {
    NotFound(String),
    MustBeLoggedIn,
    ExternalServiceError,
    DatabaseError,
    CsrfError,
    Failure,
}

impl HandlerErrorKind {
    /// The HTTP status of the response: not found, forbidden, or a server error.
    pub fn status(&self) -> (r: u16)
        ensures
            r == match self {
                HandlerErrorKind::NotFound(_) => 404u16,
                HandlerErrorKind::MustBeLoggedIn | HandlerErrorKind::CsrfError => 403u16,
                _ => 500u16,
            },
    {
        match self {
            HandlerErrorKind::NotFound(_) => 404,
            HandlerErrorKind::MustBeLoggedIn | HandlerErrorKind::CsrfError => 403,
            _ => 500,
        }
    }

    /// The plain-text body of the response.
    pub fn message(&self) -> (r: String)
        ensures
            r@ == match self {
                HandlerErrorKind::NotFound(thing) => thing@ + " not found"@,
                HandlerErrorKind::MustBeLoggedIn => "Must be logged in"@,
                HandlerErrorKind::ExternalServiceError => "External service error"@,
                HandlerErrorKind::DatabaseError => "Database error"@,
                HandlerErrorKind::CsrfError => "CRSF error"@,
                HandlerErrorKind::Failure => "Unexpected failure"@,
            },
    {
        match self {
            HandlerErrorKind::NotFound(thing) => {
                let mut s = thing.clone();
                s.append(" not found");
                s
            },
            HandlerErrorKind::MustBeLoggedIn => lit_string("Must be logged in"),
            HandlerErrorKind::ExternalServiceError => lit_string("External service error"),
            HandlerErrorKind::DatabaseError => lit_string("Database error"),
            HandlerErrorKind::CsrfError => lit_string("CRSF error"),
            HandlerErrorKind::Failure => lit_string("Unexpected failure"),
        }
    }
}

/// May the player see the admin pages? Only a logged-in player with an admin level.
pub fn admin_allowed(admin_level: Option<i32>) -> (r: bool)
    ensures
        r == (admin_level matches Some(l) && l > 0),
{
    match admin_level {
        Some(l) => l > 0,
        None => false,
    }
}

} // verus!
