//! What the read-only query API decides: which records a query asks for, which
//! of them it keeps, and the errors it answers with.

use vstd::prelude::*;

use crate::basho_id::BashoId;
use crate::dates::ymd_date_parse;
use crate::player::PlayerId;
use crate::utf8_text::lit_string;

verus! {

/// The filter of the `players` query.
pub struct PlayerFilter {
    pub name: Option<String>,
    pub id: Option<PlayerId>,
    pub has_emperors_cup: Option<bool>,
    pub limit: Option<i32>,
}

/// The filter of the `bashos` query.
pub struct BashoFilter {
    pub id: Option<String>,
    pub completed_only: Option<bool>,
    pub limit: Option<i32>,
}

/// Where a `players` query takes its players from.
#[derive(Debug, PartialEq, Eq)]
pub enum PlayerSource {
    ById(PlayerId),
    ByName(String),
    All,
}

/// Where a `bashos` query takes its basho from.
#[derive(Debug, PartialEq, Eq, Structural)]
pub enum BashoSource {
    ById(BashoId),
    All,
}

/// Why a query was refused.
#[derive(Debug, PartialEq, Eq, Structural)]
pub enum QueryError {
    InvalidBashoId,
    PlayerNotFound,
    BashoNotFound,
}

impl QueryError {
    pub open spec fn text(self) -> Seq<char> {
        match self {
            QueryError::InvalidBashoId => "Invalid basho ID format"@,
            QueryError::PlayerNotFound => "Player not found"@,
            QueryError::BashoNotFound => "Basho not found"@,
        }
    }

    /// The message the query answers with.
    pub fn message(&self) -> (r: String)
        ensures
            r@ == self.text(),
    {
        match self {
            QueryError::InvalidBashoId => lit_string("Invalid basho ID format"),
            QueryError::PlayerNotFound => lit_string("Player not found"),
            QueryError::BashoNotFound => lit_string("Basho not found"),
        }
    }
}

/// A basho id given to a query: read as `BashoId::from_str` reads it.
pub fn basho_id_arg(s: &str) -> (r: Result<BashoId, QueryError>)
    ensures
        match ymd_date_parse(s@ + seq!['0', '1']) {
            Some(ym) => r == Ok::<BashoId, QueryError>(BashoId { year: ym.0 as u16, month: ym.1 as u8 }),
            None => r == Err::<BashoId, QueryError>(QueryError::InvalidBashoId),
        },
{
    match BashoId::from_str(s) {
        Ok(b) => Ok(b),
        Err(_) => Err(QueryError::InvalidBashoId),
    }
}

/// Where the players come from: the one with the id given, else the one with
/// the name given, else all of them.
pub fn player_source(filter: &Option<PlayerFilter>) -> (r: PlayerSource)
    ensures
        match filter {
            Some(f) => match (f.id, f.name) {
                (Some(id), _) => r == PlayerSource::ById(id),
                (None, Some(n)) => r matches PlayerSource::ByName(m) && m@ == n@,
                (None, None) => r == PlayerSource::All,
            },
            None => r == PlayerSource::All,
        },
{
    match filter {
        Some(f) => match f.id {
            Some(id) => PlayerSource::ById(id),
            None => match &f.name {
                Some(n) => PlayerSource::ByName(n.clone()),
                None => PlayerSource::All,
            },
        },
        None => PlayerSource::All,
    }
}

/// Where the basho come from: the one with the id given (refused where the id
/// does not read), else all of them.
pub fn basho_source(filter: &Option<BashoFilter>) -> (r: Result<BashoSource, QueryError>)
    ensures
        match filter {
            Some(f) => match f.id {
                Some(s) => match ymd_date_parse(s@ + seq!['0', '1']) {
                    Some(ym) => r == Ok::<BashoSource, QueryError>(
                        BashoSource::ById(BashoId { year: ym.0 as u16, month: ym.1 as u8 })),
                    None => r == Err::<BashoSource, QueryError>(QueryError::InvalidBashoId),
                },
                None => r == Ok::<BashoSource, QueryError>(BashoSource::All),
            },
            None => r == Ok::<BashoSource, QueryError>(BashoSource::All),
        },
{
    match filter {
        Some(f) => match &f.id {
            Some(s) => match basho_id_arg(s.as_str()) {
                Ok(b) => Ok(BashoSource::ById(b)),
                Err(e) => Err(e),
            },
            None => Ok(BashoSource::All),
        },
        None => Ok(BashoSource::All),
    }
}

/// How many of `len` results a limit keeps: `Vec::truncate` to the limit read as
/// a `usize`, so a negative limit keeps them all.
pub open spec fn limited(len: int, limit: Option<i32>) -> int {
    match limit {
        Some(l) => if 0 <= l < len { l as int } else { len },
        None => len,
    }
}

/// How many of `len` results a limit keeps.
pub fn limited_len(len: usize, limit: Option<i32>) -> (n: usize)
    ensures
        n == limited(len as int, limit),
{
    match limit {
        Some(l) => if 0 <= l && (l as usize) < len { l as usize } else { len },
        None => len,
    }
}

/// Does a player with `cups` Emperor's Cups pass the filter's cup test?
pub open spec fn cup_test(filter: Option<PlayerFilter>, cups: i32) -> bool {
    match filter {
        Some(f) => match f.has_emperors_cup {
            Some(want) => (cups > 0) == want,
            None => true,
        },
        None => true,
    }
}

/// The cup test as a test of positions among players with `cups` cups.
pub open spec fn cup_pred(filter: Option<PlayerFilter>, cups: Seq<i32>) -> spec_fn(int) -> bool {
    |i: int| cup_test(filter, cups[i])
}

/// The positions, in order, of the players that pass the cup test.
pub open spec fn cup_kept(filter: Option<PlayerFilter>, cups: Seq<i32>) -> Seq<int> {
    Seq::new(cups.len(), |i: int| i).filter(cup_pred(filter, cups))
}

/// The limit of an optional filter.
pub open spec fn player_limit(filter: Option<PlayerFilter>) -> Option<i32> {
    match filter {
        Some(f) => f.limit,
        None => None,
    }
}

/// The players a `players` query answers with, by position among the players
/// found (each given by his number of Emperor's Cups): those that pass the cup
/// test, in order, cut to the limit.
pub fn players_shown(cups: &Vec<i32>, filter: &Option<PlayerFilter>) -> (r: Vec<usize>)
    ensures
        r@.len() == limited(cup_kept(*filter, cups@).len() as int, player_limit(*filter)),
        forall|k: int| 0 <= k < r@.len() ==> r@[k] as int == #[trigger] cup_kept(*filter, cups@)[k],
{
    let ghost all = Seq::new(cups@.len(), |i: int| i);
    let ghost pred = cup_pred(*filter, cups@);
    let mut kept: Vec<usize> = Vec::new();
    let mut i: usize = 0;
    while i < cups.len()
        invariant
            i <= cups@.len(),
            all == Seq::new(cups@.len(), |i: int| i),
            pred == cup_pred(*filter, cups@),
            kept@.len() == all.take(i as int).filter(pred).len(),
            forall|k: int| 0 <= k < kept@.len() ==> kept@[k] as int == #[trigger] all.take(i as int).filter(pred)[k],
        decreases cups@.len() - i,
    {
        proof {
            assert(all.take(i + 1).drop_last() =~= all.take(i as int));
            reveal(Seq::filter);
        }
        let pass = match filter {
            Some(f) => match f.has_emperors_cup {
                Some(want) => (cups[i] > 0) == want,
                None => true,
            },
            None => true,
        };
        if pass {
            kept.push(i);
        }
        proof {
            assert(all.take(i + 1).last() == i as int);
        }
        i = i + 1;
    }
    proof {
        assert(all.take(cups@.len() as int) =~= all);
    }
    let limit = match filter {
        Some(f) => f.limit,
        None => None,
    };
    let n = limited_len(kept.len(), limit);
    kept.truncate(n);
    kept
}

/// The place shown for the player at `index` of the leaderboard: one more than
/// the index, as a `u16` (wrapping as `as` does).
pub fn leaderboard_place(index: usize) -> (r: u16)
    requires
        index < usize::MAX,
    ensures
        r == (index + 1) % 65536,
{
    ((index + 1) % 65536) as u16
}

/// The first of a player's basho scores (given by their basho) that is of basho `b`.
pub fn score_of_basho(bashos: &Vec<BashoId>, b: BashoId) -> (r: Option<usize>)
    ensures
        match r {
            Some(i) => i < bashos@.len() && bashos@[i as int] == b
                && forall|j: int| 0 <= j < i ==> bashos@[j] != b,
            None => forall|j: int| 0 <= j < bashos@.len() ==> bashos@[j] != b,
        },
{
    let mut i: usize = 0;
    while i < bashos.len()
        invariant
            i <= bashos@.len(),
            forall|j: int| 0 <= j < i ==> bashos@[j] != b,
        decreases bashos@.len() - i,
    {
        if bashos[i].year == b.year && bashos[i].month == b.month {
            return Some(i);
        }
        i = i + 1;
    }
    None
}

/// The first place among the first `n` of `s` that holds `b`.
pub open spec fn first_index_of(s: Seq<BashoId>, b: BashoId, n: int) -> Option<int>
    decreases n,
{
    if n <= 0 {
        None
    } else {
        match first_index_of(s, b, n - 1) {
            Some(i) => Some(i),
            None => if s[n - 1] == b { Some(n - 1) } else { None },
        }
    }
}

/// `first_index_of` finds the first place that holds `b`, and none where there is none.
proof fn lemma_first_index_of(s: Seq<BashoId>, b: BashoId, n: int)
    requires
        0 <= n <= s.len(),
    ensures
        match first_index_of(s, b, n) {
            Some(i) => 0 <= i < n && s[i] == b && forall|j: int| 0 <= j < i ==> s[j] != b,
            None => forall|j: int| 0 <= j < n ==> s[j] != b,
        },
    decreases n,
{
    if n > 0 {
        lemma_first_index_of(s, b, n - 1);
    }
}

/// The scores of the first `n` players that are of basho `b`: for each such
/// player, in order, his position and the first place of `b` in his scores.
pub open spec fn scores_found(lists: Seq<Vec<BashoId>>, b: BashoId, n: int) -> Seq<(usize, usize)>
    decreases n,
{
    if n <= 0 {
        seq![]
    } else {
        let prev = scores_found(lists, b, n - 1);
        match first_index_of(lists[n - 1]@, b, lists[n - 1]@.len() as int) {
            Some(j) => prev.push(((n - 1) as usize, j as usize)),
            None => prev,
        }
    }
}

/// The answer of the `playerScores` query, from what the database gave: whether
/// the player asked for was found (`None` where all players are asked for), the
/// basho of each player's scores (one list for the player asked for), the basho
/// asked for and whether it was found. A player not found is refused, then a
/// basho not found; otherwise each player with a score of the basho gives his
/// position and the place of his first score of it, in order.
pub fn player_scores_answer(
    player_found: Option<bool>,
    score_bashos: &Vec<Vec<BashoId>>,
    basho: BashoId,
    basho_found: bool,
) -> (r: Result<Vec<(usize, usize)>, QueryError>)
    ensures
        player_found == Some(false) ==> r == Err::<Vec<(usize, usize)>, QueryError>(QueryError::PlayerNotFound),
        player_found != Some(false) && !basho_found
            ==> r == Err::<Vec<(usize, usize)>, QueryError>(QueryError::BashoNotFound),
        player_found != Some(false) && basho_found ==> (r matches Ok(v)
            && v@ == scores_found(score_bashos@, basho, score_bashos@.len() as int)),
{
    match player_found {
        Some(false) => return Err(QueryError::PlayerNotFound),
        _ => {},
    }
    if !basho_found {
        return Err(QueryError::BashoNotFound);
    }
    let mut v: Vec<(usize, usize)> = Vec::new();
    let mut k: usize = 0;
    while k < score_bashos.len()
        invariant
            k <= score_bashos@.len(),
            v@ == scores_found(score_bashos@, basho, k as int),
        decreases score_bashos@.len() - k,
    {
        let found = score_of_basho(&score_bashos[k], basho);
        proof {
            lemma_first_index_of(score_bashos@[k as int]@, basho, score_bashos@[k as int]@.len() as int);
        }
        match found {
            Some(j) => {
                v.push((k, j));
            },
            None => {},
        }
        k = k + 1;
    }
    Ok(v)
}

/// Does a basho (completed or not) pass the filter's completed-only test?
pub open spec fn completed_test(filter: Option<BashoFilter>, completed: bool) -> bool {
    match filter {
        Some(f) => match f.completed_only {
            Some(true) => completed,
            _ => true,
        },
        None => true,
    }
}

/// The completed-only test as a test of positions among basho.
pub open spec fn completed_pred(filter: Option<BashoFilter>, completed: Seq<bool>) -> spec_fn(int) -> bool {
    |i: int| completed_test(filter, completed[i])
}

/// The positions, in order, of the basho that pass the completed-only test.
pub open spec fn completed_kept(filter: Option<BashoFilter>, completed: Seq<bool>) -> Seq<int> {
    Seq::new(completed.len(), |i: int| i).filter(completed_pred(filter, completed))
}

/// The limit of an optional basho filter.
pub open spec fn basho_limit(filter: Option<BashoFilter>) -> Option<i32> {
    match filter {
        Some(f) => f.limit,
        None => None,
    }
}

/// The basho a `bashos` query answers with, by position among the basho found
/// (each given by whether it is completed): with `completedOnly` only the
/// completed ones, in order, cut to the limit.
pub fn bashos_shown(completed: &Vec<bool>, filter: &Option<BashoFilter>) -> (r: Vec<usize>)
    ensures
        r@.len() == limited(completed_kept(*filter, completed@).len() as int, basho_limit(*filter)),
        forall|k: int| 0 <= k < r@.len() ==> r@[k] as int == #[trigger] completed_kept(*filter, completed@)[k],
{
    let ghost all = Seq::new(completed@.len(), |i: int| i);
    let ghost pred = completed_pred(*filter, completed@);
    let mut kept: Vec<usize> = Vec::new();
    let mut i: usize = 0;
    while i < completed.len()
        invariant
            i <= completed@.len(),
            all == Seq::new(completed@.len(), |i: int| i),
            pred == completed_pred(*filter, completed@),
            kept@.len() == all.take(i as int).filter(pred).len(),
            forall|k: int| 0 <= k < kept@.len() ==> kept@[k] as int == #[trigger] all.take(i as int).filter(pred)[k],
        decreases completed@.len() - i,
    {
        proof {
            assert(all.take(i + 1).drop_last() =~= all.take(i as int));
            reveal(Seq::filter);
        }
        let pass = match filter {
            Some(f) => match f.completed_only {
                Some(true) => completed[i],
                _ => true,
            },
            None => true,
        };
        if pass {
            kept.push(i);
        }
        proof {
            assert(all.take(i + 1).last() == i as int);
        }
        i = i + 1;
    }
    proof {
        assert(all.take(completed@.len() as int) =~= all);
    }
    let limit = match filter {
        Some(f) => f.limit,
        None => None,
    };
    let n = limited_len(kept.len(), limit);
    kept.truncate(n);
    kept
}

} // verus!
