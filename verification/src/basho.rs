//! The rikishi of a basho and their daily results, and the rules that picks and
//! bouts follow.

use vstd::prelude::*;
use itertools::Itertools;

use crate::rank::{Rank, RankGroup, RankSide};
use crate::utf8_text::lit_string;

verus! {

/// The id of a rikishi.
pub type RikishiId = u32;

/// A day of a basho, 1 to 15.
pub type Day = u8;

/// One bout of a day: who won and who lost, by family name.
#[derive(Debug, PartialEq, Eq)]
pub struct TorikumiMatchUpdateData {
    pub winner: String,
    pub loser: String,
}

impl View for TorikumiMatchUpdateData {
    type V = (Seq<char>, Seq<char>);

    open spec fn view(&self) -> (Seq<char>, Seq<char>) {
        (self.winner@, self.loser@)
    }
}

/// A rikishi of a basho, with a result for each of the fifteen days.
pub struct BashoRikishi {
    pub id: RikishiId,
    pub name: String,
    pub rank: Rank,
    pub results: [Option<bool>; 15],
    pub wins: u8,
    pub losses: u8,
    pub picks: u16,
    pub is_player_pick: bool,
    pub is_kyujyo: bool,
}

/// The day after the last day with a result among the first `k` days, or 1.
pub open spec fn next_day_after(results: Seq<Option<bool>>, k: int) -> int
    decreases k,
{
    if k <= 0 {
        1
    } else if results[k - 1] is Some {
        k + 1
    } else {
        next_day_after(results, k - 1)
    }
}

impl BashoRikishi {
    /// The day after the last day this rikishi has a result for, or 1.
    pub open spec fn spec_next_day(&self) -> int {
        next_day_after(self.results@, 15)
    }

    /// The day after the last day this rikishi has a result for, or 1.
    pub fn next_day(&self) -> (d: u8)
        ensures
            d == self.spec_next_day(),
            1 <= d <= 16,
    {
        let mut i: usize = 15;
        while i > 0
            invariant
                i <= 15,
                next_day_after(self.results@, i as int) == self.spec_next_day(),
            decreases i,
        {
            if self.results[i - 1].is_some() {
                return (i + 1) as u8;
            }
            i = i - 1;
        }
        1
    }

    /// The results in three chunks of five days.
    pub fn result_chunks(&self) -> (r: Vec<&[Option<bool>]>)
        ensures
            r@.len() == 3,
            forall|c: int| 0 <= c < 3 ==> (#[trigger] r@[c])@ == self.results@.subrange(5 * c, 5 * c + 5),
    {
        let all = vstd::array::array_as_slice(&self.results);
        let mut r: Vec<&[Option<bool>]> = Vec::new();
        r.push(vstd::slice::slice_subrange(all, 0, 5));
        r.push(vstd::slice::slice_subrange(all, 5, 10));
        r.push(vstd::slice::slice_subrange(all, 10, 15));
        r
    }

    /// A copy of this rikishi.
    pub fn duplicate(&self) -> (r: BashoRikishi)
        ensures
            r.id == self.id,
            r.name@ == self.name@,
            r.rank == self.rank,
            r.results@ == self.results@,
            r.wins == self.wins,
            r.losses == self.losses,
            r.picks == self.picks,
            r.is_player_pick == self.is_player_pick,
            r.is_kyujyo == self.is_kyujyo,
    {
        BashoRikishi {
            id: self.id,
            name: self.name.clone(),
            rank: self.rank,
            results: self.results,
            wins: self.wins,
            losses: self.losses,
            picks: self.picks,
            is_player_pick: self.is_player_pick,
            is_kyujyo: self.is_kyujyo,
        }
    }
}

/// The two rikishi of one rank on the banzuke, or a boundary between rank groups.
pub struct BashoRikishiByRank {
    pub rank: String,
    pub rank_group: RankGroup,
    pub east: Option<BashoRikishi>,
    pub west: Option<BashoRikishi>,
}

/// The next day of an optional rikishi, 1 when there is none.
pub open spec fn opt_next_day(r: Option<BashoRikishi>) -> int {
    match r {
        Some(r) => r.spec_next_day(),
        None => 1,
    }
}

impl BashoRikishiByRank {
    /// A row that marks the boundary between two rank groups.
    pub fn make_boundary() -> (r: Self)
        ensures
            r.rank@ == seq!['b', 'o', 'u', 'n', 'd', 'a', 'r', 'y'],
            r.rank_group == RankGroup(255),
            r.east is None,
            r.west is None,
    {
        proof { reveal_strlit("boundary"); }
        Self { rank: lit_string("boundary"), rank_group: RankGroup(255), east: None, west: None }
    }

    /// The later of the two rikishi's next days.
    pub fn next_day(&self) -> (d: u8)
        ensures
            d == if opt_next_day(self.east) >= opt_next_day(self.west) {
                opt_next_day(self.east)
            } else {
                opt_next_day(self.west)
            },
    {
        let e = match &self.east {
            Some(r) => r.next_day(),
            None => 1,
        };
        let w = match &self.west {
            Some(r) => r.next_day(),
            None => 1,
        };
        if e >= w { e } else { w }
    }
}

/// The sides two rikishi fight from, winner first: the higher-ranked rikishi fights
/// from his own side and the other from the opposite one.
pub open spec fn spec_torikumi_sides(winner: Rank, loser: Rank) -> (RankSide, RankSide) {
    (
        if winner.spec_lt(loser) { winner.side } else { loser.side.spec_other() },
        if loser.spec_lt(winner) { loser.side } else { winner.side.spec_other() },
    )
}

/// The sides of a bout's winner and loser, from their ranks.
pub fn torikumi_sides(winner_rank: Rank, loser_rank: Rank) -> (r: (RankSide, RankSide))
    ensures
        r == spec_torikumi_sides(winner_rank, loser_rank),
{
    let winner_side = if winner_rank.is_above(&loser_rank) {
        winner_rank.side
    } else {
        loser_rank.side.other()
    };
    let loser_side = if loser_rank.is_above(&winner_rank) {
        loser_rank.side
    } else {
        winner_rank.side.other()
    };
    (winner_side, loser_side)
}

/// The two rikishi of a bout fight from opposite sides, whenever their ranks differ.
pub proof fn lemma_bout_sides_opposite(winner: Rank, loser: Rank)
    requires
        winner != loser,
    ensures
        spec_torikumi_sides(winner, loser).0 != spec_torikumi_sides(winner, loser).1,
{
    crate::rank::lemma_rank_order_total(winner, loser, winner);
}

/// A rikishi on the banzuke of a basho, as the database lists him.
pub struct BanzukeEntry {
    pub rikishi_id: RikishiId,
    pub family_name: String,
    pub rank: Rank,
}

/// One row of the torikumi table: the side a rikishi fought from on a day, in bout
/// order `seq`, and whether he won.
#[derive(Debug, PartialEq, Eq, Structural, Clone, Copy)]
pub struct TorikumiRow {
    pub seq: u32,
    pub side: RankSide,
    pub rikishi_id: RikishiId,
    pub win: bool,
}

/// Why family names from outside could not be matched to the rikishi on record.
#[derive(Debug)]
pub enum ShikonaError {
    /// Several rikishi of the banzuke share these family names.
    AmbiguousShikona { family_names: Vec<String> },
    /// No rikishi of the banzuke has this family name.
    RikishiNotFound { family_name: String },
}

/// A rikishi on record whose family name appears on a new banzuke.
pub struct KnownRikishi {
    pub id: i64,
    pub family_name: String,
    pub given_name: String,
}

/// What to write for one rikishi of a new banzuke: the rikishi on record with his
/// family name and that rikishi's given name, or, where there is none, a new
/// rikishi (`rikishi_id` is `None`) with an empty given name.
#[derive(Debug)]
pub struct BanzukeRowPlan {
    pub rikishi_id: Option<i64>,
    pub given_name: String,
}

/// The last of the first `n` rikishi on record with family name `name`.
pub open spec fn known_named(known: Seq<KnownRikishi>, name: Seq<char>, n: int) -> Option<int>
    decreases n,
{
    if n <= 0 {
        None
    } else if known[n - 1].family_name@ == name {
        Some(n - 1)
    } else {
        known_named(known, name, n - 1)
    }
}

/// The last rikishi on record with id `id`.
pub open spec fn known_with_id(known: Seq<KnownRikishi>, id: i64, n: int) -> Option<int>
    decreases n,
{
    if n <= 0 {
        None
    } else if known[n - 1].id == id {
        Some(n - 1)
    } else {
        known_with_id(known, id, n - 1)
    }
}

/// The family names of the rikishi on record that repeat an earlier one's, in order.
pub open spec fn repeated_known(known: Seq<KnownRikishi>, n: int) -> Seq<Seq<char>>
    decreases n,
{
    if n <= 0 {
        seq![]
    } else if known_named(known, known[n - 1].family_name@, n - 1) is Some {
        repeated_known(known, n - 1).push(known[n - 1].family_name@)
    } else {
        repeated_known(known, n - 1)
    }
}

/// Is `p` what to write for a banzuke rikishi with family name `name`?
pub open spec fn row_plan_ok(p: BanzukeRowPlan, known: Seq<KnownRikishi>, name: Seq<char>) -> bool {
    match known_named(known, name, known.len() as int) {
        Some(i) => {
            &&& p.rikishi_id == Some(known[i].id)
            &&& known_with_id(known, known[i].id, known.len() as int) matches Some(j)
            &&& p.given_name@ == known[j].given_name@
        },
        None => p.rikishi_id is None && p.given_name@ == Seq::<char>::empty(),
    }
}

/// What `known_named` and `known_with_id` find lies among the rikishi searched.
proof fn lemma_known_below(known: Seq<KnownRikishi>, name: Seq<char>, id: i64, n: int)
    ensures
        known_named(known, name, n) matches Some(i) ==> 0 <= i < n && known[i].family_name@ == name,
        known_with_id(known, id, n) matches Some(i) ==> 0 <= i < n && known[i].id == id,
    decreases n,
{
    if n > 0 {
        lemma_known_below(known, name, id, n - 1);
    }
}

/// A rikishi on record with id `id` among the first `n` is found by id.
proof fn lemma_known_id_found(known: Seq<KnownRikishi>, id: i64, p: int, n: int)
    requires
        0 <= p < n,
        known[p].id == id,
    ensures
        known_with_id(known, id, n) is Some,
    decreases n,
{
    if n - 1 != p && known[n - 1].id != id {
        lemma_known_id_found(known, id, p, n - 1);
    }
}

/// The position of the last rikishi on record named `name` among the first `n`.
fn find_known(known: &Vec<KnownRikishi>, name: &String, n: usize) -> (r: Option<usize>)
    requires
        n <= known@.len(),
    ensures
        r == (match known_named(known@, name@, n as int) {
            Some(i) => Some(i as usize),
            None => None,
        }),
        known_named(known@, name@, n as int) matches Some(i) ==> 0 <= i < n,
{
    proof { lemma_known_below(known@, name@, 0, n as int); }
    let mut i = n;
    while i > 0
        invariant
            i <= n <= known@.len(),
            known_named(known@, name@, n as int) == known_named(known@, name@, i as int),
        decreases i,
    {
        if known[i - 1].family_name == *name {
            return Some(i - 1);
        }
        i = i - 1;
    }
    None
}

/// The position of the last rikishi on record with id `id`.
fn find_known_id(known: &Vec<KnownRikishi>, id: i64) -> (r: Option<usize>)
    ensures
        r == (match known_with_id(known@, id, known@.len() as int) {
            Some(i) => Some(i as usize),
            None => None,
        }),
        known_with_id(known@, id, known@.len() as int) matches Some(i) ==> 0 <= i < known@.len(),
{
    proof { lemma_known_below(known@, Seq::empty(), id, known@.len() as int); }
    let mut i = known.len();
    while i > 0
        invariant
            i <= known@.len(),
            known_with_id(known@, id, known@.len() as int) == known_with_id(known@, id, i as int),
        decreases i,
    {
        if known[i - 1].id == id {
            return Some(i - 1);
        }
        i = i - 1;
    }
    None
}

/// What to write for each rikishi of a new banzuke, given the rikishi on record
/// whose family names appear on it. Two rikishi on record with one family name
/// make the update fail with those names.
pub fn plan_basho_update(known: &Vec<KnownRikishi>, banzuke: &Vec<(String, Rank, bool)>)
    -> (r: Result<Vec<BanzukeRowPlan>, ShikonaError>)
    ensures
        repeated_known(known@, known@.len() as int).len() > 0 ==> {
            &&& r matches Err(ShikonaError::AmbiguousShikona { family_names })
            &&& family_names@.map_values(|s: String| s@) == repeated_known(known@, known@.len() as int)
        },
        repeated_known(known@, known@.len() as int).len() == 0 ==> {
            &&& r matches Ok(plans)
            &&& plans@.len() == banzuke@.len()
            &&& forall|i: int| 0 <= i < banzuke@.len() ==> row_plan_ok(#[trigger] plans@[i], known@, banzuke@[i].0@)
        },
{
    let mut repeated: Vec<String> = Vec::new();
    let mut k: usize = 0;
    while k < known.len()
        invariant
            k <= known@.len(),
            repeated@.map_values(|s: String| s@) == repeated_known(known@, k as int),
        decreases known@.len() - k,
    {
        if find_known(known, &known[k].family_name, k).is_some() {
            repeated.push(known[k].family_name.clone());
            proof {
                assert(repeated@.map_values(|s: String| s@) =~= repeated_known(known@, k + 1));
            }
        }
        k = k + 1;
    }
    if repeated.len() > 0 {
        return Err(ShikonaError::AmbiguousShikona { family_names: repeated });
    }
    let mut plans: Vec<BanzukeRowPlan> = Vec::new();
    let mut i: usize = 0;
    while i < banzuke.len()
        invariant
            i <= banzuke@.len(),
            plans@.len() == i,
            forall|j: int| 0 <= j < i ==> row_plan_ok(#[trigger] plans@[j], known@, banzuke@[j].0@),
        decreases banzuke@.len() - i,
    {
        let plan = match find_known(known, &banzuke[i].0, known.len()) {
            Some(p) => {
                let id = known[p].id;
                proof { lemma_known_id_found(known@, id, p as int, known@.len() as int); }
                let q = find_known_id(known, id);
                let given = match q {
                    Some(q) => known[q].given_name.clone(),
                    None => String::new(),
                };
                BanzukeRowPlan { rikishi_id: Some(id), given_name: given }
            },
            None => BanzukeRowPlan { rikishi_id: None, given_name: String::new() },
        };
        assert(row_plan_ok(plan, known@, banzuke@[i as int].0@));
        plans.push(plan);
        i = i + 1;
    }
    Ok(plans)
}

/// The index of the last entry with family name `name` among the first `n`.
pub open spec fn last_named(banzuke: Seq<BanzukeEntry>, name: Seq<char>, n: int) -> Option<int>
    decreases n,
{
    if n <= 0 {
        None
    } else if banzuke[n - 1].family_name@ == name {
        Some(n - 1)
    } else {
        last_named(banzuke, name, n - 1)
    }
}

/// The names of the entries that repeat an earlier entry's name, in order (a name
/// shared by three entries appears twice).
pub open spec fn repeated_names(banzuke: Seq<BanzukeEntry>, n: int) -> Seq<Seq<char>>
    decreases n,
{
    if n <= 0 {
        seq![]
    } else if last_named(banzuke, banzuke[n - 1].family_name@, n - 1) is Some {
        repeated_names(banzuke, n - 1).push(banzuke[n - 1].family_name@)
    } else {
        repeated_names(banzuke, n - 1)
    }
}

/// The index of the first bout among the first `n` with a rikishi missing from the
/// banzuke, and that rikishi's name (the winner is looked up first).
pub open spec fn first_unknown(banzuke: Seq<BanzukeEntry>, bouts: Seq<TorikumiMatchUpdateData>, n: int)
    -> Option<Seq<char>>
    decreases n,
{
    if n <= 0 {
        None
    } else if first_unknown(banzuke, bouts, n - 1) is Some {
        first_unknown(banzuke, bouts, n - 1)
    } else if last_named(banzuke, bouts[n - 1].winner@, banzuke.len() as int) is None {
        Some(bouts[n - 1].winner@)
    } else if last_named(banzuke, bouts[n - 1].loser@, banzuke.len() as int) is None {
        Some(bouts[n - 1].loser@)
    } else {
        None
    }
}

/// The two torikumi rows of bout `i`: the winner's, then the loser's.
pub open spec fn bout_rows(banzuke: Seq<BanzukeEntry>, bouts: Seq<TorikumiMatchUpdateData>, i: int)
    -> (TorikumiRow, TorikumiRow)
{
    let w = banzuke[last_named(banzuke, bouts[i].winner@, banzuke.len() as int)->Some_0];
    let l = banzuke[last_named(banzuke, bouts[i].loser@, banzuke.len() as int)->Some_0];
    let sides = spec_torikumi_sides(w.rank, l.rank);
    (
        TorikumiRow { seq: i as u32, side: sides.0, rikishi_id: w.rikishi_id, win: true },
        TorikumiRow { seq: i as u32, side: sides.1, rikishi_id: l.rikishi_id, win: false },
    )
}

/// The position of the entry named `name`, searching from the end.
fn find_named(banzuke: &Vec<BanzukeEntry>, name: &String, n: usize) -> (r: Option<usize>)
    requires
        n <= banzuke@.len(),
    ensures
        match last_named(banzuke@, name@, n as int) {
            Some(i) => r == Some(i as usize),
            None => r is None,
        },
        r matches Some(i) ==> i < n,
        last_named(banzuke@, name@, n as int) matches Some(i) ==> 0 <= i < n,
{
    proof { lemma_last_named_below(banzuke@, name@, n as int); }
    let mut i = n;
    while i > 0
        invariant
            i <= n <= banzuke@.len(),
            last_named(banzuke@, name@, n as int) == last_named(banzuke@, name@, i as int),
        decreases i,
    {
        if banzuke[i - 1].family_name == *name {
            return Some(i - 1);
        }
        i = i - 1;
    }
    None
}

/// The torikumi rows of a day's bouts. Family names must name one rikishi of the
/// banzuke each; each bout gives a row for the winner and one for the loser, the
/// higher-ranked of the two on his own side and the other opposite him.
pub fn plan_torikumi(banzuke: &Vec<BanzukeEntry>, bouts: &Vec<TorikumiMatchUpdateData>)
    -> (r: Result<Vec<TorikumiRow>, ShikonaError>)
    ensures
        repeated_names(banzuke@, banzuke@.len() as int).len() > 0 ==> {
            &&& r matches Err(ShikonaError::AmbiguousShikona { family_names })
            &&& family_names@.map_values(|s: String| s@) == repeated_names(banzuke@, banzuke@.len() as int)
        },
        repeated_names(banzuke@, banzuke@.len() as int).len() == 0 ==> match first_unknown(
            banzuke@,
            bouts@,
            bouts@.len() as int,
        ) {
            Some(name) => {
                &&& r matches Err(ShikonaError::RikishiNotFound { family_name })
                &&& family_name@ == name
            },
            None => {
                &&& r matches Ok(rows)
                &&& rows@.len() == 2 * bouts@.len()
                &&& forall|i: int|
                    0 <= i < bouts@.len() ==> {
                        &&& rows@[2 * i] == (#[trigger] bout_rows(banzuke@, bouts@, i)).0
                        &&& rows@[2 * i + 1] == bout_rows(banzuke@, bouts@, i).1
                    }
            },
        },
{
    let mut repeated: Vec<String> = Vec::new();
    let mut k: usize = 0;
    while k < banzuke.len()
        invariant
            k <= banzuke@.len(),
            repeated@.map_values(|s: String| s@) == repeated_names(banzuke@, k as int),
        decreases banzuke@.len() - k,
    {
        if find_named(banzuke, &banzuke[k].family_name, k).is_some() {
            repeated.push(banzuke[k].family_name.clone());
            proof {
                assert(repeated@.map_values(|s: String| s@) =~= repeated_names(banzuke@, k + 1));
            }
        }
        k = k + 1;
    }
    if repeated.len() > 0 {
        return Err(ShikonaError::AmbiguousShikona { family_names: repeated });
    }
    let n = banzuke.len();
    let mut rows: Vec<TorikumiRow> = Vec::new();
    let mut i: usize = 0;
    while i < bouts.len()
        invariant
            n == banzuke@.len(),
            repeated_names(banzuke@, n as int).len() == 0,
            i <= bouts@.len(),
            first_unknown(banzuke@, bouts@, i as int) is None,
            rows@.len() == 2 * i,
            forall|j: int| 0 <= j < i ==> {
                &&& rows@[2 * j] == (#[trigger] bout_rows(banzuke@, bouts@, j)).0
                &&& rows@[2 * j + 1] == bout_rows(banzuke@, bouts@, j).1
            },
        decreases bouts@.len() - i,
    {
        let bout = &bouts[i];
        let w = match find_named(banzuke, &bout.winner, n) {
            Some(w) => w,
            None => {
                proof { lemma_first_unknown_stays(banzuke@, bouts@, i as int + 1, bouts@.len() as int); }
                return Err(ShikonaError::RikishiNotFound { family_name: bout.winner.clone() });
            },
        };
        let l = match find_named(banzuke, &bout.loser, n) {
            Some(l) => l,
            None => {
                proof { lemma_first_unknown_stays(banzuke@, bouts@, i as int + 1, bouts@.len() as int); }
                return Err(ShikonaError::RikishiNotFound { family_name: bout.loser.clone() });
            },
        };
        let (winner_side, loser_side) = torikumi_sides(banzuke[w].rank, banzuke[l].rank);
        rows.push(TorikumiRow { seq: i as u32, side: winner_side, rikishi_id: banzuke[w].rikishi_id, win: true });
        rows.push(TorikumiRow { seq: i as u32, side: loser_side, rikishi_id: banzuke[l].rikishi_id, win: false });
        proof {
            assert(rows@[2 * i as int] == bout_rows(banzuke@, bouts@, i as int).0);
            assert(rows@[2 * i as int + 1] == bout_rows(banzuke@, bouts@, i as int).1);
        }
        i = i + 1;
    }
    Ok(rows)
}

/// What `last_named` finds lies among the entries searched.
proof fn lemma_last_named_below(banzuke: Seq<BanzukeEntry>, name: Seq<char>, n: int)
    ensures
        last_named(banzuke, name, n) matches Some(i) ==> 0 <= i < n,
    decreases n,
{
    if n > 0 {
        lemma_last_named_below(banzuke, name, n - 1);
    }
}

/// Once a bout with an unknown rikishi is found, it stays the first one.
proof fn lemma_first_unknown_stays(banzuke: Seq<BanzukeEntry>, bouts: Seq<TorikumiMatchUpdateData>, m: int, n: int)
    requires
        0 <= m <= n,
        first_unknown(banzuke, bouts, m) is Some,
    ensures
        first_unknown(banzuke, bouts, n) == first_unknown(banzuke, bouts, m),
    decreases n - m,
{
    if m < n {
        lemma_first_unknown_stays(banzuke, bouts, m, n - 1);
    }
}

/// Why a player's picks could not be saved.
#[derive(Debug, PartialEq, Eq, Structural)]
pub enum SavePicksError {
    /// The basho has started: picks are closed.
    BashoHasStarted,
    /// Two picks are from one rank group.
    InvalidPicks,
}

/// The values of `s` in order, each only where it first occurs.
pub open spec fn first_occurrences(s: Seq<u8>) -> Seq<u8>
    decreases s.len(),
{
    if s.len() == 0 {
        s
    } else if s.drop_last().contains(s.last()) {
        first_occurrences(s.drop_last())
    } else {
        first_occurrences(s.drop_last()).push(s.last())
    }
}

/// `Itertools::unique`: the values in order, each kept where it first occurs,
/// as the crate documents it (stable, the first of equal items retained).
#[verifier::external_body]
fn unique_values(v: &Vec<u8>) -> (r: Vec<u8>)
    ensures
        r@ == first_occurrences(v@),
{
    v.iter().copied().unique().collect()
}

/// The first occurrences are all of `s` exactly when nothing occurs twice.
proof fn lemma_first_occurrences_len(s: Seq<u8>)
    ensures
        first_occurrences(s).len() <= s.len(),
        (first_occurrences(s).len() == s.len()) == s.no_duplicates(),
    decreases s.len(),
{
    if s.len() > 0 {
        let p = s.drop_last();
        let x = s.last();
        lemma_first_occurrences_len(p);
        if p.contains(x) {
            let i = choose|i: int| 0 <= i < p.len() && p[i] == x;
            assert(s[i] == s[s.len() - 1]);
        } else {
            if p.no_duplicates() {
                assert forall|i: int, j: int| 0 <= i < s.len() && 0 <= j < s.len() && i != j implies s[i] != s[j] by {
                    if i < p.len() && j < p.len() {
                        assert(s[i] == p[i] && s[j] == p[j]);
                    } else if i < p.len() {
                        assert(s[i] == p[i]);
                    } else if j < p.len() {
                        assert(s[j] == p[j]);
                    }
                }
            }
            if s.no_duplicates() {
                assert forall|i: int, j: int| 0 <= i < p.len() && 0 <= j < p.len() && i != j implies p[i] != p[j] by {
                    assert(s[i] == p[i] && s[j] == p[j]);
                }
            }
        }
    }
}

/// The rank group numbers of the picked rikishi's ranks.
pub open spec fn groups_of(ranks: Seq<Rank>) -> Seq<u8> {
    ranks.map_values(|r: Rank| r.spec_group().0)
}

/// Whether a player's picks may be saved: not once the basho has started (its
/// start before now, both in the same unit of time), and not with two picks
/// from one rank group; `ranks` are the ranks of the rikishi picked.
pub fn check_save_picks(start: i64, now: i64, ranks: &Vec<Rank>) -> (r: Result<(), SavePicksError>)
    ensures
        r == if start < now {
            Err::<(), SavePicksError>(SavePicksError::BashoHasStarted)
        } else if !groups_of(ranks@).no_duplicates() {
            Err::<(), SavePicksError>(SavePicksError::InvalidPicks)
        } else {
            Ok::<(), SavePicksError>(())
        },
{
    if start < now {
        return Err(SavePicksError::BashoHasStarted);
    }
    let mut groups: Vec<u8> = Vec::new();
    let mut i: usize = 0;
    while i < ranks.len()
        invariant
            i <= ranks@.len(),
            groups@ == groups_of(ranks@.take(i as int)),
        decreases ranks@.len() - i,
    {
        let g = ranks[i].group().get();
        groups.push(g);
        proof {
            assert(groups_of(ranks@.take(i + 1)) =~= groups_of(ranks@.take(i as int)).push(g));
        }
        i = i + 1;
    }
    assert(ranks@.take(ranks@.len() as int) =~= ranks@);
    let unique = unique_values(&groups);
    proof {
        lemma_first_occurrences_len(groups@);
    }
    if unique.len() != groups.len() {
        Err(SavePicksError::InvalidPicks)
    } else {
        Ok(())
    }
}

} // verus!
