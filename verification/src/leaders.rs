//! Standings: ordinal places with ties, the player ranks handed out by place,
//! and a player's daily wins from the rikishi picked.

use vstd::prelude::*;

use crate::basho::{BashoRikishi, RikishiId};
use crate::player::PlayerId;
use crate::rank::{lemma_rank_order_total, Rank, RankName, RankSide};
use crate::lex::{
    byte_order, key_order, key_view, keys_view, lemma_lex_strict_total, lemma_stably_sorted_transfer, lex_lt,
    stable_order, stably_sorted, text_order, texts_view, SortKey,
};
use vstd::slice::slice_to_vec;
use vstd::string::*;
use vstd::utf8::encode_utf8;
use std::collections::HashMap;

verus! {

/// Something that gets a place in standings by its score.
pub trait Rankable {
    /// The score that places are given by.
    spec fn score(&self) -> i32;

    /// The place given.
    spec fn place(&self) -> usize;

    fn get_score(&self) -> (s: i32)
        ensures
            s == self.score();

    fn set_rank(&mut self, ord: usize)
        ensures
            final(self).place() == ord,
            final(self).score() == old(self).score();
}

/// A player's wins in one basho, and the place those wins gave.
pub struct BashoPlayerScore {
    pub id: PlayerId,
    pub name: String,
    pub wins: u8,
    pub rank: usize,
}

impl Rankable for BashoPlayerScore {
    open spec fn score(&self) -> i32 {
        self.wins as i32
    }

    open spec fn place(&self) -> usize {
        self.rank
    }

    fn get_score(&self) -> (s: i32) {
        self.wins as i32
    }

    fn set_rank(&mut self, ord: usize) {
        self.rank = ord;
    }
}

/// The place of entry `i` when entries are placed in order and ties share the
/// place of the first of their run: 1, 2, 2, 4, ...
pub open spec fn ord_at(scores: Seq<i32>, i: int) -> int
    decreases i,
{
    if i <= 0 {
        1
    } else if scores[i] == scores[i - 1] {
        ord_at(scores, i - 1)
    } else {
        i + 1
    }
}

/// The scores of a sequence of rankables.
pub open spec fn scores_of<R: Rankable>(items: Seq<R>) -> Seq<i32> {
    items.map_values(|r: R| r.score())
}

/// Gives each entry its place: entries keep their order, and an entry with the
/// score of the one before it shares that one's place.
pub fn assign_ord<R: Rankable>(items: &mut Vec<R>)
    ensures
        final(items)@.len() == old(items)@.len(),
        scores_of(final(items)@) == scores_of(old(items)@),
        forall|i: int| 0 <= i < final(items)@.len() ==>
            #[trigger] final(items)@[i].place() == ord_at(scores_of(old(items)@), i),
{
    let ghost scores = scores_of(items@);
    let n = items.len();
    let mut last_score: i32 = i32::MIN;
    let mut ord: usize = 1;
    let mut i: usize = 0;
    while i < n
        invariant
            n == items@.len(),
            i <= n,
            scores_of(items@) == scores,
            forall|k: int| 0 <= k < i ==> #[trigger] items@[k].place() == ord_at(scores, k),
            i > 0 ==> last_score == scores[i - 1] && ord == ord_at(scores, i - 1),
            i == 0 ==> ord == 1,
            1 <= ord <= i + 1,
        decreases n - i,
    {
        let s = items[i].get_score();
        if s != last_score {
            last_score = s;
            ord = i + 1;
        }
        proof {
            assert(s == scores[i as int]);
            if i > 0 {
                assert(ord == ord_at(scores, i as int));
            } else {
                assert(ord == 1);
            }
        }
        let ghost before = items@;
        items[i].set_rank(ord);
        proof {
            assert(items@.len() == before.len());
            assert forall|k: int| 0 <= k < n && k != i implies items@[k] == before[k] by {}
            assert(scores_of(items@) =~= scores);
        }
        i = i + 1;
    }
}

/// With scores in non-increasing order, an entry's place is one more than the
/// number of entries that scored strictly better: exactly the entries before
/// place - 1 did.
pub proof fn lemma_ord_counts_better(scores: Seq<i32>, i: int)
    requires
        0 <= i < scores.len(),
        forall|a: int, b: int| 0 <= a <= b < scores.len() ==> scores[a] >= scores[b],
    ensures
        1 <= ord_at(scores, i) <= i + 1,
        forall|j: int| 0 <= j < scores.len() ==>
            (scores[j] > scores[i] <==> j < ord_at(scores, i) - 1),
    decreases i,
{
    if i > 0 {
        lemma_ord_counts_better(scores, i - 1);
        if scores[i] == scores[i - 1] {
        } else {
            assert forall|j: int| 0 <= j < scores.len() implies
                (scores[j] > scores[i] <==> j < ord_at(scores, i) - 1) by {
                if j < i {
                    assert(scores[j] >= scores[i - 1]);
                }
            }
        }
    }
}

/// The rank `k` places below the top of the banzuke.
pub open spec fn nth_lower(k: nat) -> Rank
    decreases k,
{
    if k == 0 {
        Rank { name: RankName::Yokozuna, side: RankSide::East, number: 1 }
    } else {
        nth_lower((k - 1) as nat).spec_next_lower()
    }
}

/// The number of runs of equal places among the first `i` entries.
pub open spec fn run_index(ords: Seq<usize>, i: int) -> nat
    decreases i,
{
    if i <= 0 {
        0
    } else if ords[i] == ords[i - 1] {
        run_index(ords, i - 1)
    } else {
        run_index(ords, i - 1) + 1
    }
}

/// The number of runs of equal places in the whole sequence.
pub open spec fn run_count(ords: Seq<usize>) -> nat {
    if ords.len() == 0 { 0 } else { run_index(ords, ords.len() - 1) + 1 }
}

proof fn lemma_run_index_bounds(ords: Seq<usize>, i: int)
    requires
        0 <= i < ords.len(),
    ensures
        run_index(ords, i) <= i,
        run_index(ords, i) < run_count(ords),
    decreases ords.len() - i,
{
    lemma_run_index_le(ords, i);
    if i < ords.len() - 1 {
        lemma_run_index_bounds(ords, i + 1);
    }
}

proof fn lemma_run_index_le(ords: Seq<usize>, i: int)
    requires
        0 <= i < ords.len(),
    ensures
        run_index(ords, i) <= i,
    decreases i,
{
    if i > 0 {
        lemma_run_index_le(ords, i - 1);
    }
}

/// The banzuke ranks of players by their places: players that share a place share
/// a rank, the first run gets Yokozuna 1 East and each further run the rank below.
pub fn ranks_by_ord(ords: &Vec<usize>) -> (ranks: Vec<Rank>)
    requires
        forall|k: nat| k < run_count(ords@) ==> #[trigger] nth_lower(k).has_next_lower(),
    ensures
        ranks@.len() == ords@.len(),
        forall|i: int| 0 <= i < ords@.len() ==> #[trigger] ranks@[i] == nth_lower(run_index(ords@, i)),
{
    let n = ords.len();
    let mut ranks: Vec<Rank> = Vec::new();
    let mut rank = Rank::top();
    let mut i: usize = 0;
    while i < n
        invariant
            n == ords@.len(),
            i <= n,
            ranks@.len() == i,
            forall|k: nat| k < run_count(ords@) ==> #[trigger] nth_lower(k).has_next_lower(),
            forall|k: int| 0 <= k < i ==> #[trigger] ranks@[k] == nth_lower(run_index(ords@, k)),
            i < n ==> rank == nth_lower(if i == 0 { 0 } else { run_index(ords@, i - 1) + 1 }),
            i > 0 ==> run_index(ords@, i - 1) < run_count(ords@),
            0 < i < n ==> ords@[i as int] != ords@[i - 1],
        decreases n - i,
    {
        // One run: the entries from i that share its place.
        let start = i;
        let ghost r = if i == 0 { 0nat } else { run_index(ords@, i - 1) + 1 };
        proof {
            if i > 0 {
                assert(ords@[i as int] != ords@[i - 1]
                    || run_index(ords@, i as int) == run_index(ords@, i - 1));
            }
        }
        ranks.push(rank);
        proof {
            if i == 0 {
                assert(run_index(ords@, 0) == 0);
            }
        }
        i = i + 1;
        while i < n && ords[i] == ords[i - 1]
            invariant
                n == ords@.len(),
                start < i <= n,
                ranks@.len() == i,
                forall|k: int| 0 <= k < start ==> #[trigger] ranks@[k] == nth_lower(run_index(ords@, k)),
                forall|k: int| start <= k < i ==> #[trigger] ranks@[k] == rank,
                forall|k: int| start <= k < i ==> #[trigger] run_index(ords@, k) == r,
            decreases n - i,
        {
            proof {
                assert(run_index(ords@, i as int) == run_index(ords@, i - 1));
            }
            ranks.push(rank);
            i = i + 1;
        }
        proof {
            lemma_run_index_bounds(ords@, i - 1);
        }
        assert(nth_lower(r).has_next_lower());
        rank = rank.next_lower();
        proof {
            if i < n {
                assert(run_index(ords@, i as int) == r + 1);
            }
        }
    }
    ranks
}

/// For each day, the wins among the picks that have a result that day; none when
/// no pick has a result.
pub open spec fn day_tally(picks: Seq<Option<BashoRikishi>>, day: int, n: int) -> Option<int>
    decreases n,
{
    if n <= 0 {
        None
    } else {
        let before = day_tally(picks, day, n - 1);
        match picks[n - 1] {
            Some(r) => match r.results@[day] {
                Some(win) => Some(
                    match before { Some(c) => c, None => 0 } + if win { 1int } else { 0int }),
                None => before,
            },
            None => before,
        }
    }
}

/// The number of `Some(true)` among the first `d` results.
pub open spec fn wins_in(results: Seq<Option<bool>>, d: int) -> int
    decreases d,
{
    if d <= 0 {
        0
    } else {
        wins_in(results, d - 1) + if results[d - 1] == Some(true) { 1int } else { 0int }
    }
}

/// The wins of the picks over the whole basho.
pub open spec fn total_wins(picks: Seq<Option<BashoRikishi>>, n: int) -> int
    decreases n,
{
    if n <= 0 {
        0
    } else {
        total_wins(picks, n - 1) + match picks[n - 1] {
            Some(r) => wins_in(r.results@, 15),
            None => 0,
        }
    }
}

proof fn lemma_wins_in_bounds(results: Seq<Option<bool>>, d: int)
    requires
        0 <= d,
    ensures
        0 <= wins_in(results, d) <= d,
    decreases d,
{
    if d > 0 {
        lemma_wins_in_bounds(results, d - 1);
    }
}

proof fn lemma_day_tally_bounds(picks: Seq<Option<BashoRikishi>>, day: int, n: int)
    requires
        0 <= n,
    ensures
        day_tally(picks, day, n) matches Some(c) ==> 0 <= c <= n,
    decreases n,
{
    if n > 0 {
        lemma_day_tally_bounds(picks, day, n - 1);
    }
}

/// A player's wins per day and in total, from the rikishi picked.
pub fn picks_to_days(picks: &[Option<&BashoRikishi>; 5]) -> (r: ([Option<u8>; 15], u8))
    ensures
        forall|d: int| 0 <= d < 15 ==> match day_tally(picks@.map_values(|p: Option<&BashoRikishi>| match p {
            Some(b) => Some(*b),
            None => None,
        }), d, 5) {
            Some(c) => #[trigger] r.0@[d] == Some(c as u8),
            None => r.0@[d] is None,
        },
        r.1 == total_wins(picks@.map_values(|p: Option<&BashoRikishi>| match p {
            Some(b) => Some(*b),
            None => None,
        }), 5),
{
    let ghost ps = picks@.map_values(|p: Option<&BashoRikishi>| match p {
        Some(b) => Some(*b),
        None => None,
    });
    let mut days: [Option<u8>; 15] = [None; 15];
    let mut total: u8 = 0;
    let mut p: usize = 0;
    while p < 5
        invariant
            p <= 5,
            ps == picks@.map_values(|p: Option<&BashoRikishi>| match p {
                Some(b) => Some(*b),
                None => None,
            }),
            total == total_wins(ps, p as int),
            total <= 15 * p,
            forall|d: int| 0 <= d < 15 ==> match day_tally(ps, d, p as int) {
                Some(c) => #[trigger] days@[d] == Some(c as u8),
                None => days@[d] is None,
            },
        decreases 5 - p,
    {
        proof {
            assert forall|d: int| 0 <= d < 15 implies
                (#[trigger] day_tally(ps, d, p as int) matches Some(c) ==> c <= p) by {
                lemma_day_tally_bounds(ps, d, p as int);
            }
        }
        match picks[p] {
            Some(rikishi) => {
                proof { assert(ps[p as int] == Some(*rikishi)); }
                let mut day: usize = 0;
                let ghost days0 = days@;
                let ghost total0 = total as int;
                while day < 15
                    invariant
                        p < 5,
                        day <= 15,
                        days0.len() == 15,
                        ps.len() == 5,
                        ps[p as int] == Some(*rikishi),
                        total0 == total_wins(ps, p as int),
                        total0 <= 15 * p,
                        total == total0 + wins_in(rikishi.results@, day as int),
                        forall|d: int| 0 <= d < 15 ==> (#[trigger] day_tally(ps, d, p as int) matches Some(c) ==> c <= p),
                        forall|d: int| day <= d < 15 ==> #[trigger] days@[d] == days0[d],
                        forall|d: int| 0 <= d < 15 ==> match day_tally(ps, d, p as int) {
                            Some(c) => #[trigger] days0[d] == Some(c as u8),
                            None => days0[d] is None,
                        },
                        forall|d: int| 0 <= d < day ==> match day_tally(ps, d, p + 1) {
                            Some(c) => #[trigger] days@[d] == Some(c as u8),
                            None => days@[d] is None,
                        },
                    decreases 15 - day,
                {
                    proof { lemma_wins_in_bounds(rikishi.results@, day as int); }
                    let ghost t = day_tally(ps, day as int, p as int);
                    let ghost days_before = days@;
                    match rikishi.results[day] {
                        Some(win) => {
                            let incr: u8 = if win { 1 } else { 0 };
                            let prev: u8 = match days[day] {
                                Some(c) => c,
                                None => 0,
                            };
                            proof {
                                assert(days@[day as int] == days0[day as int]);
                                lemma_day_tally_bounds(ps, day as int, p as int);
                                match t {
                                    Some(c) => {
                                        assert(c <= p);
                                        assert(prev == c);
                                    },
                                    None => {
                                        assert(prev == 0);
                                    },
                                }
                                assert(day_tally(ps, day as int, p + 1) == Some((prev + incr) as int));
                            }
                            days[day] = Some(prev + incr);
                            total = total + incr;
                        },
                        None => {
                            proof {
                                assert(day_tally(ps, day as int, p + 1) == t);
                            }
                        },
                    }
                    proof {
                        assert(wins_in(rikishi.results@, day + 1) == wins_in(rikishi.results@, day as int)
                            + if rikishi.results@[day as int] == Some(true) { 1int } else { 0int });
                        assert forall|d: int| 0 <= d < day + 1 implies match day_tally(ps, d, p + 1) {
                            Some(c) => #[trigger] days@[d] == Some(c as u8),
                            None => days@[d] is None,
                        } by {
                            if d < day {
                                assert(days@[d] == days_before[d]);
                            }
                        }
                    }
                    day = day + 1;
                }
                proof {
                    lemma_wins_in_bounds(rikishi.results@, 15);
                }
            },
            None => {},
        }
        p = p + 1;
    }
    (days, total)
}

/// The pick slot of a rank: its rank group, counted from 0.
pub open spec fn slot_of(rank: Rank) -> int {
    rank.spec_group().0 - 1
}

/// The rikishi picked in `slot`: the last of the first `n` ids that names a rikishi
/// of `rikishi` in that slot, by that rikishi's own id.
pub open spec fn pick_in_slot(ids: Seq<RikishiId>, rikishi: Map<RikishiId, BashoRikishi>, slot: int, n: int) -> Option<RikishiId>
    decreases n,
{
    if n <= 0 {
        None
    } else if rikishi.contains_key(ids[n - 1]) && slot_of(rikishi[ids[n - 1]].rank) == slot {
        Some(rikishi[ids[n - 1]].id)
    } else {
        pick_in_slot(ids, rikishi, slot, n - 1)
    }
}

/// A player's picks by slot, from the ids picked; ids of rikishi not in `rikishi`
/// are passed over.
pub fn pick_slots(ids: &Vec<RikishiId>, rikishi: &HashMap<RikishiId, BashoRikishi>) -> (slots: [Option<RikishiId>; 5])
    requires
        forall|i: int|
            0 <= i < ids@.len() && rikishi@.contains_key(#[trigger] ids@[i]) ==> 0 <= slot_of(rikishi@[ids@[i]].rank) < 5,
    ensures
        forall|g: int| 0 <= g < 5 ==> #[trigger] slots@[g] == pick_in_slot(ids@, rikishi@, g, ids@.len() as int),
{
    broadcast use vstd::std_specs::hash::group_hash_axioms;
    let mut slots: [Option<RikishiId>; 5] = [None; 5];
    let mut i: usize = 0;
    while i < ids.len()
        invariant
            i <= ids@.len(),
            forall|i: int|
                0 <= i < ids@.len() && rikishi@.contains_key(#[trigger] ids@[i]) ==> 0 <= slot_of(rikishi@[ids@[i]].rank) < 5,
            slots@.len() == 5,
            forall|g: int| 0 <= g < 5 ==> #[trigger] slots@[g] == pick_in_slot(ids@, rikishi@, g, i as int),
        decreases ids@.len() - i,
    {
        let id = ids[i];
        match rikishi.get(&id) {
            Some(r) => {
                assert(rikishi@.contains_key(ids@[i as int]));
                let g = r.rank.group().as_index();
                slots[g] = Some(r.id);
            },
            None => {},
        }
        i = i + 1;
    }
    slots
}

/// Can the rikishi stand in `slot` as the best or worst pick: he is in that slot
/// and not kyujyo.
pub open spec fn eligible_in(r: BashoRikishi, slot: int) -> bool {
    !r.is_kyujyo && slot_of(r.rank) == slot
}

/// Is there a rikishi for `slot` among the first `n`?
pub open spec fn has_eligible(l: Seq<BashoRikishi>, slot: int, n: int) -> bool {
    exists|j: int| 0 <= j < n && #[trigger] eligible_in(l[j], slot)
}

/// Is rikishi `i` the first among the first `n` with the fewest wins in `slot`?
pub open spec fn is_min_pick(l: Seq<BashoRikishi>, slot: int, n: int, i: int) -> bool {
    &&& 0 <= i < n
    &&& eligible_in(l[i], slot)
    &&& forall|j: int| 0 <= j < n && #[trigger] eligible_in(l[j], slot) ==> l[i].wins <= l[j].wins
    &&& forall|j: int| 0 <= j < i && #[trigger] eligible_in(l[j], slot) ==> l[j].wins > l[i].wins
}

/// Is rikishi `i` the first among the first `n` with the most wins in `slot`?
pub open spec fn is_max_pick(l: Seq<BashoRikishi>, slot: int, n: int, i: int) -> bool {
    &&& 0 <= i < n
    &&& eligible_in(l[i], slot)
    &&& forall|j: int| 0 <= j < n && #[trigger] eligible_in(l[j], slot) ==> l[i].wins >= l[j].wins
    &&& forall|j: int| 0 <= j < i && #[trigger] eligible_in(l[j], slot) ==> l[j].wins < l[i].wins
}

/// The worst and the best possible picks, by position in `walk`: in each slot, the
/// first rikishi met (not kyujyo) with the fewest wins, and the first with the most.
pub fn min_max_picks(walk: &Vec<&BashoRikishi>) -> (r: ([Option<usize>; 5], [Option<usize>; 5]))
    requires
        forall|j: int| 0 <= j < walk@.len() && !(#[trigger] walk@[j]).is_kyujyo ==> 0 <= slot_of(walk@[j].rank) < 5,
    ensures
        forall|g: int| 0 <= g < 5 ==> match #[trigger] r.0@[g] {
            Some(i) => is_min_pick(walk@.map_values(|b: &BashoRikishi| *b), g, walk@.len() as int, i as int),
            None => !has_eligible(walk@.map_values(|b: &BashoRikishi| *b), g, walk@.len() as int),
        },
        forall|g: int| 0 <= g < 5 ==> match #[trigger] r.1@[g] {
            Some(i) => is_max_pick(walk@.map_values(|b: &BashoRikishi| *b), g, walk@.len() as int, i as int),
            None => !has_eligible(walk@.map_values(|b: &BashoRikishi| *b), g, walk@.len() as int),
        },
{
    let ghost l = walk@.map_values(|b: &BashoRikishi| *b);
    let mut mins: [Option<usize>; 5] = [None; 5];
    let mut maxes: [Option<usize>; 5] = [None; 5];
    let mut j: usize = 0;
    while j < walk.len()
        invariant
            l == walk@.map_values(|b: &BashoRikishi| *b),
            j <= walk@.len(),
            forall|j: int| 0 <= j < walk@.len() && !(#[trigger] walk@[j]).is_kyujyo ==> 0 <= slot_of(walk@[j].rank) < 5,
            mins@.len() == 5,
            maxes@.len() == 5,
            forall|g: int| 0 <= g < 5 ==> match #[trigger] mins@[g] {
                Some(i) => is_min_pick(l, g, j as int, i as int),
                None => !has_eligible(l, g, j as int),
            },
            forall|g: int| 0 <= g < 5 ==> match #[trigger] maxes@[g] {
                Some(i) => is_max_pick(l, g, j as int, i as int),
                None => !has_eligible(l, g, j as int),
            },
        decreases walk@.len() - j,
    {
        let r = walk[j];
        assert(*r == l[j as int]);
        if !r.is_kyujyo {
            let g = r.rank.group().as_index();
            let new_min = match mins[g] {
                Some(m) => if r.wins < walk[m].wins { j } else { m },
                None => j,
            };
            let new_max = match maxes[g] {
                Some(m) => if r.wins > walk[m].wins { j } else { m },
                None => j,
            };
            mins[g] = Some(new_min);
            maxes[g] = Some(new_max);
        }
        proof {
            assert forall|g: int| 0 <= g < 5 implies match #[trigger] mins@[g] {
                Some(i) => is_min_pick(l, g, j + 1, i as int),
                None => !has_eligible(l, g, j + 1),
            } by {
                if !eligible_in(l[j as int], g) {
                    assert forall|x: int| 0 <= x < j + 1 && #[trigger] eligible_in(l[x], g) implies 0 <= x < j by {}
                }
            }
            assert forall|g: int| 0 <= g < 5 implies match #[trigger] maxes@[g] {
                Some(i) => is_max_pick(l, g, j + 1, i as int),
                None => !has_eligible(l, g, j + 1),
            } by {
                if !eligible_in(l[j as int], g) {
                    assert forall|x: int| 0 <= x < j + 1 && #[trigger] eligible_in(l[x], g) implies 0 <= x < j by {}
                }
            }
        }
        j = j + 1;
    }
    (mins, maxes)
}

/// The players who win the Emperor's Cup: those placed first.
pub fn cup_winners(scores: &Vec<BashoPlayerScore>) -> (r: Vec<PlayerId>)
    ensures
        r@ == scores@.filter(|p: BashoPlayerScore| p.rank == 1).map_values(|p: BashoPlayerScore| p.id),
{
    let mut r: Vec<PlayerId> = Vec::new();
    let mut i: usize = 0;
    while i < scores.len()
        invariant
            i <= scores@.len(),
            r@ == scores@.take(i as int).filter(|p: BashoPlayerScore| p.rank == 1).map_values(|p: BashoPlayerScore| p.id),
        decreases scores@.len() - i,
    {
        proof {
            reveal(Seq::filter);
            assert(scores@.take(i + 1).drop_last() =~= scores@.take(i as int));
        }
        let ghost before = scores@.take(i as int).filter(|p: BashoPlayerScore| p.rank == 1);
        if scores[i].rank == 1 {
            r.push(scores[i].id);
            proof {
                assert(before.push(scores@[i as int]).map_values(|p: BashoPlayerScore| p.id)
                    =~= before.map_values(|p: BashoPlayerScore| p.id).push(scores@[i as int].id));
            }
        }
        i = i + 1;
    }
    proof {
        assert(scores@.take(scores@.len() as int) =~= scores@);
    }
    r
}

/// Who a line of the basho standings is for.
pub enum ResultPlayer {
    /// A player who made picks: his name, his rank before the basho, and his
    /// place in it (0 while there is none).
    RankedPlayer { name: String, rank: Option<Rank>, basho_rank: usize },
    /// The best picks that could have been made.
    Max,
    /// The worst picks that could have been made.
    Min,
}

/// A line of the basho standings: a player (or the best or worst picks), the
/// rikishi picked by slot with their names, and the wins by day.
pub struct BashoPlayerResults {
    pub is_self: bool,
    pub player: ResultPlayer,
    pub picks: [Option<RikishiId>; 5],
    pub pick_names: Vec<Option<String>>,
    pub total: u8,
    pub days: [Option<u8>; 15],
}

/// The bytes of a picked rikishi's name; none for an empty slot.
pub open spec fn name_text(n: Option<String>) -> Seq<u8> {
    match n {
        Some(s) => encode_utf8(s@),
        None => Seq::empty(),
    }
}

/// What a line is ordered by while the basho runs: the place (a place of 0 as
/// 1), then the names picked, slot by slot; the best picks before every place
/// and the worst after.
pub open spec fn during_key(r: BashoPlayerResults) -> (int, Seq<Seq<u8>>) {
    match r.player {
        ResultPlayer::RankedPlayer { basho_rank, .. } => (
            if basho_rank == 0 { 1 } else { basho_rank as int },
            r.pick_names@.map_values(|n: Option<String>| name_text(n)),
        ),
        ResultPlayer::Max => (0, Seq::empty()),
        ResultPlayer::Min => (usize::MAX as int, Seq::empty()),
    }
}

/// The lowest rank there is, which a player without a rank counts as.
pub open spec fn bottom_rank() -> Rank {
    Rank { name: RankName::BanzukeGai, number: 999, side: RankSide::West }
}

/// The lower-case form of a text, as `str::to_lowercase` gives it.
pub uninterp spec fn lowercase_text(s: Seq<char>) -> Seq<char>;

/// `str::to_lowercase`: the text in lower case, by the Unicode lower-case mapping
/// (not by locale). What that mapping is, character by character, is left unsaid.
#[verifier::external_body]
fn to_lowercase(s: &str) -> (r: String)
    ensures
        r@ == lowercase_text(s@),
{
    s.to_lowercase()
}

/// What a line is ordered by before the basho: the player's rank (the lowest
/// where he has none), then his name in lower case; the best and worst picks as
/// the lowest rank with an empty name.
pub open spec fn before_key(r: BashoPlayerResults) -> (Rank, Seq<u8>) {
    match r.player {
        ResultPlayer::RankedPlayer { name, rank, .. } => (
            match rank {
                Some(k) => k,
                None => bottom_rank(),
            },
            encode_utf8(lowercase_text(name@)),
        ),
        _ => (bottom_rank(), Seq::empty()),
    }
}

/// The order of keys before the basho: the higher rank first, then the name
/// byte by byte.
pub open spec fn before_order() -> spec_fn((Rank, Seq<u8>), (Rank, Seq<u8>)) -> bool {
    |a: (Rank, Seq<u8>), b: (Rank, Seq<u8>)| a.0.spec_lt(b.0) || (a.0 == b.0 && lex_lt(a.1, b.1, byte_order()))
}

/// A rank as one number, ordered as ranks are.
pub open spec fn rank_code(r: Rank) -> int {
    r.name.index() * 131072 + r.number * 2 + r.side.index()
}

/// The number that orders ranks.
pub(crate) fn rank_number(r: Rank) -> (c: u64)
    ensures
        c == rank_code(r),
{
    let side: u64 = match r.side {
        RankSide::East => 0,
        RankSide::West => 1,
    };
    r.name.position() as u64 * 131072 + r.number as u64 * 2 + side
}

pub(crate) proof fn lemma_rank_code_order(a: Rank, b: Rank)
    ensures
        (rank_code(a) < rank_code(b)) == a.spec_lt(b),
        (rank_code(a) == rank_code(b)) == (a == b),
{
    lemma_rank_order_total(a, b, b);
    lemma_rank_order_total(b, a, a);
}

/// The sort key of a before-basho key.
pub open spec fn before_code(k: (Rank, Seq<u8>)) -> (int, Seq<Seq<u8>>) {
    (rank_code(k.0), seq![k.1])
}

proof fn lemma_before_code(a: (Rank, Seq<u8>), b: (Rank, Seq<u8>))
    ensures
        key_order()(before_code(a), before_code(b)) == before_order()(a, b),
        (before_code(a) == before_code(b)) == (a == b),
{
    lemma_rank_code_order(a.0, b.0);
    lemma_lex_strict_total(a.1, a.1, a.1, byte_order());
    let x = seq![a.1];
    let y = seq![b.1];
    assert(x.drop_first() =~= Seq::<Seq<u8>>::empty());
    assert(y.drop_first() =~= Seq::<Seq<u8>>::empty());
    assert(x[0] == a.1 && y[0] == b.1);
    assert(!lex_lt(x.drop_first(), y.drop_first(), text_order()));
    assert(text_order()(a.1, b.1) == lex_lt(a.1, b.1, byte_order()));
    assert(lex_lt(x, y, text_order()) == lex_lt(a.1, b.1, byte_order()));
    if x == y {
        assert(x[0] == y[0]);
    }
}

/// The bytes of a picked rikishi's name.
fn name_bytes(n: &Option<String>) -> (v: Vec<u8>)
    ensures
        v@ == name_text(*n),
{
    match n {
        Some(s) => slice_to_vec(s.as_str().as_bytes()),
        None => Vec::new(),
    }
}

/// The sort key of a line while the basho runs.
fn during_sort_key(r: &BashoPlayerResults) -> (k: SortKey)
    ensures
        key_view(k) == during_key(*r),
{
    match &r.player {
        ResultPlayer::RankedPlayer { basho_rank, .. } => {
            let primary: u64 = if *basho_rank == 0 { 1 } else { *basho_rank as u64 };
            let mut texts: Vec<Vec<u8>> = Vec::new();
            let mut i: usize = 0;
            while i < r.pick_names.len()
                invariant
                    i <= r.pick_names@.len(),
                    texts_view(texts@) == r.pick_names@.take(i as int).map_values(|n: Option<String>| name_text(n)),
                decreases r.pick_names@.len() - i,
            {
                let t = name_bytes(&r.pick_names[i]);
                texts.push(t);
                proof {
                    assert(r.pick_names@.take(i + 1).map_values(|n: Option<String>| name_text(n)) =~= r.pick_names@.take(
                        i as int,
                    ).map_values(|n: Option<String>| name_text(n)).push(name_text(r.pick_names@[i as int])));
                    assert(texts_view(texts@) =~= r.pick_names@.take(i + 1).map_values(|n: Option<String>| name_text(n)));
                }
                i = i + 1;
            }
            assert(r.pick_names@.take(r.pick_names@.len() as int) =~= r.pick_names@);
            SortKey { primary, texts }
        },
        ResultPlayer::Max => {
            let k = SortKey { primary: 0, texts: Vec::new() };
            assert(texts_view(k.texts@) =~= Seq::<Seq<u8>>::empty());
            k
        },
        ResultPlayer::Min => {
            let k = SortKey { primary: usize::MAX as u64, texts: Vec::new() };
            assert(texts_view(k.texts@) =~= Seq::<Seq<u8>>::empty());
            k
        },
    }
}

/// The sort key of a line before the basho.
fn before_sort_key(r: &BashoPlayerResults) -> (k: SortKey)
    ensures
        key_view(k) == before_code(before_key(*r)),
{
    let (rank, text) = match &r.player {
        ResultPlayer::RankedPlayer { name, rank, .. } => {
            let rank = match rank {
                Some(k) => *k,
                None => Rank::bottom(),
            };
            let lower = to_lowercase(name.as_str());
            (rank, slice_to_vec(lower.as_str().as_bytes()))
        },
        _ => (Rank::bottom(), Vec::new()),
    };
    let mut texts: Vec<Vec<u8>> = Vec::new();
    texts.push(text);
    let k = SortKey { primary: rank_number(rank), texts };
    assert(texts_view(k.texts@) =~= seq![k.texts@[0]@]);
    k
}

/// The order the standings are shown in, by position in `results`. While the
/// basho runs (the best and worst picks among the lines), by place and then by
/// the names picked, the best picks first and the worst last; before it, by
/// the players' ranks and then their names in lower case. Lines with equal keys
/// keep the order given.
pub fn leaders_order(results: &Vec<BashoPlayerResults>, include_best_worst: bool) -> (order: Vec<usize>)
    ensures
        include_best_worst ==> stably_sorted(
            results@.map_values(|r: BashoPlayerResults| during_key(r)),
            key_order(),
            order@,
        ),
        !include_best_worst ==> stably_sorted(
            results@.map_values(|r: BashoPlayerResults| before_key(r)),
            before_order(),
            order@,
        ),
{
    let mut keys: Vec<SortKey> = Vec::new();
    let mut i: usize = 0;
    while i < results.len()
        invariant
            i <= results@.len(),
            keys@.len() == i,
            forall|k: int| 0 <= k < i ==> #[trigger] key_view(keys@[k]) == if include_best_worst {
                during_key(results@[k])
            } else {
                before_code(before_key(results@[k]))
            },
        decreases results@.len() - i,
    {
        let k = if include_best_worst {
            during_sort_key(&results[i])
        } else {
            before_sort_key(&results[i])
        };
        keys.push(k);
        i = i + 1;
    }
    let order = stable_order(&keys);
    proof {
        let kv = keys_view(keys@);
        if include_best_worst {
            assert(kv =~= results@.map_values(|r: BashoPlayerResults| during_key(r)));
        } else {
            let bk = results@.map_values(|r: BashoPlayerResults| before_key(r));
            assert forall|x: int, y: int|
                #![trigger bk[x], bk[y]]
                0 <= x < kv.len() && 0 <= y < kv.len() implies key_order()(kv[x], kv[y]) == before_order()(bk[x], bk[y])
                    && (kv[x] == kv[y]) == (bk[x] == bk[y]) by {
                assert(kv[x] == key_view(keys@[x]) && kv[y] == key_view(keys@[y]));
                lemma_before_code(bk[x], bk[y]);
            }
            lemma_stably_sorted_transfer(kv, key_order(), bk, before_order(), order@);
        }
    }
    order
}

} // verus!
