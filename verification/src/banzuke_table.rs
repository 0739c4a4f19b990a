//! The banzuke of a basho as the basho page shows it: one line per rank of the top
//! division, its East and West rikishi with their daily results, and a boundary
//! line wherever the rank group changes.

use vstd::prelude::*;

use crate::basho::{BashoRikishi, BashoRikishiByRank, Day, RikishiId};
use crate::rank::{Rank, RankGroup, RankSide};
use crate::text::{decimal, push_decimal};
use std::collections::{HashMap, HashSet};

verus! {

/// One row read for the basho page: a rikishi of the banzuke, joined with one of
/// his bouts (`day` and `win` are `None` where he has none yet), and how many
/// players picked him.
pub struct FetchedRikishiRow {
    pub rank: Rank,
    pub rikishi_id: RikishiId,
    pub family_name: String,
    pub kyujyo: bool,
    pub day: Option<Day>,
    pub win: Option<bool>,
    pub picks: u16,
}

/// Is the row one of a top-division rikishi?
pub open spec fn in_makuuchi(row: FetchedRikishiRow) -> bool {
    row.rank.spec_is_makuuchi()
}

/// The rows of top-division rikishi, in the order given.
pub open spec fn makuuchi_rows(rows: Seq<FetchedRikishiRow>) -> Seq<FetchedRikishiRow> {
    rows.filter(|row: FetchedRikishiRow| in_makuuchi(row))
}

/// The rank name and number of a row as one integer: rows compare by name, then
/// number, and two rows share it exactly when they share name and number.
pub open spec fn slot_key(rank: Rank) -> int {
    rank.name.index() * 65536 + rank.number
}

/// Does row `j` begin a run of rows with one rank name and number?
pub open spec fn is_run_start(m: Seq<FetchedRikishiRow>, j: int) -> bool {
    j == 0 || slot_key(m[j - 1].rank) != slot_key(m[j].rank)
}

/// The end of the run that holds row `j`, from `j` on.
pub open spec fn run_end(m: Seq<FetchedRikishiRow>, j: int) -> int
    decreases m.len() - j,
{
    if j + 1 >= m.len() || is_run_start(m, j + 1) {
        j + 1
    } else {
        run_end(m, j + 1)
    }
}

/// Is run `a` listed before run `b`: by rank name and number, and in the order
/// read where those are equal?
pub open spec fn listed_before(m: Seq<FetchedRikishiRow>, a: int, b: int) -> bool {
    ||| slot_key(m[a].rank) < slot_key(m[b].rank)
    ||| (slot_key(m[a].rank) == slot_key(m[b].rank) && a < b)
}

/// Is `order` the first rows of all runs, each once, in listing order?
pub open spec fn is_run_order(m: Seq<FetchedRikishiRow>, order: Seq<int>) -> bool {
    &&& forall|k: int| 0 <= k < order.len() ==> 0 <= #[trigger] order[k] < m.len() && is_run_start(m, order[k])
    &&& forall|j: int| 0 <= j < m.len() && #[trigger] is_run_start(m, j) ==> order.contains(j)
    &&& forall|a: int, b: int| 0 <= a < b < order.len() ==> listed_before(m, #[trigger] order[a], #[trigger] order[b])
}

/// The runs of `m` in listing order, by their first rows.
pub open spec fn run_order(m: Seq<FetchedRikishiRow>) -> Seq<int> {
    choose|order: Seq<int>| is_run_order(m, order)
}

/// There is one listing order of the runs: two sequences that both list every run
/// once, in order, are the same.
pub proof fn lemma_run_order_unique(m: Seq<FetchedRikishiRow>, o1: Seq<int>, o2: Seq<int>)
    requires
        is_run_order(m, o1),
        is_run_order(m, o2),
    ensures
        o1 == o2,
{
    lemma_sorted_unique(m, o1, o2);
}

/// Two sequences of rows, each strictly in listing order, with the same members,
/// are equal.
proof fn lemma_sorted_unique(m: Seq<FetchedRikishiRow>, o1: Seq<int>, o2: Seq<int>)
    requires
        forall|a: int, b: int| 0 <= a < b < o1.len() ==> listed_before(m, #[trigger] o1[a], #[trigger] o1[b]),
        forall|a: int, b: int| 0 <= a < b < o2.len() ==> listed_before(m, #[trigger] o2[a], #[trigger] o2[b]),
        forall|x: int| o1.contains(x) <==> o2.contains(x),
    ensures
        o1 == o2,
    decreases o1.len(),
{
    if o1.len() == 0 {
        if o2.len() > 0 {
            assert(o2.contains(o2[0]));
        }
        assert(o1 =~= o2);
    } else {
        assert(o1.contains(o1[0]));
        let b = choose|b: int| 0 <= b < o2.len() && o2[b] == o1[0];
        assert(o2.contains(o2[0]));
        let a = choose|a: int| 0 <= a < o1.len() && o1[a] == o2[0];
        if a > 0 && b > 0 {
            assert(listed_before(m, o1[0], o1[a]));
            assert(listed_before(m, o2[0], o2[b]));
            assert(false);
        }
        assert(o1[0] == o2[0]);
        let r1 = o1.drop_first();
        let r2 = o2.drop_first();
        assert forall|x: int| r1.contains(x) implies r2.contains(x) by {
            let i = choose|i: int| 0 <= i < r1.len() && r1[i] == x;
            assert(o1[i + 1] == x);
            assert(listed_before(m, o1[0], o1[i + 1]));
            assert(o2.contains(x));
            let j = choose|j: int| 0 <= j < o2.len() && o2[j] == x;
            assert(j != 0);
            assert(r2[j - 1] == x);
        }
        assert forall|x: int| r2.contains(x) implies r1.contains(x) by {
            let i = choose|i: int| 0 <= i < r2.len() && r2[i] == x;
            assert(o2[i + 1] == x);
            assert(listed_before(m, o2[0], o2[i + 1]));
            assert(o1.contains(x));
            let j = choose|j: int| 0 <= j < o1.len() && o1[j] == x;
            assert(j != 0);
            assert(r1[j - 1] == x);
        }
        assert forall|a: int, c: int| 0 <= a < c < r1.len() implies listed_before(m, #[trigger] r1[a], #[trigger] r1[c]) by {
            assert(listed_before(m, o1[a + 1], o1[c + 1]));
        }
        assert forall|a: int, c: int| 0 <= a < c < r2.len() implies listed_before(m, #[trigger] r2[a], #[trigger] r2[c]) by {
            assert(listed_before(m, o2[a + 1], o2[c + 1]));
        }
        lemma_sorted_unique(m, r1, r2);
        assert(o1 =~= seq![o1[0]] + r1);
        assert(o2 =~= seq![o2[0]] + r2);
    }
}

/// The rank name and number of `rank` as one integer (see `slot_key`).
fn rank_slot_key(rank: &Rank) -> (k: u32)
    ensures
        k == slot_key(*rank),
{
    (rank.name.position() as u32) * 65536 + rank.number as u32
}

/// Do `pos` hold the positions of the top-division rows of `rows`, in order?
pub open spec fn positions_ok(rows: Seq<FetchedRikishiRow>, pos: Seq<usize>) -> bool {
    &&& pos.len() == makuuchi_rows(rows).len()
    &&& forall|j: int| 0 <= j < pos.len() ==> (#[trigger] pos[j]) < rows.len()
        && rows[pos[j] as int] == makuuchi_rows(rows)[j]
}

/// The positions of the top-division rows.
fn makuuchi_positions(rows: &Vec<FetchedRikishiRow>) -> (pos: Vec<usize>)
    ensures
        positions_ok(rows@, pos@),
{
    let mut pos: Vec<usize> = Vec::new();
    let mut i: usize = 0;
    while i < rows.len()
        invariant
            i <= rows@.len(),
            pos@.len() == makuuchi_rows(rows@.take(i as int)).len(),
            forall|j: int| 0 <= j < pos@.len() ==> (#[trigger] pos@[j]) < i
                && rows@[pos@[j] as int] == makuuchi_rows(rows@.take(i as int))[j],
        decreases rows@.len() - i,
    {
        proof {
            reveal(Seq::filter);
            assert(rows@.take(i + 1).drop_last() =~= rows@.take(i as int));
        }
        if rows[i].rank.is_makuuchi() {
            pos.push(i);
        }
        i = i + 1;
    }
    proof {
        assert(rows@.take(rows@.len() as int) =~= rows@);
    }
    pos
}

/// The slot key of top-division row `j`.
fn key_at(rows: &Vec<FetchedRikishiRow>, pos: &Vec<usize>, j: usize) -> (k: u32)
    requires
        positions_ok(rows@, pos@),
        j < pos@.len(),
    ensures
        k == slot_key(makuuchi_rows(rows@)[j as int].rank),
{
    rank_slot_key(&rows[pos[j]].rank)
}

/// The positions as integers.
pub open spec fn as_ints(s: Seq<usize>) -> Seq<int> {
    s.map_values(|x: usize| x as int)
}

/// The first rows of the runs of top-division rows, in listing order.
fn runs_in_order(rows: &Vec<FetchedRikishiRow>, pos: &Vec<usize>) -> (order: Vec<usize>)
    requires
        positions_ok(rows@, pos@),
    ensures
        is_run_order(makuuchi_rows(rows@), as_ints(order@)),
{
    let ghost m = makuuchi_rows(rows@);
    let n = pos.len();
    let mut order: Vec<usize> = Vec::new();
    let mut j: usize = 0;
    while j < n
        invariant
            positions_ok(rows@, pos@),
            m == makuuchi_rows(rows@),
            n == pos@.len(),
            n == m.len(),
            j <= n,
            forall|k: int| 0 <= k < order@.len() ==> (#[trigger] order@[k]) < j && is_run_start(m, order@[k] as int),
            forall|i: int| 0 <= i < j && #[trigger] is_run_start(m, i) ==> order@.contains(i as usize),
            forall|a: int, b: int| 0 <= a < b < order@.len() ==> listed_before(m, #[trigger] order@[a] as int, #[trigger] order@[b] as int),
        decreases n - j,
    {
        let kj = key_at(rows, pos, j);
        let starts = j == 0 || key_at(rows, pos, j - 1) != kj;
        if starts {
            let mut p: usize = 0;
            while p < order.len() && key_at(rows, pos, order[p]) <= kj
                invariant
                    positions_ok(rows@, pos@),
                    m == makuuchi_rows(rows@),
                    n == pos@.len(),
                    j < n,
                    kj == slot_key(m[j as int].rank),
                    p <= order@.len(),
                    forall|k: int| 0 <= k < order@.len() ==> (#[trigger] order@[k]) < j,
                    forall|q: int| 0 <= q < p ==> slot_key(m[#[trigger] order@[q] as int].rank) <= kj,
                decreases order@.len() - p,
            {
                p = p + 1;
            }
            let ghost old_order = order@;
            order.insert(p, j);
            proof {
                assert forall|a: int, b: int| 0 <= a < b < order@.len() implies listed_before(
                    m,
                    #[trigger] order@[a] as int,
                    #[trigger] order@[b] as int,
                ) by {
                    if b < p {
                        assert(order@[a] == old_order[a] && order@[b] == old_order[b]);
                    } else if b == p {
                        assert(order@[a] == old_order[a]);
                    } else if a == p {
                        assert(order@[b] == old_order[b - 1]);
                        assert(slot_key(m[old_order[p as int] as int].rank) > kj);
                        if b - 1 > p {
                            assert(listed_before(m, old_order[p as int] as int, old_order[b - 1] as int));
                        }
                    } else if a < p {
                        assert(order@[a] == old_order[a] && order@[b] == old_order[b - 1]);
                    } else {
                        assert(order@[a] == old_order[a - 1] && order@[b] == old_order[b - 1]);
                    }
                }
                assert forall|i: int| 0 <= i < j + 1 && #[trigger] is_run_start(m, i) implies order@.contains(i as usize) by {
                    if i == j {
                        assert(order@[p as int] == j);
                    } else {
                        let w = choose|w: int| 0 <= w < old_order.len() && old_order[w] == i as usize;
                        if w < p {
                            assert(order@[w] == i as usize);
                        } else {
                            assert(order@[w + 1] == i as usize);
                        }
                    }
                }
            }
        }
        j = j + 1;
    }
    proof {
        let o = as_ints(order@);
        assert forall|i: int| 0 <= i < m.len() && #[trigger] is_run_start(m, i) implies o.contains(i) by {
            let w = choose|w: int| 0 <= w < order@.len() && order@[w] == i as usize;
            assert(o[w] == i);
        }
    }
    order
}

/// The last row among rows `s..e` on `side`.
pub open spec fn last_on_side(m: Seq<FetchedRikishiRow>, s: int, e: int, side: RankSide) -> Option<int>
    decreases e - s,
{
    if e <= s {
        None
    } else if m[e - 1].rank.side == side {
        Some(e - 1)
    } else {
        last_on_side(m, s, e - 1, side)
    }
}

/// The first row of the block of rows that share the full rank of row `t`, looking
/// no further back than row `s`.
pub open spec fn block_start(m: Seq<FetchedRikishiRow>, s: int, t: int) -> int
    decreases t - s,
{
    if t > s && m[t - 1].rank == m[t].rank {
        block_start(m, s, t - 1)
    } else {
        t
    }
}

/// Do rows `u..v` all have the rank of row `u`?
pub open spec fn one_rank(m: Seq<FetchedRikishiRow>, u: int, v: int) -> bool {
    forall|k: int| u <= k < v ==> (#[trigger] m[k]).rank == m[u].rank
}

/// How many of rows `u..v` record a bout with outcome `win`.
pub open spec fn count_results(m: Seq<FetchedRikishiRow>, u: int, v: int, win: bool) -> nat
    decreases v - u,
{
    if v <= u {
        0
    } else {
        count_results(m, u, v - 1, win) + if m[v - 1].win == Some(win) { 1nat } else { 0nat }
    }
}

/// The outcome that the last of rows `u..v` for day `d` records, if any row is for
/// that day.
pub open spec fn day_result(m: Seq<FetchedRikishiRow>, u: int, v: int, d: int) -> Option<bool>
    decreases v - u,
{
    if v <= u {
        None
    } else if m[v - 1].day == Some(d as u8) {
        m[v - 1].win
    } else {
        day_result(m, u, v - 1, d)
    }
}

/// Is `r` the rikishi that rows `u..v` describe: named by the first of them, with
/// the wins, losses and daily results of all of them?
pub open spec fn is_rikishi_of(r: BashoRikishi, m: Seq<FetchedRikishiRow>, u: int, v: int, picks: Set<RikishiId>) -> bool {
    &&& r.id == m[u].rikishi_id
    &&& r.name@ == m[u].family_name@
    &&& r.rank == m[u].rank
    &&& r.picks == m[u].picks
    &&& r.is_kyujyo == m[u].kyujyo
    &&& r.is_player_pick == picks.contains(m[u].rikishi_id)
    &&& r.wins == count_results(m, u, v, true)
    &&& r.losses == count_results(m, u, v, false)
    &&& r.results@.len() == 15
    &&& forall|d: int| 0 <= d < 15 ==> #[trigger] r.results@[d] == day_result(m, u, v, d + 1)
}

/// Are the days of the rows real days of a basho, 1 to 15?
#[verifier::opaque]
pub open spec fn days_ok(m: Seq<FetchedRikishiRow>) -> bool {
    forall|j: int| 0 <= j < m.len() ==> ((#[trigger] m[j]).day matches Some(d) ==> 1 <= d <= 15)
}

/// Does no block of rows with one rank count more than 255 wins or 255 losses?
#[verifier::opaque]
pub open spec fn counts_fit(m: Seq<FetchedRikishiRow>) -> bool {
    forall|u: int, v: int|
        0 <= u < v <= m.len() && #[trigger] one_rank(m, u, v) ==> count_results(m, u, v, true) <= 255
            && count_results(m, u, v, false) <= 255
}

/// Counting over fewer rows counts no more.
proof fn lemma_count_monotone(m: Seq<FetchedRikishiRow>, u: int, j: int, v: int, win: bool)
    requires
        u <= j <= v,
    ensures
        count_results(m, u, j, win) <= count_results(m, u, v, win),
    decreases v - j,
{
    if j < v {
        lemma_count_monotone(m, u, j, v - 1, win);
    }
}

/// The rikishi that top-division rows `u..v` describe.
fn rikishi_of(
    rows: &Vec<FetchedRikishiRow>,
    pos: &Vec<usize>,
    u: usize,
    v: usize,
    picks: &HashSet<RikishiId>,
) -> (r: BashoRikishi)
    requires
        positions_ok(rows@, pos@),
        u < v <= pos@.len(),
        days_ok(makuuchi_rows(rows@)),
        count_results(makuuchi_rows(rows@), u as int, v as int, true) <= 255,
        count_results(makuuchi_rows(rows@), u as int, v as int, false) <= 255,
    ensures
        is_rikishi_of(r, makuuchi_rows(rows@), u as int, v as int, picks@),
{
    broadcast use vstd::std_specs::hash::group_hash_axioms;
    let ghost m = makuuchi_rows(rows@);
    let mut results: [Option<bool>; 15] = [None, None, None, None, None, None, None, None, None, None, None, None, None, None, None];
    let mut wins: u8 = 0;
    let mut losses: u8 = 0;
    let mut j: usize = u;
    while j < v
        invariant
            positions_ok(rows@, pos@),
            m == makuuchi_rows(rows@),
            u <= j <= v <= pos@.len(),
            days_ok(m),
            count_results(m, u as int, v as int, true) <= 255,
            count_results(m, u as int, v as int, false) <= 255,
            wins == count_results(m, u as int, j as int, true),
            losses == count_results(m, u as int, j as int, false),
            results@.len() == 15,
            forall|d: int| 0 <= d < 15 ==> #[trigger] results@[d] == day_result(m, u as int, j as int, d + 1),
        decreases v - j,
    {
        proof {
            lemma_count_monotone(m, u as int, j as int + 1, v as int, true);
            lemma_count_monotone(m, u as int, j as int + 1, v as int, false);
        }
        let row = &rows[pos[j]];
        assert(*row == m[j as int]);
        proof { reveal(days_ok); }
        match row.win {
            Some(true) => { wins = wins + 1; },
            Some(false) => { losses = losses + 1; },
            None => {},
        }
        match row.day {
            Some(day) => {
                results[(day - 1) as usize] = row.win;
            },
            None => {},
        }
        j = j + 1;
    }
    let first = &rows[pos[u]];
    BashoRikishi {
        id: first.rikishi_id,
        name: first.family_name.clone(),
        rank: first.rank,
        results: results,
        wins: wins,
        losses: losses,
        picks: first.picks,
        is_player_pick: picks.contains(&first.rikishi_id),
        is_kyujyo: first.kyujyo,
    }
}

/// Is `slot` the rikishi of the last block of rows `s..e` on `side`, or empty when
/// no row is on that side?
pub open spec fn side_ok(
    slot: Option<BashoRikishi>,
    m: Seq<FetchedRikishiRow>,
    s: int,
    e: int,
    side: RankSide,
    picks: Set<RikishiId>,
) -> bool {
    match last_on_side(m, s, e, side) {
        None => slot is None,
        Some(t) => slot matches Some(r) && is_rikishi_of(r, m, block_start(m, s, t), t + 1, picks),
    }
}

/// The label of a rank's line, as in `M12`: name and number without the side.
pub open spec fn rank_label(rank: Rank) -> Seq<char> {
    rank.name.short_name() + decimal(rank.number as nat)
}

/// Is `b` the line for the run of rows that begins at row `s`?
#[verifier::opaque]
pub open spec fn is_entry_of(b: BashoRikishiByRank, m: Seq<FetchedRikishiRow>, s: int, picks: Set<RikishiId>) -> bool {
    &&& b.rank@ == rank_label(m[s].rank)
    &&& b.rank_group == m[s].rank.spec_group()
    &&& side_ok(b.east, m, s, run_end(m, s), RankSide::East, picks)
    &&& side_ok(b.west, m, s, run_end(m, s), RankSide::West, picks)
}

/// The end of the run of top-division rows that begins at row `s`.
fn run_end_at(rows: &Vec<FetchedRikishiRow>, pos: &Vec<usize>, s: usize) -> (e: usize)
    requires
        positions_ok(rows@, pos@),
        s < pos@.len(),
    ensures
        e == run_end(makuuchi_rows(rows@), s as int),
        s < e <= pos@.len(),
{
    let ghost m = makuuchi_rows(rows@);
    let n = pos.len();
    let mut e: usize = s + 1;
    while e < pos.len() && key_at(rows, pos, e) == key_at(rows, pos, e - 1)
        invariant
            positions_ok(rows@, pos@),
            m == makuuchi_rows(rows@),
            s < e <= pos@.len(),
            run_end(m, s as int) == run_end(m, e - 1),
        decreases pos@.len() - e,
    {
        e = e + 1;
    }
    e
}

/// The rikishi of the last block of top-division rows `s..e` on `side`.
fn side_slot(
    rows: &Vec<FetchedRikishiRow>,
    pos: &Vec<usize>,
    s: usize,
    e: usize,
    side: RankSide,
    picks: &HashSet<RikishiId>,
) -> (slot: Option<BashoRikishi>)
    requires
        positions_ok(rows@, pos@),
        s < e <= pos@.len(),
        days_ok(makuuchi_rows(rows@)),
        counts_fit(makuuchi_rows(rows@)),
    ensures
        side_ok(slot, makuuchi_rows(rows@), s as int, e as int, side, picks@),
{
    let ghost m = makuuchi_rows(rows@);
    let mut t: usize = e;
    while t > s && rows[pos[t - 1]].rank.side != side
        invariant
            positions_ok(rows@, pos@),
            m == makuuchi_rows(rows@),
            s <= t <= e <= pos@.len(),
            last_on_side(m, s as int, e as int, side) == last_on_side(m, s as int, t as int, side),
        decreases t,
    {
        t = t - 1;
    }
    if t == s {
        None
    } else {
        let last = t - 1;
        let mut u: usize = last;
        while u > s && rows[pos[u - 1]].rank == rows[pos[u]].rank
            invariant
                positions_ok(rows@, pos@),
                m == makuuchi_rows(rows@),
                s <= u <= last < e <= pos@.len(),
                block_start(m, s as int, last as int) == block_start(m, s as int, u as int),
                one_rank(m, u as int, last + 1),
            decreases u,
        {
            u = u - 1;
        }
        assert(one_rank(m, u as int, last + 1));
        reveal(counts_fit);
        Some(rikishi_of(rows, pos, u, last + 1, picks))
    }
}

/// The line for the run of top-division rows that begins at row `s`.
fn entry_of(rows: &Vec<FetchedRikishiRow>, pos: &Vec<usize>, s: usize, picks: &HashSet<RikishiId>) -> (b: BashoRikishiByRank)
    requires
        positions_ok(rows@, pos@),
        s < pos@.len(),
        days_ok(makuuchi_rows(rows@)),
        counts_fit(makuuchi_rows(rows@)),
    ensures
        is_entry_of(b, makuuchi_rows(rows@), s as int, picks@),
        b.rank_group == makuuchi_rows(rows@)[s as int].rank.spec_group(),
{
    reveal(is_entry_of);
    let e = run_end_at(rows, pos, s);
    let rank = rows[pos[s]].rank;
    let mut label = rank.name.to_string();
    push_decimal(&mut label, rank.number as u64);
    let east = side_slot(rows, pos, s, e, RankSide::East, picks);
    let west = side_slot(rows, pos, s, e, RankSide::West, picks);
    BashoRikishiByRank { rank: label, rank_group: rank.group(), east: east, west: west }
}

/// How many times the rank group changes from one line to the next among the
/// first `k + 1` lines.
pub open spec fn changes_upto(groups: Seq<RankGroup>, k: int) -> int
    decreases k,
{
    if k <= 0 {
        0
    } else {
        changes_upto(groups, k - 1) + if groups[k - 1] != groups[k] { 1int } else { 0int }
    }
}

/// The rank groups of the runs, in listing order.
pub open spec fn run_groups(m: Seq<FetchedRikishiRow>, order: Seq<int>) -> Seq<RankGroup> {
    Seq::new(order.len(), |k: int| m[order[k]].rank.spec_group())
}

/// Is `b` a boundary line?
pub open spec fn is_boundary(b: BashoRikishiByRank) -> bool {
    &&& b.rank@ == seq!['b', 'o', 'u', 'n', 'd', 'a', 'r', 'y']
    &&& b.rank_group == RankGroup(255)
    &&& b.east is None
    &&& b.west is None
}

/// Are `lines` the lines of the runs in `order`, with a boundary line before each
/// run whose rank group differs from the previous run's?
pub open spec fn lines_ok(
    lines: Seq<BashoRikishiByRank>,
    m: Seq<FetchedRikishiRow>,
    order: Seq<int>,
    picks: Set<RikishiId>,
) -> bool {
    let groups = run_groups(m, order);
    &&& lines.len() == order.len() + changes_upto(groups, order.len() - 1)
    &&& forall|k: int|
        0 <= k < order.len() ==> is_entry_of(lines[k + changes_upto(groups, k)], m, #[trigger] order[k], picks)
    &&& forall|k: int|
        1 <= k < order.len() && groups[k - 1] != groups[k] ==> is_boundary(
            lines[k + changes_upto(groups, k) - 1],
        ) && #[trigger] order[k] == order[k]
}

/// A rikishi as a sequence of none or one.
pub open spec fn opt_seq(r: Option<BashoRikishi>) -> Seq<BashoRikishi> {
    match r {
        Some(r) => seq![r],
        None => seq![],
    }
}

/// The rikishi of the lines, East before West, in line order.
pub open spec fn listed_rikishi(lines: Seq<BashoRikishiByRank>) -> Seq<BashoRikishi>
    decreases lines.len(),
{
    if lines.len() == 0 {
        seq![]
    } else {
        listed_rikishi(lines.drop_last()) + opt_seq(lines.last().east) + opt_seq(lines.last().west)
    }
}

/// The position of the last rikishi with id `id`.
pub open spec fn last_with_id(l: Seq<BashoRikishi>, id: RikishiId) -> Option<int>
    decreases l.len(),
{
    if l.len() == 0 {
        None
    } else if l.last().id == id {
        Some(l.len() - 1)
    } else {
        last_with_id(l.drop_last(), id)
    }
}

/// Do the two describe the same rikishi with the same results?
pub open spec fn same_rikishi(a: BashoRikishi, b: BashoRikishi) -> bool {
    &&& a.id == b.id
    &&& a.name@ == b.name@
    &&& a.rank == b.rank
    &&& a.results@ == b.results@
    &&& a.wins == b.wins
    &&& a.losses == b.losses
    &&& a.picks == b.picks
    &&& a.is_player_pick == b.is_player_pick
    &&& a.is_kyujyo == b.is_kyujyo
}

/// Does `map` hold, for each id of the listed rikishi, the last one listed with it,
/// and nothing else?
pub open spec fn by_id_ok(map: Map<RikishiId, BashoRikishi>, l: Seq<BashoRikishi>) -> bool {
    forall|id: RikishiId|
        #![trigger map.contains_key(id)]
        #![trigger last_with_id(l, id)]
        match last_with_id(l, id) {
            Some(i) => map.contains_key(id) && same_rikishi(map[id], l[i]),
            None => !map.contains_key(id),
        }
}

/// What `last_with_id` finds lies in the sequence.
proof fn lemma_last_with_id_below(l: Seq<BashoRikishi>, id: RikishiId)
    ensures
        last_with_id(l, id) matches Some(i) ==> 0 <= i < l.len() && l[i].id == id,
    decreases l.len(),
{
    if l.len() > 0 {
        lemma_last_with_id_below(l.drop_last(), id);
    }
}

/// Entering one more rikishi keeps the map right.
proof fn lemma_by_id_insert(map: Map<RikishiId, BashoRikishi>, l: Seq<BashoRikishi>, r: BashoRikishi, copy: BashoRikishi)
    requires
        by_id_ok(map, l),
        same_rikishi(copy, r),
    ensures
        by_id_ok(map.insert(r.id, copy), l.push(r)),
{
    let l2 = l.push(r);
    let map2 = map.insert(r.id, copy);
    assert(l2.drop_last() =~= l);
    assert forall|id: RikishiId| #![trigger last_with_id(l2, id)]
        match last_with_id(l2, id) {
            Some(i) => map2.contains_key(id) && same_rikishi(map2[id], l2[i]),
            None => !map2.contains_key(id),
        } by {
        if id != r.id {
            lemma_last_with_id_below(l, id);
            assert(last_with_id(l2, id) == last_with_id(l, id));
            if map.contains_key(id) {
            }
        }
    }
}

/// The basho page's table of the top division: its lines, and each listed rikishi
/// by id.
pub struct FetchBashoRikishi {
    pub by_rank: Vec<BashoRikishiByRank>,
    pub by_id: HashMap<RikishiId, BashoRikishi>,
}

impl FetchBashoRikishi {
    /// Builds the table from the rows read for a basho, ordered by rank and then
    /// by rikishi and day. Only top-division rows count. Rows are grouped into
    /// runs of one rank name and number; the runs are listed by name and number,
    /// each as one line with its East and West rikishi (the last block of rows on
    /// each side); a boundary line stands between two runs of different rank
    /// groups. Each rikishi's wins, losses and daily results come from the rows of
    /// his block, and he is a player's pick when `picks` holds his id.
    pub fn from_rows(rows: &Vec<FetchedRikishiRow>, picks: &HashSet<RikishiId>) -> (r: FetchBashoRikishi)
        requires
            days_ok(makuuchi_rows(rows@)),
            counts_fit(makuuchi_rows(rows@)),
        ensures
            lines_ok(r.by_rank@, makuuchi_rows(rows@), run_order(makuuchi_rows(rows@)), picks@),
            by_id_ok(r.by_id@, listed_rikishi(r.by_rank@)),
    {
        broadcast use vstd::std_specs::hash::group_hash_axioms;
        let ghost m = makuuchi_rows(rows@);
        let pos = makuuchi_positions(rows);
        let order = runs_in_order(rows, &pos);
        let ghost o = as_ints(order@);
        proof {
            lemma_run_order_unique(m, run_order(m), o);
        }
        proof {
            assert forall|k: int| 0 <= k < order@.len() implies #[trigger] order@[k] < pos@.len() by {
                assert(o[k] == order@[k] as int);
            }
        }
        let lines = lines_in_order(rows, &pos, &order, picks);
        let by_id = index_by_id(&lines);
        FetchBashoRikishi { by_rank: lines, by_id: by_id }
    }
}

/// The lines of the runs in `order`, with the boundary lines between rank groups.
fn lines_in_order(
    rows: &Vec<FetchedRikishiRow>,
    pos: &Vec<usize>,
    order: &Vec<usize>,
    picks: &HashSet<RikishiId>,
) -> (lines: Vec<BashoRikishiByRank>)
    requires
        positions_ok(rows@, pos@),
        days_ok(makuuchi_rows(rows@)),
        counts_fit(makuuchi_rows(rows@)),
        forall|k: int| 0 <= k < order@.len() ==> #[trigger] order@[k] < pos@.len(),
    ensures
        lines_ok(lines@, makuuchi_rows(rows@), as_ints(order@), picks@),
{
    let ghost m = makuuchi_rows(rows@);
    let ghost o = as_ints(order@);
    let ghost groups = run_groups(m, o);
    let mut lines: Vec<BashoRikishiByRank> = Vec::new();
    let mut prev_group = RankGroup(0);
    let mut k: usize = 0;
    while k < order.len()
        invariant
            positions_ok(rows@, pos@),
            m == makuuchi_rows(rows@),
            days_ok(m),
            counts_fit(m),
            forall|k: int| 0 <= k < order@.len() ==> #[trigger] order@[k] < pos@.len(),
            o == as_ints(order@),
            groups == run_groups(m, o),
            k <= o.len(),
            lines@.len() == k + changes_upto(groups, k - 1),
            k > 0 ==> prev_group == groups[k - 1],
            forall|j: int| 0 <= j < k ==> is_entry_of(lines@[j + changes_upto(groups, j)], m, #[trigger] o[j], picks@),
            forall|j: int|
                1 <= j < k && groups[j - 1] != groups[j] ==> is_boundary(
                    lines@[j + changes_upto(groups, j) - 1],
                ) && #[trigger] o[j] == o[j],
        decreases o.len() - k,
    {
        assert(o[k as int] == order@[k as int] as int);
        let entry = entry_of(rows, pos, order[k], picks);
        assert(entry.rank_group == groups[k as int]);
        let ghost before = lines@;
        if k > 0 && entry.rank_group != prev_group {
            lines.push(BashoRikishiByRank::make_boundary());
        }
        assert(forall|i: int| 0 <= i < before.len() ==> lines@[i] == before[i]);
        let ghost mid = lines@;
        prev_group = entry.rank_group;
        lines.push(entry);
        assert(forall|i: int| 0 <= i < mid.len() ==> lines@[i] == mid[i]);
        proof {
            assert forall|j: int| 0 <= j < k implies lines@[j + changes_upto(groups, j)] == before[j + changes_upto(groups, j)] by {
                lemma_changes_monotone(groups, j, k - 1);
            }
            assert forall|j: int| 1 <= j < k && groups[j - 1] != groups[j] implies lines@[j + changes_upto(groups, j) - 1] == before[j + changes_upto(groups, j) - 1] by {
                lemma_changes_monotone(groups, j, k - 1);
            }
        }
        k = k + 1;
    }
    lines
}

/// Each listed rikishi by id, the last one listed where an id is listed twice.
fn index_by_id(lines: &Vec<BashoRikishiByRank>) -> (by_id: HashMap<RikishiId, BashoRikishi>)
    ensures
        by_id_ok(by_id@, listed_rikishi(lines@)),
{
    broadcast use vstd::std_specs::hash::group_hash_axioms;
    let mut by_id: HashMap<RikishiId, BashoRikishi> = HashMap::new();
    let mut i: usize = 0;
    while i < lines.len()
        invariant
            i <= lines@.len(),
            by_id_ok(by_id@, listed_rikishi(lines@.take(i as int))),
        decreases lines@.len() - i,
    {
        let ghost l0 = listed_rikishi(lines@.take(i as int));
        assert(lines@.take(i + 1).drop_last() =~= lines@.take(i as int));
        assert(lines@.take(i + 1).last() == lines@[i as int]);
        let line = &lines[i];
        let ghost l1 = l0 + opt_seq(line.east);
        match &line.east {
            Some(r) => {
                let copy = r.duplicate();
                proof { lemma_by_id_insert(by_id@, l0, *r, copy); }
                by_id.insert(r.id, copy);
                assert(l0.push(*r) =~= l1);
            },
            None => {
                assert(l0 =~= l1);
            },
        }
        let ghost l2 = l1 + opt_seq(line.west);
        match &line.west {
            Some(r) => {
                let copy = r.duplicate();
                proof { lemma_by_id_insert(by_id@, l1, *r, copy); }
                by_id.insert(r.id, copy);
                assert(l1.push(*r) =~= l2);
            },
            None => {
                assert(l1 =~= l2);
            },
        }
        i = i + 1;
    }
    proof {
        assert(lines@.take(lines@.len() as int) =~= lines@);
    }
    by_id
}

/// Counting changes over more lines counts no fewer.
proof fn lemma_changes_monotone(groups: Seq<RankGroup>, j: int, k: int)
    requires
        j <= k,
    ensures
        0 <= changes_upto(groups, j) <= changes_upto(groups, k),
    decreases k - j,
{
    lemma_changes_nonneg(groups, j);
    if j < k {
        lemma_changes_monotone(groups, j, k - 1);
    }
}

/// No line count of changes is negative.
proof fn lemma_changes_nonneg(groups: Seq<RankGroup>, k: int)
    ensures
        0 <= changes_upto(groups, k),
    decreases k,
{
    if k > 0 {
        lemma_changes_nonneg(groups, k - 1);
    }
}

/// Counting from a later first row counts no more.
proof fn lemma_count_from_later(m: Seq<FetchedRikishiRow>, u: int, w: int, v: int, win: bool)
    requires
        u <= w <= v,
    ensures
        count_results(m, w, v, win) <= count_results(m, u, v, win),
    decreases v - w,
{
    if w < v {
        lemma_count_from_later(m, u, w, v - 1, win);
    }
}

/// Can `from_rows` take these rows: are their days real days, and does no block
/// of one rank count more than 255 wins or losses?
pub fn rows_fit(rows: &Vec<FetchedRikishiRow>) -> (r: bool)
    ensures
        r == (days_ok(makuuchi_rows(rows@)) && counts_fit(makuuchi_rows(rows@))),
{
    let ghost m = makuuchi_rows(rows@);
    let pos = makuuchi_positions(rows);
    let n = pos.len();
    let mut start: usize = 0;
    let mut wins: u32 = 0;
    let mut losses: u32 = 0;
    let mut j: usize = 0;
    while j < n
        invariant
            positions_ok(rows@, pos@),
            m == makuuchi_rows(rows@),
            n == m.len(),
            start <= j <= n,
            j > 0 ==> start < j,
            one_rank(m, start as int, j as int),
            start > 0 ==> m[start - 1].rank != m[start as int].rank,
            wins == count_results(m, start as int, j as int, true),
            losses == count_results(m, start as int, j as int, false),
            wins <= 255 && losses <= 255,
            forall|k: int| 0 <= k < j ==> ((#[trigger] m[k]).day matches Some(d) ==> 1 <= d <= 15),
            forall|u: int, v: int|
                0 <= u < v <= j && #[trigger] one_rank(m, u, v) ==> count_results(m, u, v, true) <= 255
                    && count_results(m, u, v, false) <= 255,
        decreases n - j,
    {
        let row = &rows[pos[j]];
        assert(*row == m[j as int]);
        match row.day {
            Some(d) => {
                if d < 1 || d > 15 {
                    proof {
                        reveal(days_ok);
                        assert(!((m[j as int]).day matches Some(d) ==> 1 <= d <= 15));
                    }
                    return false;
                }
            },
            None => {},
        }
        if j > 0 && rows[pos[j - 1]].rank != row.rank {
            start = j;
            wins = 0;
            losses = 0;
        }
        let ghost s = start as int;
        assert(wins == count_results(m, s, j as int, true));
        assert(count_results(m, s, j + 1, true) == count_results(m, s, j as int, true) + if m[j as int].win == Some(true) { 1nat } else { 0nat });
        assert(losses == count_results(m, s, j as int, false));
        assert(count_results(m, s, j + 1, false) == count_results(m, s, j as int, false) + if m[j as int].win == Some(false) { 1nat } else { 0nat });
        match row.win {
            Some(true) => { wins = wins + 1; },
            Some(false) => { losses = losses + 1; },
            None => {},
        }
        assert(wins == count_results(m, s, j + 1, true));
        assert(losses == count_results(m, s, j + 1, false));
        assert(one_rank(m, s, j + 1));
        if wins > 255 || losses > 255 {
            proof {
                reveal(counts_fit);
                assert(one_rank(m, s, j + 1));
            }
            return false;
        }
        proof {
            assert forall|u: int, v: int|
                0 <= u < v <= j + 1 && #[trigger] one_rank(m, u, v) implies count_results(m, u, v, true) <= 255
                    && count_results(m, u, v, false) <= 255 by {
                if v == j + 1 {
                    if u < s {
                        assert(m[s - 1].rank == m[u].rank && m[s].rank == m[u].rank);
                    }
                    lemma_count_from_later(m, s, u, j + 1, true);
                    lemma_count_from_later(m, s, u, j + 1, false);
                }
            }
        }
        j = j + 1;
    }
    proof {
        reveal(days_ok);
        reveal(counts_fit);
    }
    true
}

} // verus!
