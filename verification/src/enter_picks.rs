//! The `enter-picks` tool's rules: reading its arguments, and placing the five
//! rikishi named into the five rank groups.

use vstd::prelude::*;
use vstd::string::*;

use crate::basho::RikishiId;
use crate::basho_id::BashoId;
use crate::dates::ymd_date_parse;
use crate::rank::{Rank, RankGroup};
use crate::utf8_text::lit_string;
use crate::leaders::{lemma_rank_code_order, rank_code, rank_number};
use crate::lex::{
    key_order, key_view, keys_view, lemma_stably_sorted_transfer, lex_lt, stable_order, stably_sorted, text_order,
    texts_view, SortKey,
};

verus! {

/// Where the database is when neither `--db` nor the environment says.
pub const DEFAULT_DB_PATH: &'static str = "var/kachiclash.sqlite";

/// The tool's arguments.
#[derive(Debug)]
pub struct Args {
    pub db_path: String,
    pub player_name: String,
    pub basho_id: BashoId,
    pub rikishi: Vec<String>,
    pub assume_yes: bool,
}

/// Why the arguments could not be read.
#[derive(Debug)]
pub enum ArgsError {
    /// `--db` came last, without a path.
    DbNeedsPath,
    /// An option the tool does not know.
    UnknownOption(String),
    MissingPlayerName,
    MissingBashoId,
    /// The basho id is not of the form `YYYYMM`.
    InvalidBashoId(String),
    /// Not five picks; the number given.
    WrongPickCount(usize),
}

/// What stops the reading of the arguments before their end.
#[derive(Debug, PartialEq, Eq, Structural, Clone, Copy)]
pub enum ArgStop {
    Help,
    DbNeedsPath,
    /// The option at this position is unknown.
    UnknownOption(usize),
}

/// `s` with `p` taken off its front as many times as it is there
/// (`str::trim_start_matches`).
pub open spec fn trim_prefixes(s: Seq<char>, p: Seq<char>) -> Seq<char>
    decreases s.len(),
{
    if p.len() > 0 && s.len() >= p.len() && s.take(p.len() as int) == p {
        trim_prefixes(s.skip(p.len() as int), p)
    } else {
        s
    }
}

/// Does `s` begin with `p`?
pub open spec fn starts_with(s: Seq<char>, p: Seq<char>) -> bool {
    s.len() >= p.len() && s.take(p.len() as int) == p
}

/// The arguments from position `i` on read onto the database path, the `--yes`
/// flag and the positional arguments seen so far.
pub open spec fn scan_args(
    argv: Seq<Seq<char>>,
    i: int,
    db: Option<Seq<char>>,
    yes: bool,
    pos: Seq<Seq<char>>,
) -> Result<(Option<Seq<char>>, bool, Seq<Seq<char>>), ArgStop>
    decreases argv.len() - i,
{
    if i < 0 || i >= argv.len() {
        Ok((db, yes, pos))
    } else {
        let a = argv[i];
        if a == "-h"@ || a == "--help"@ {
            Err(ArgStop::Help)
        } else if a == "-y"@ || a == "--yes"@ {
            scan_args(argv, i + 1, db, true, pos)
        } else if a == "--db"@ {
            if i + 1 < argv.len() {
                scan_args(argv, i + 2, Some(argv[i + 1]), yes, pos)
            } else {
                Err(ArgStop::DbNeedsPath)
            }
        } else if starts_with(a, "--db="@) {
            scan_args(argv, i + 1, Some(trim_prefixes(a, "--db="@)), yes, pos)
        } else if a.len() > 0 && a[0] == '-' {
            Err(ArgStop::UnknownOption(i as usize))
        } else {
            scan_args(argv, i + 1, db, yes, pos.push(a))
        }
    }
}

/// The strings by their views.
pub open spec fn views(v: Seq<String>) -> Seq<Seq<char>> {
    v.map_values(|s: String| s@)
}

/// Is `r` what the arguments `argv` come to, with `env_db` the database path the
/// environment gives? Help is `Ok(None)`.
pub open spec fn args_result_ok(argv: Seq<Seq<char>>, env_db: Option<Seq<char>>, r: Result<Option<Args>, ArgsError>) -> bool {
    match scan_args(argv, 0, None, false, seq![]) {
        Err(ArgStop::Help) => r matches Ok(None),
        Err(ArgStop::DbNeedsPath) => r matches Err(ArgsError::DbNeedsPath),
        Err(ArgStop::UnknownOption(i)) => r matches Err(ArgsError::UnknownOption(a)) && a@ == argv[i as int],
        Ok((db, yes, pos)) => if pos.len() < 1 {
            r matches Err(ArgsError::MissingPlayerName)
        } else if pos.len() < 2 {
            r matches Err(ArgsError::MissingBashoId)
        } else if ymd_date_parse(pos[1] + seq!['0', '1']) is None {
            r matches Err(ArgsError::InvalidBashoId(a)) && a@ == pos[1]
        } else if pos.len() != 7 {
            r matches Err(ArgsError::WrongPickCount(n)) && n == pos.len() - 2
        } else {
            &&& r matches Ok(Some(args))
            &&& args.db_path@ == match db {
                Some(d) => d,
                None => match env_db {
                    Some(e) => e,
                    None => DEFAULT_DB_PATH@,
                },
            }
            &&& args.player_name@ == pos[0]
            &&& ymd_date_parse(pos[1] + seq!['0', '1']) matches Some(ym)
                && args.basho_id == (BashoId { year: ym.0 as u16, month: ym.1 as u8 })
            &&& views(args.rikishi@) == pos.subrange(2, 7)
            &&& args.assume_yes == yes
        },
    }
}

/// Does the string equal the literal?
fn is(s: &String, lit: &str) -> (r: bool)
    ensures
        r == (s@ == lit@),
{
    *s == lit_string(lit)
}

/// Does `s` begin with `p`?
fn has_prefix(s: &str, p: &str) -> (r: bool)
    ensures
        r == starts_with(s@, p@),
{
    let sl = s.unicode_len();
    let pl = p.unicode_len();
    if pl > sl {
        false
    } else {
        let head = s.substring_char(0, pl);
        lit_string(head) == lit_string(p)
    }
}

/// `s` with `p` taken off its front as many times as it is there.
fn trim_all_prefixes(s: &str, p: &str) -> (r: String)
    requires
        p@.len() > 0,
    ensures
        r@ == trim_prefixes(s@, p@),
{
    let mut rest: &str = s;
    loop
        invariant
            p@.len() > 0,
            trim_prefixes(rest@, p@) == trim_prefixes(s@, p@),
        ensures
            !starts_with(rest@, p@),
            trim_prefixes(rest@, p@) == trim_prefixes(s@, p@),
        decreases rest@.len(),
    {
        if has_prefix(rest, p) {
            let n = rest.unicode_len();
            let pl = p.unicode_len();
            rest = rest.substring_char(pl, n);
        } else {
            break;
        }
    }
    lit_string(rest)
}

impl Args {
    /// Reads the tool's arguments (without the program name); `env_db_path` is
    /// the database path the environment gives, if any. `Ok(None)` asks for the
    /// usage text.
    pub fn parse(argv: &Vec<String>, env_db_path: Option<String>) -> (r: Result<Option<Args>, ArgsError>)
        ensures
            args_result_ok(views(argv@), match env_db_path {
                Some(e) => Some(e@),
                None => None,
            }, r),
    {
        let ghost av = views(argv@);
        let mut db: Option<String> = None;
        let mut yes = false;
        let mut positional: Vec<String> = Vec::new();
        let mut i: usize = 0;
        assert(views(positional@) =~= Seq::<Seq<char>>::empty());
        while i < argv.len()
            invariant
                av == views(argv@),
                i <= argv@.len(),
                scan_args(av, 0, None, false, seq![]) == scan_args(av, i as int, match db {
                    Some(d) => Some(d@),
                    None => None,
                }, yes, views(positional@)),
            decreases argv@.len() - i,
        {
            let a = &argv[i];
            assert(av[i as int] == a@);
            if is(a, "-h") || is(a, "--help") {
                return Ok(None);
            } else if is(a, "-y") || is(a, "--yes") {
                yes = true;
                i = i + 1;
            } else if is(a, "--db") {
                if i + 1 < argv.len() {
                    assert(av[i + 1] == argv@[i + 1]@);
                    db = Some(argv[i + 1].clone());
                    i = i + 2;
                } else {
                    return Err(ArgsError::DbNeedsPath);
                }
            } else if has_prefix(a.as_str(), "--db=") {
                proof { reveal_strlit("--db="); }
                db = Some(trim_all_prefixes(a.as_str(), "--db="));
                i = i + 1;
            } else if a.as_str().unicode_len() > 0 && a.as_str().get_char(0) == '-' {
                return Err(ArgsError::UnknownOption(a.clone()));
            } else {
                let ghost before = positional@;
                positional.push(a.clone());
                proof {
                    assert(views(positional@) =~= views(before).push(a@));
                }
                i = i + 1;
            }
        }
        let ghost pos = views(positional@);
        if positional.len() < 1 {
            return Err(ArgsError::MissingPlayerName);
        }
        if positional.len() < 2 {
            return Err(ArgsError::MissingBashoId);
        }
        assert(pos[1] == positional@[1]@);
        let basho_id = match BashoId::from_str(positional[1].as_str()) {
            Ok(b) => b,
            Err(_) => {
                return Err(ArgsError::InvalidBashoId(positional[1].clone()));
            },
        };
        if positional.len() != 7 {
            return Err(ArgsError::WrongPickCount(positional.len() - 2));
        }
        let mut rikishi: Vec<String> = Vec::new();
        let mut k: usize = 2;
        while k < 7
            invariant
                positional@.len() == 7,
                pos == views(positional@),
                2 <= k <= 7,
                views(rikishi@) == pos.subrange(2, k as int),
            decreases 7 - k,
        {
            let ghost before = rikishi@;
            rikishi.push(positional[k].clone());
            proof {
                assert(views(rikishi@) =~= views(before).push(positional@[k as int]@));
                assert(pos.subrange(2, k + 1) =~= pos.subrange(2, k as int).push(pos[k as int]));
            }
            k = k + 1;
        }
        let db_path = match db {
            Some(d) => d,
            None => match env_db_path {
                Some(e) => e,
                None => lit_string(DEFAULT_DB_PATH),
            },
        };
        Ok(Some(Args {
            db_path,
            player_name: positional[0].clone(),
            basho_id,
            rikishi,
            assume_yes: yes,
        }))
    }
}

/// A rikishi named on the command line, as the banzuke has him.
#[derive(Debug)]
pub struct Pick {
    pub id: RikishiId,
    pub name: String,
    pub rank: Rank,
    pub is_kyujyo: bool,
}

impl Pick {
    /// A copy of the pick.
    pub fn duplicate(&self) -> (r: Pick)
        ensures
            r.id == self.id,
            r.name@ == self.name@,
            r.rank == self.rank,
            r.is_kyujyo == self.is_kyujyo,
    {
        Pick { id: self.id, name: self.name.clone(), rank: self.rank, is_kyujyo: self.is_kyujyo }
    }
}

/// Why the named rikishi cannot be the picks.
#[derive(Debug)]
pub enum PickError {
    /// No rikishi of the banzuke has the name.
    NoRikishi { name: String },
    /// Several rikishi of the banzuke have the name; how many.
    SeveralRikishi { name: String, count: usize },
    /// The rikishi is not in the top division.
    NotMakuuchi { name: String, rank: Rank },
    /// Two picks are in one rank group.
    SameGroup { first: String, first_rank: Rank, second: String, second_rank: Rank, group: RankGroup },
}

/// The one rikishi of the banzuke with the name asked for.
pub fn single_match(name: &String, matches: Vec<Pick>) -> (r: Result<Pick, PickError>)
    ensures
        matches@.len() == 0 ==> (r matches Err(PickError::NoRikishi { name: n }) && n@ == name@),
        matches@.len() == 1 ==> (r matches Ok(p) && p == matches@[0]),
        matches@.len() > 1 ==> (r matches Err(PickError::SeveralRikishi { name: n, count })
            && n@ == name@ && count == matches@.len()),
{
    let n = matches.len();
    if n == 0 {
        Err(PickError::NoRikishi { name: name.clone() })
    } else if n == 1 {
        let mut matches = matches;
        Ok(matches.remove(0))
    } else {
        Err(PickError::SeveralRikishi { name: name.clone(), count: n })
    }
}

/// The slot of a pick: its rank group, counted from 0.
pub open spec fn pick_slot(p: Pick) -> int {
    p.rank.spec_group().0 - 1
}

/// Is pick `i` out of place: not in the top division, or in the group of an
/// earlier pick?
pub open spec fn misplaced(picks: Seq<Pick>, i: int) -> bool {
    ||| !picks[i].rank.spec_is_makuuchi()
    ||| exists|j: int| 0 <= j < i && #[trigger] pick_slot(picks[j]) == pick_slot(picks[i])
}

/// The first out-of-place pick among the first `n`.
pub open spec fn first_misplaced(picks: Seq<Pick>, n: int) -> Option<int>
    decreases n,
{
    if n <= 0 {
        None
    } else if first_misplaced(picks, n - 1) is Some {
        first_misplaced(picks, n - 1)
    } else if misplaced(picks, n - 1) {
        Some(n - 1)
    } else {
        None
    }
}

/// The picks placed by rank group, checking each in turn: each must be in the top
/// division and in a group no earlier pick is in.
pub fn place_picks(picks: &Vec<Pick>) -> (r: Result<Vec<Pick>, PickError>)
    requires
        picks@.len() == 5,
    ensures
        match first_misplaced(picks@, 5) {
            Some(i) => if !picks@[i].rank.spec_is_makuuchi() {
                r matches Err(PickError::NotMakuuchi { name, rank }) && name@ == picks@[i].name@ && rank == picks@[i].rank
            } else {
                r matches Err(PickError::SameGroup { first, first_rank, second, second_rank, group })
                    && exists|j: int| 0 <= j < i && pick_slot(picks@[j]) == pick_slot(picks@[i])
                        && first@ == picks@[j].name@ && first_rank == picks@[j].rank
                        && second@ == picks@[i].name@ && second_rank == picks@[i].rank
                        && group == picks@[i].rank.spec_group()
            },
            None => {
                &&& r matches Ok(placed)
                &&& placed@.len() == 5
                &&& forall|g: int| 0 <= g < 5 ==> exists|k: int| 0 <= k < 5 && pick_slot(picks@[k]) == g
                    && (#[trigger] placed@[g]).id == picks@[k].id && placed@[g].name@ == picks@[k].name@
                    && placed@[g].rank == picks@[k].rank && placed@[g].is_kyujyo == picks@[k].is_kyujyo
            },
        },
{
    let mut slots: Vec<Option<usize>> = vec![None, None, None, None, None];
    let mut i: usize = 0;
    while i < 5
        invariant
            picks@.len() == 5,
            i <= 5,
            slots@.len() == 5,
            first_misplaced(picks@, i as int) is None,
            forall|g: int| 0 <= g < 5 ==> match #[trigger] slots@[g] {
                Some(k) => k < i && pick_slot(picks@[k as int]) == g,
                None => forall|k: int| 0 <= k < i ==> pick_slot(picks@[k]) != g,
            },
            forall|k: int| 0 <= k < i ==> 0 <= pick_slot(#[trigger] picks@[k]) < 5,
            forall|j: int, k: int| 0 <= j < k < i ==> pick_slot(#[trigger] picks@[j]) != pick_slot(#[trigger] picks@[k]),
        decreases 5 - i,
    {
        let p = &picks[i];
        if !p.rank.is_makuuchi() {
            proof { lemma_first_misplaced_stays(picks@, i as int + 1, 5); }
            return Err(PickError::NotMakuuchi { name: p.name.clone(), rank: p.rank });
        }
        let group = p.rank.group();
        let g = group.as_index();
        match slots[g] {
            Some(k) => {
                assert(pick_slot(picks@[k as int]) == pick_slot(picks@[i as int]));
                assert(misplaced(picks@, i as int));
                proof { lemma_first_misplaced_stays(picks@, i as int + 1, 5); }
                let other = &picks[k];
                return Err(PickError::SameGroup {
                    first: other.name.clone(),
                    first_rank: other.rank,
                    second: p.name.clone(),
                    second_rank: p.rank,
                    group,
                });
            },
            None => {
                assert(!misplaced(picks@, i as int));
                slots.set(g, Some(i));
            },
        }
        i = i + 1;
    }
    let mut placed: Vec<Pick> = Vec::new();
    let mut g: usize = 0;
    while g < 5
        invariant
            picks@.len() == 5,
            slots@.len() == 5,
            g <= 5,
            placed@.len() == g,
            forall|h: int| 0 <= h < 5 ==> match #[trigger] slots@[h] {
                Some(k) => k < 5 && pick_slot(picks@[k as int]) == h,
                None => forall|k: int| 0 <= k < 5 ==> pick_slot(picks@[k]) != h,
            },
            forall|k: int| 0 <= k < 5 ==> 0 <= pick_slot(#[trigger] picks@[k]) < 5,
            forall|j: int, k: int| 0 <= j < k < 5 ==> pick_slot(#[trigger] picks@[j]) != pick_slot(#[trigger] picks@[k]),
            forall|h: int| 0 <= h < g ==> exists|k: int| 0 <= k < 5 && pick_slot(picks@[k]) == h
                && (#[trigger] placed@[h]).id == picks@[k].id && placed@[h].name@ == picks@[k].name@
                && placed@[h].rank == picks@[k].rank && placed@[h].is_kyujyo == picks@[k].is_kyujyo,
        decreases 5 - g,
    {
        match slots[g] {
            Some(k) => {
                placed.push(picks[k].duplicate());
            },
            None => {
                proof { lemma_five_slots_filled(picks@, g as int); }
                assert(false);
            },
        }
        g = g + 1;
    }
    Ok(placed)
}

/// Five picks in five different slots out of five leave no slot empty.
proof fn lemma_five_slots_filled(picks: Seq<Pick>, g: int)
    requires
        picks.len() == 5,
        0 <= g < 5,
        forall|k: int| 0 <= k < 5 ==> 0 <= pick_slot(#[trigger] picks[k]) < 5,
        forall|j: int, k: int| 0 <= j < k < 5 ==> pick_slot(#[trigger] picks[j]) != pick_slot(#[trigger] picks[k]),
    ensures
        exists|k: int| 0 <= k < 5 && pick_slot(#[trigger] picks[k]) == g,
{
    let s0 = pick_slot(picks[0]);
    let s1 = pick_slot(picks[1]);
    let s2 = pick_slot(picks[2]);
    let s3 = pick_slot(picks[3]);
    let s4 = pick_slot(picks[4]);
    assert(s0 != s1 && s0 != s2 && s0 != s3 && s0 != s4);
    assert(s1 != s2 && s1 != s3 && s1 != s4);
    assert(s2 != s3 && s2 != s4 && s3 != s4);
    if s0 == g {
        assert(pick_slot(picks[0]) == g);
    } else if s1 == g {
        assert(pick_slot(picks[1]) == g);
    } else if s2 == g {
        assert(pick_slot(picks[2]) == g);
    } else if s3 == g {
        assert(pick_slot(picks[3]) == g);
    } else {
        assert(pick_slot(picks[4]) == g);
    }
}

/// Once an out-of-place pick is found, it stays the first one.
proof fn lemma_first_misplaced_stays(picks: Seq<Pick>, m: int, n: int)
    requires
        0 <= m <= n,
        first_misplaced(picks, m) is Some,
    ensures
        first_misplaced(picks, n) == first_misplaced(picks, m),
    decreases n - m,
{
    if m < n {
        lemma_first_misplaced_stays(picks, m, n - 1);
    }
}

/// The order of ranks: the higher first.
pub open spec fn rank_order() -> spec_fn(Rank, Rank) -> bool {
    |a: Rank, b: Rank| a.spec_lt(b)
}

/// The order a player's picks are shown in, by position: the highest rank first,
/// picks of one rank in the order given.
pub fn picks_by_rank(picks: &Vec<Pick>) -> (order: Vec<usize>)
    ensures
        stably_sorted(picks@.map_values(|p: Pick| p.rank), rank_order(), order@),
{
    let mut keys: Vec<SortKey> = Vec::new();
    let mut i: usize = 0;
    while i < picks.len()
        invariant
            i <= picks@.len(),
            keys@.len() == i,
            forall|k: int| 0 <= k < i ==> #[trigger] key_view(keys@[k]) == (rank_code(picks@[k].rank), Seq::<Seq<u8>>::empty()),
        decreases picks@.len() - i,
    {
        let k = SortKey { primary: rank_number(picks[i].rank), texts: Vec::new() };
        assert(texts_view(k.texts@) =~= Seq::<Seq<u8>>::empty());
        keys.push(k);
        i = i + 1;
    }
    let order = stable_order(&keys);
    proof {
        let kv = keys_view(keys@);
        let rk = picks@.map_values(|p: Pick| p.rank);
        assert forall|x: int, y: int|
            #![trigger rk[x], rk[y]]
            0 <= x < kv.len() && 0 <= y < kv.len() implies key_order()(kv[x], kv[y]) == rank_order()(rk[x], rk[y])
                && (kv[x] == kv[y]) == (rk[x] == rk[y]) by {
            assert(kv[x] == key_view(keys@[x]) && kv[y] == key_view(keys@[y]));
            lemma_rank_code_order(rk[x], rk[y]);
            assert(!lex_lt(Seq::<Seq<u8>>::empty(), Seq::<Seq<u8>>::empty(), text_order()));
        }
        lemma_stably_sorted_transfer(kv, key_order(), rk, rank_order(), order@);
    }
    order
}

/// The first among the first `n` picks that is in slot `g`.
pub open spec fn first_in_slot(picks: Seq<Pick>, g: int, n: int) -> Option<int>
    decreases n,
{
    if n <= 0 {
        None
    } else {
        match first_in_slot(picks, g, n - 1) {
            Some(j) => Some(j),
            None => if pick_slot(picks[n - 1]) == g { Some(n - 1) } else { None },
        }
    }
}

/// Checks one more pick against those taken before, as the picks are named: it
/// must be in the top division, and in no slot an earlier pick is in (the first
/// such earlier pick is named).
pub fn check_next_pick(earlier: &Vec<Pick>, p: &Pick) -> (r: Result<(), PickError>)
    ensures
        !p.rank.spec_is_makuuchi() ==> (r matches Err(PickError::NotMakuuchi { name, rank })
            && name@ == p.name@ && rank == p.rank),
        p.rank.spec_is_makuuchi() ==> match first_in_slot(earlier@, pick_slot(*p), earlier@.len() as int) {
            Some(j) => r matches Err(PickError::SameGroup { first, first_rank, second, second_rank, group })
                && first@ == earlier@[j].name@ && first_rank == earlier@[j].rank
                && second@ == p.name@ && second_rank == p.rank && group == p.rank.spec_group(),
            None => r is Ok,
        },
{
    if !p.rank.is_makuuchi() {
        return Err(PickError::NotMakuuchi { name: p.name.clone(), rank: p.rank });
    }
    let group = p.rank.group();
    let g = group.get();
    let mut i: usize = 0;
    while i < earlier.len()
        invariant
            i <= earlier@.len(),
            g == p.rank.spec_group().0,
            group == p.rank.spec_group(),
            p.rank.spec_is_makuuchi(),
            first_in_slot(earlier@, pick_slot(*p), i as int) is None,
        decreases earlier@.len() - i,
    {
        if earlier[i].rank.group().get() == g {
            proof { lemma_first_in_slot_stays(earlier@, pick_slot(*p), i as int + 1, earlier@.len() as int); }
            return Err(PickError::SameGroup {
                first: earlier[i].name.clone(),
                first_rank: earlier[i].rank,
                second: p.name.clone(),
                second_rank: p.rank,
                group,
            });
        }
        i = i + 1;
    }
    Ok(())
}

/// Once found among the first `m`, the first pick in a slot stays the first.
proof fn lemma_first_in_slot_stays(picks: Seq<Pick>, g: int, m: int, n: int)
    requires
        0 <= m <= n,
        first_in_slot(picks, g, m) is Some,
    ensures
        first_in_slot(picks, g, n) == first_in_slot(picks, g, m),
    decreases n - m,
{
    if m < n {
        lemma_first_in_slot_stays(picks, g, m, n - 1);
    }
}

} // verus!
