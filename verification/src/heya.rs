//! Heya: groups of players led by an oyakata, with limits on their names, their
//! members and how many a player may join or host.

use vstd::prelude::*;
use vstd::string::*;

use crate::basho_id::{BashoId, BashoRange};
use crate::player::PlayerId;
use crate::text::{
    comma_pieces, lemma_comma_pieces_nonempty, lemma_pieces_prefix, parse_u16, parse_unsigned,
    push_signed_decimal, signed_decimal,
};
use crate::utf8_text::lit_string;

verus! {

/// The most members a heya may have.
pub const MEMBER_MAX: usize = 50;
/// The most heya a player may belong to.
pub const JOIN_MAX: usize = 5;
/// The most heya a player may host.
pub const HOST_MAX: usize = 3;
/// The shortest heya name, in bytes.
pub const NAME_LENGTH_MIN: usize = 3;
/// The longest heya name, in bytes.
pub const NAME_LENGTH_MAX: usize = 30;

/// The id of a heya.
pub type HeyaId = i64;

/// Why a change to heya would break their rules.
#[derive(Debug)]
pub enum HeyaError {
    NameLength,
    TooManyHeyas { player: PlayerId },
    HostingTooMany { player: PlayerId },
    Full { name: String },
    OyakataCannotLeave,
}

impl HeyaError {
    /// The message shown for the error.
    pub open spec fn spec_what(&self) -> Seq<char> {
        match self {
            HeyaError::NameLength => "Name must be 3 to 30 characters"@,
            HeyaError::TooManyHeyas { player } => "Player "@ + signed_decimal(player.0 as int) + " in too many heyas (max 5)"@,
            HeyaError::HostingTooMany { player } => "Player "@ + signed_decimal(player.0 as int) + " hosting too many heyas (max 3)"@,
            HeyaError::Full { name } => "Heya "@ + name@ + " is full (max 50 members)"@,
            HeyaError::OyakataCannotLeave => "Oyakata can\u{2019}t leave heya"@,
        }
    }

    /// The message shown for the error.
    pub fn what(&self) -> (r: String)
        ensures
            r@ == self.spec_what(),
    {
        match self {
            HeyaError::NameLength => lit_string("Name must be 3 to 30 characters"),
            HeyaError::TooManyHeyas { player } => {
                let mut s = lit_string("Player ");
                push_signed_decimal(&mut s, player.0 as i64);
                s.append(" in too many heyas (max 5)");
                s
            },
            HeyaError::HostingTooMany { player } => {
                let mut s = lit_string("Player ");
                push_signed_decimal(&mut s, player.0 as i64);
                s.append(" hosting too many heyas (max 3)");
                s
            },
            HeyaError::Full { name } => {
                let mut s = lit_string("Heya ");
                s.append(name.as_str());
                s.append(" is full (max 50 members)");
                s
            },
            HeyaError::OyakataCannotLeave => lit_string("Oyakata can\u{2019}t leave heya"),
        }
    }
}

/// Is the name, counted in bytes, of an allowed length?
pub open spec fn name_length_ok(name: Seq<u8>) -> bool {
    NAME_LENGTH_MIN <= name.len() <= NAME_LENGTH_MAX
}

/// Checks a heya name: 3 to 30 bytes long.
pub fn validate_name(name: &str) -> (r: Result<(), HeyaError>)
    ensures
        r is Ok <==> name_length_ok(name.spec_bytes()),
        r matches Err(e) ==> e is NameLength,
{
    let n = name.as_bytes().len();
    if NAME_LENGTH_MIN <= n && n <= NAME_LENGTH_MAX {
        Ok(())
    } else {
        Err(HeyaError::NameLength)
    }
}

/// The slug of a heya name, as the slug crate makes it.
pub uninterp spec fn slug_of(name: Seq<char>) -> Seq<char>;

/// `slug_intl::slugify`: the URL path form of a name. Its result is named
/// `slug_of`; nothing more of it is stated.
#[verifier::external_body]
fn slugify(name: &str) -> (r: String)
    ensures
        r@ == slug_of(name@),
{
    slug_intl::slugify(name)
}

/// The slug for a new heya name, once the name is checked.
pub fn name_slug(name: &str) -> (r: Result<String, HeyaError>)
    ensures
        r is Ok <==> name_length_ok(name.spec_bytes()),
        r matches Ok(slug) ==> slug@ == slug_of(name@),
        r matches Err(e) ==> e is NameLength,
{
    match validate_name(name) {
        Ok(()) => Ok(slugify(name)),
        Err(e) => Err(e),
    }
}

/// The page of the heya with slug `slug`.
pub fn url_path(slug: &str) -> (r: String)
    ensures
        r@ == "/heya/"@ + slug@,
{
    let mut s = lit_string("/heya/");
    s.append(slug);
    s
}

/// A heya that a player belongs to, as far as the limits need it.
pub struct HeyaMembership {
    pub oyakata: PlayerId,
    pub member_count: usize,
    pub name: String,
}

/// How many of the first `n` heya the player hosts.
pub open spec fn hosted_count(heyas: Seq<HeyaMembership>, player: PlayerId, n: int) -> nat
    decreases n,
{
    if n <= 0 {
        0
    } else {
        hosted_count(heyas, player, n - 1) + if heyas[n - 1].oyakata == player { 1nat } else { 0nat }
    }
}

/// The first of the first `n` heya with more members than allowed.
pub open spec fn first_full(heyas: Seq<HeyaMembership>, n: int) -> Option<int>
    decreases n,
{
    if n <= 0 {
        None
    } else if first_full(heyas, n - 1) is Some {
        first_full(heyas, n - 1)
    } else if heyas[n - 1].member_count > MEMBER_MAX {
        Some(n - 1)
    } else {
        None
    }
}

/// Checks the limits for a player who belongs to `heyas`: at most 5 heya, at most
/// 3 of them hosted, and none of them over 50 members; the first limit broken is
/// reported.
pub fn validate_quota(player: PlayerId, heyas: &Vec<HeyaMembership>) -> (r: Result<(), HeyaError>)
    ensures
        heyas@.len() > JOIN_MAX ==> (r matches Err(HeyaError::TooManyHeyas { player: p }) && p == player),
        heyas@.len() <= JOIN_MAX && hosted_count(heyas@, player, heyas@.len() as int) > HOST_MAX
            ==> (r matches Err(HeyaError::HostingTooMany { player: p }) && p == player),
        heyas@.len() <= JOIN_MAX && hosted_count(heyas@, player, heyas@.len() as int) <= HOST_MAX ==> match first_full(heyas@, heyas@.len() as int) {
            Some(i) => r matches Err(HeyaError::Full { name }) && name@ == heyas@[i].name@,
            None => r is Ok,
        },
{
    if heyas.len() > JOIN_MAX {
        return Err(HeyaError::TooManyHeyas { player });
    }
    let mut hosted: usize = 0;
    let mut i: usize = 0;
    while i < heyas.len()
        invariant
            i <= heyas@.len() <= JOIN_MAX,
            hosted == hosted_count(heyas@, player, i as int),
            hosted <= i,
        decreases heyas@.len() - i,
    {
        if heyas[i].oyakata == player {
            hosted = hosted + 1;
        }
        i = i + 1;
    }
    if hosted > HOST_MAX {
        return Err(HeyaError::HostingTooMany { player });
    }
    let mut j: usize = 0;
    while j < heyas.len()
        invariant
            j <= heyas@.len() <= JOIN_MAX,
            hosted_count(heyas@, player, heyas@.len() as int) <= HOST_MAX,
            first_full(heyas@, j as int) is None,
        decreases heyas@.len() - j,
    {
        if heyas[j].member_count > MEMBER_MAX {
            proof { lemma_first_full_stays(heyas@, j as int + 1, heyas@.len() as int); }
            return Err(HeyaError::Full { name: heyas[j].name.clone() });
        }
        j = j + 1;
    }
    Ok(())
}

/// Once a full heya is found, it stays the first one.
proof fn lemma_first_full_stays(heyas: Seq<HeyaMembership>, m: int, n: int)
    requires
        0 <= m <= n,
        first_full(heyas, m) is Some,
    ensures
        first_full(heyas, n) == first_full(heyas, m),
    decreases n - m,
{
    if m < n {
        lemma_first_full_stays(heyas, m, n - 1);
    }
}

/// May `player` be taken out of a heya led by `oyakata`? The oyakata may not leave.
pub fn check_removal(oyakata: PlayerId, player: PlayerId) -> (r: Result<(), HeyaError>)
    ensures
        r is Ok <==> oyakata != player,
        r matches Err(e) ==> e is OyakataCannotLeave,
{
    if oyakata == player {
        Err(HeyaError::OyakataCannotLeave)
    } else {
        Ok(())
    }
}

/// A score recorded as this stands for a basho the member did not enter.
pub const SCORE_NO_ENTRY: u8 = 255;

/// The score that a recorded value stands for.
pub open spec fn score_of(v: nat) -> Option<u8> {
    if v == SCORE_NO_ENTRY { None } else { Some(v as u8) }
}

/// Reading digits against a bound reads the same against any larger bound.
proof fn lemma_digits_widen(digits: Seq<u8>, acc: nat, small: nat, big: nat)
    requires
        small <= big,
        acc <= small,
        dec_digits_value_ok(digits, acc, small),
    ensures
        crate::text::dec_digits_value(digits, acc, big) == crate::text::dec_digits_value(digits, acc, small),
        crate::text::dec_digits_value(digits, acc, small) matches Ok(v) ==> v <= small,
    decreases digits.len(),
{
    if digits.len() > 0 {
        let next = acc * 10 + (digits[0] - 0x30) as nat;
        lemma_digits_widen(digits.drop_first(), next, small, big);
    }
}

/// Do the digits read without error against `max`?
pub open spec fn dec_digits_value_ok(digits: Seq<u8>, acc: nat, max: nat) -> bool {
    crate::text::dec_digits_value(digits, acc, max) is Ok
}

/// Does every piece read as a score (a number from 0 to 255)?
pub open spec fn scores_text_ok(b: Seq<u8>) -> bool {
    forall|k: int| 0 <= k < comma_pieces(b).len() ==> (#[trigger] parse_unsigned(comma_pieces(b)[k], 255)) is Ok
}

/// Text that reads as a score against 255 reads the same against 65535.
proof fn lemma_parse_widen(p: Seq<u8>)
    requires
        parse_unsigned(p, 255) is Ok,
    ensures
        parse_unsigned(p, 65535) == parse_unsigned(p, 255),
        parse_unsigned(p, 255) matches Ok(v) ==> v <= 255,
{
    if p.len() > 0 {
        if p[0] == 0x2b {
            if p.len() > 1 {
                lemma_digits_widen(p.drop_first(), 0, 255, 65535);
            }
        } else {
            lemma_digits_widen(p, 0, 255, 65535);
        }
    }
}

/// The score written in `b[start..end]`.
fn score_at(b: &[u8], start: usize, end: usize) -> (r: Option<u8>)
    requires
        start <= end <= b@.len(),
        parse_unsigned(b@.subrange(start as int, end as int), 255) is Ok,
    ensures
        parse_unsigned(b@.subrange(start as int, end as int), 255) matches Ok(v) && r == score_of(v),
{
    proof { lemma_parse_widen(b@.subrange(start as int, end as int)); }
    match parse_u16(b, start, end) {
        Ok(v) => if v == 255 { None } else { Some(v as u8) },
        Err(_) => None,
    }
}

/// A member's recent scores, from their comma-separated text, one per basho, the
/// value 255 standing for a basho not entered.
pub fn parse_recent_scores(text: &str) -> (r: Vec<Option<u8>>)
    requires
        scores_text_ok(text.spec_bytes()),
    ensures
        r@.len() == comma_pieces(text.spec_bytes()).len(),
        forall|k: int| 0 <= k < r@.len() ==> match parse_unsigned(comma_pieces(text.spec_bytes())[k], 255) {
            Ok(v) => #[trigger] r@[k] == score_of(v),
            Err(_) => false,
        },
{
    let b = text.as_bytes();
    let ghost all = b@;
    let mut out: Vec<Option<u8>> = Vec::new();
    let mut start: usize = 0;
    let mut i: usize = 0;
    proof {
        assert(all.take(0) =~= Seq::<u8>::empty());
        assert(all.subrange(0, 0) =~= Seq::<u8>::empty());
    }
    while i < b.len()
        invariant
            b@ == all,
            all == text.spec_bytes(),
            scores_text_ok(all),
            start <= i <= all.len(),
            out@.len() == comma_pieces(all.take(i as int)).len() - 1,
            comma_pieces(all.take(i as int)).last() == all.subrange(start as int, i as int),
            forall|k: int| 0 <= k < out@.len() ==> #[trigger] comma_pieces(all.take(i as int))[k] == comma_pieces(all)[k],
            forall|k: int| 0 <= k < out@.len() ==> match parse_unsigned(comma_pieces(all)[k], 255) {
                Ok(v) => #[trigger] out@[k] == score_of(v),
                Err(_) => false,
            },
        decreases all.len() - i,
    {
        let ghost before = comma_pieces(all.take(i as int));
        proof {
            assert(all.take(i + 1).drop_last() =~= all.take(i as int));
            lemma_comma_pieces_nonempty(all.take(i as int));
            lemma_pieces_prefix(all, i + 1, all.len() as int);
            assert(all.take(all.len() as int) =~= all);
        }
        if b[i] == 0x2c {
            let k = out.len();
            assert(comma_pieces(all.take(i + 1))[k as int] == before[k as int]);
            assert(comma_pieces(all)[k as int] == all.subrange(start as int, i as int));
            assert(parse_unsigned(comma_pieces(all)[k as int], 255) is Ok);
            let v = score_at(b, start, i);
            out.push(v);
            start = i + 1;
            proof {
                assert(all.subrange(start as int, i + 1) =~= Seq::<u8>::empty());
            }
        } else {
            proof {
                assert(all.subrange(start as int, i + 1) =~= all.subrange(start as int, i as int).push(all[i as int]));
            }
        }
        i = i + 1;
    }
    proof {
        assert(all.take(all.len() as int) =~= all);
        lemma_comma_pieces_nonempty(all);
    }
    let k = out.len();
    assert(parse_unsigned(comma_pieces(all)[k as int], 255) is Ok);
    let v = score_at(b, start, b.len());
    out.push(v);
    out
}

/// The sum of the first `n` scores, a basho not entered counting 0.
pub open spec fn scores_sum(scores: Seq<Option<u8>>, n: int) -> int
    decreases n,
{
    if n <= 0 {
        0
    } else {
        scores_sum(scores, n - 1) + match scores[n - 1] {
            Some(v) => v as int,
            None => 0,
        }
    }
}

/// The sum of a member's recent scores.
pub fn recent_scores_total(scores: &Vec<Option<u8>>) -> (t: u16)
    requires
        scores_sum(scores@, scores@.len() as int) <= u16::MAX,
    ensures
        t == scores_sum(scores@, scores@.len() as int),
{
    let mut t: u16 = 0;
    let mut i: usize = 0;
    while i < scores.len()
        invariant
            i <= scores@.len(),
            scores_sum(scores@, scores@.len() as int) <= u16::MAX,
            t == scores_sum(scores@, i as int),
        decreases scores@.len() - i,
    {
        proof { lemma_scores_sum_monotone(scores@, i + 1, scores@.len() as int); }
        t = t + match scores[i] {
            Some(v) => v as u16,
            None => 0,
        };
        i = i + 1;
    }
    t
}

/// Summing more scores sums no less.
proof fn lemma_scores_sum_monotone(scores: Seq<Option<u8>>, i: int, n: int)
    requires
        i <= n,
    ensures
        scores_sum(scores, i) <= scores_sum(scores, n),
    decreases n - i,
{
    if i < n {
        lemma_scores_sum_monotone(scores, i, n - 1);
    }
}

/// Is member `a` listed before member `b`: a higher total first, and in the order
/// given where totals are equal?
pub open spec fn listed_before(totals: Seq<u16>, a: int, b: int) -> bool {
    totals[a] > totals[b] || (totals[a] == totals[b] && a < b)
}

/// The members in listing order, by position: highest recent total first, ties in
/// the order given.
pub fn order_by_total(totals: &Vec<u16>) -> (order: Vec<usize>)
    ensures
        order@.len() == totals@.len(),
        forall|k: int| 0 <= k < order@.len() ==> (#[trigger] order@[k]) < totals@.len(),
        forall|i: usize| i < totals@.len() ==> #[trigger] order@.contains(i),
        forall|a: int, b: int|
            0 <= a < b < order@.len() ==> listed_before(totals@, #[trigger] order@[a] as int, #[trigger] order@[b] as int),
{
    let mut order: Vec<usize> = Vec::new();
    let mut j: usize = 0;
    while j < totals.len()
        invariant
            j <= totals@.len(),
            order@.len() == j,
            forall|k: int| 0 <= k < order@.len() ==> (#[trigger] order@[k]) < j,
            forall|i: usize| i < j ==> #[trigger] order@.contains(i),
            forall|a: int, b: int|
                0 <= a < b < order@.len() ==> listed_before(totals@, #[trigger] order@[a] as int, #[trigger] order@[b] as int),
        decreases totals@.len() - j,
    {
        let t = totals[j];
        let mut p: usize = 0;
        while p < order.len() && totals[order[p]] >= t
            invariant
                j < totals@.len(),
                t == totals@[j as int],
                p <= order@.len(),
                forall|k: int| 0 <= k < order@.len() ==> (#[trigger] order@[k]) < j,
                forall|q: int| 0 <= q < p ==> totals@[#[trigger] order@[q] as int] >= t,
            decreases order@.len() - p,
        {
            p = p + 1;
        }
        let ghost old_order = order@;
        order.insert(p, j);
        proof {
            assert forall|a: int, b: int| 0 <= a < b < order@.len() implies listed_before(
                totals@,
                #[trigger] order@[a] as int,
                #[trigger] order@[b] as int,
            ) by {
                if b < p {
                    assert(order@[a] == old_order[a] && order@[b] == old_order[b]);
                } else if b == p {
                    assert(order@[a] == old_order[a]);
                } else if a == p {
                    assert(order@[b] == old_order[b - 1]);
                    assert(totals@[old_order[p as int] as int] < t);
                    if b - 1 > p {
                        assert(listed_before(totals@, old_order[p as int] as int, old_order[b - 1] as int));
                    }
                } else if a < p {
                    assert(order@[a] == old_order[a] && order@[b] == old_order[b - 1]);
                } else {
                    assert(order@[a] == old_order[a - 1] && order@[b] == old_order[b - 1]);
                }
            }
            assert forall|i: usize| i < j + 1 implies #[trigger] order@.contains(i) by {
                if i == j {
                    assert(order@[p as int] == j);
                } else {
                    assert(old_order.contains(i));
                    let w = choose|w: int| 0 <= w < old_order.len() && old_order[w] == i;
                    if w < p {
                        assert(order@[w] == i);
                    } else {
                        assert(order@[w + 1] == i);
                    }
                }
            }
        }
        j = j + 1;
    }
    order
}

/// The basho whose scores a heya page shows, latest first: the six before
/// `rank_for_basho`, and that basho itself when it is under way.
pub fn recent_scores_bashos(rank_for_basho: BashoId, include_current: bool) -> (r: Vec<BashoId>)
    requires
        rank_for_basho.incr_ok(-6),
        BashoRange::walk_ok(rank_for_basho.spec_incr(-6), rank_for_basho),
    ensures
        r@ == (BashoRange::spec_ids(rank_for_basho.spec_incr(-6), rank_for_basho)
            + if include_current { seq![rank_for_basho] } else { Seq::<BashoId>::empty() }).reverse(),
{
    let mut forward = rank_for_basho.range_for_banzuke().to_vec();
    if include_current {
        forward.push(rank_for_basho);
    }
    let ghost f = forward@;
    proof {
        if include_current {
            assert(f =~= BashoRange::spec_ids(rank_for_basho.spec_incr(-6), rank_for_basho) + seq![rank_for_basho]);
        } else {
            assert(f =~= BashoRange::spec_ids(rank_for_basho.spec_incr(-6), rank_for_basho) + Seq::<BashoId>::empty());
        }
    }
    let mut r: Vec<BashoId> = Vec::new();
    let mut i: usize = forward.len();
    while i > 0
        invariant
            f == forward@,
            i <= f.len(),
            r@ =~= f.subrange(i as int, f.len() as int).reverse(),
        decreases i,
    {
        r.push(forward[i - 1]);
        i = i - 1;
        assert(r@ =~= f.subrange(i as int, f.len() as int).reverse());
    }
    assert(f.subrange(0, f.len() as int) =~= f);
    r
}

/// A change to a heya that a form asks for.
#[derive(Debug)]
pub struct EditData {
    pub set_name: Option<String>,
    pub add_player_id: Option<PlayerId>,
    pub delete_player_id: Option<PlayerId>,
}

/// One change to make to a heya.
#[derive(Debug)]
pub enum HeyaEdit {
    SetName(String),
    AddMember(PlayerId),
    DeleteMember(PlayerId),
}

/// The changes to make for `user`, in order: the new name; a new member, which
/// only the oyakata may add; a member to take out, which the oyakata may do for
/// anyone and a member for himself. `denied` tells that the request stops, after
/// the changes listed, because the user may not make the next one.
pub fn plan_edit(data: EditData, oyakata: PlayerId, user: PlayerId) -> (r: (Vec<HeyaEdit>, bool))
    ensures
        ({
            let name_edits = if data.set_name is Some { 1int } else { 0int };
            let add_denied = data.add_player_id is Some && oyakata != user;
            let delete_denied = data.delete_player_id is Some && oyakata != user && data.delete_player_id->Some_0 != user;
            &&& r.1 == (add_denied || delete_denied)
            &&& r.0@.len() == name_edits + (if data.add_player_id is Some && !add_denied { 1int } else { 0int })
                + (if !add_denied && data.delete_player_id is Some && !delete_denied { 1int } else { 0int })
            &&& (data.set_name is Some ==> r.0@[0] == HeyaEdit::SetName(data.set_name->Some_0))
            &&& (data.add_player_id is Some && !add_denied
                ==> r.0@[name_edits] == HeyaEdit::AddMember(data.add_player_id->Some_0))
            &&& (!add_denied && data.delete_player_id is Some && !delete_denied
                ==> r.0@[r.0@.len() - 1] == HeyaEdit::DeleteMember(data.delete_player_id->Some_0))
        }),
{
    let mut edits: Vec<HeyaEdit> = Vec::new();
    match data.set_name {
        Some(n) => edits.push(HeyaEdit::SetName(n)),
        None => {},
    }
    match data.add_player_id {
        Some(p) => {
            if oyakata == user {
                edits.push(HeyaEdit::AddMember(p));
            } else {
                return (edits, true);
            }
        },
        None => {},
    }
    match data.delete_player_id {
        Some(p) => {
            if oyakata == user || p == user {
                edits.push(HeyaEdit::DeleteMember(p));
            } else {
                return (edits, true);
            }
        },
        None => {},
    }
    (edits, false)
}

/// Whether `id` is among the first `n` ids.
pub open spec fn among(ids: Seq<HeyaId>, id: HeyaId) -> bool {
    exists|k: int| 0 <= k < ids.len() && ids[k] == id
}

/// The heya, given as (id, oyakata), of the user that a player page offers to
/// recruit the player into: those the user hosts that the player is not yet in.
pub fn recruit_heyas(user_heyas: &Vec<(HeyaId, PlayerId)>, user: PlayerId, player_heyas: &Vec<HeyaId>) -> (r: Vec<HeyaId>)
    ensures
        r@ == user_heyas@.filter(|h: (HeyaId, PlayerId)| h.1 == user && !among(player_heyas@, h.0))
            .map_values(|h: (HeyaId, PlayerId)| h.0),
{
    let mut r: Vec<HeyaId> = Vec::new();
    let mut i: usize = 0;
    while i < user_heyas.len()
        invariant
            i <= user_heyas@.len(),
            r@ == user_heyas@.take(i as int).filter(|h: (HeyaId, PlayerId)| h.1 == user && !among(player_heyas@, h.0))
                .map_values(|h: (HeyaId, PlayerId)| h.0),
        decreases user_heyas@.len() - i,
    {
        proof {
            reveal(Seq::filter);
            assert(user_heyas@.take(i + 1).drop_last() =~= user_heyas@.take(i as int));
        }
        let (id, oyakata) = user_heyas[i];
        let mut member = false;
        let mut k: usize = 0;
        while k < player_heyas.len()
            invariant
                k <= player_heyas@.len(),
                member == exists|j: int| 0 <= j < k && player_heyas@[j] == id,
            decreases player_heyas@.len() - k,
        {
            if player_heyas[k] == id {
                member = true;
            }
            k = k + 1;
        }
        let ghost before = r@;
        if oyakata == user && !member {
            r.push(id);
        }
        proof {
            let f = |h: (HeyaId, PlayerId)| h.1 == user && !among(player_heyas@, h.0);
            let g = |h: (HeyaId, PlayerId)| h.0;
            let prev = user_heyas@.take(i as int).filter(f);
            if f(user_heyas@[i as int]) {
                assert(user_heyas@.take(i + 1).filter(f) == prev.push(user_heyas@[i as int]));
                assert(prev.push(user_heyas@[i as int]).map_values(g) =~= prev.map_values(g).push(id));
            } else {
                assert(user_heyas@.take(i + 1).filter(f) == prev);
            }
        }
        i = i + 1;
    }
    proof {
        assert(user_heyas@.take(user_heyas@.len() as int) =~= user_heyas@);
    }
    r
}

} // verus!
