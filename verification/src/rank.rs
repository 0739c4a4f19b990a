//! Banzuke ranks: names, sides, numbers, their text forms and their order.

use vstd::prelude::*;
use vstd::string::*;
use vstd::utf8::*;

use crate::text::{IntErrorKind, decimal, parse_unsigned, parse_u16, push_decimal};
use crate::utf8_text::{
    ascii_bytes, bytes_eq, owned, lit_string, is_ascii_ws, is_ascii_lower, substr,
    lemma_str_valid, lemma_after_ascii_is_boundary, lemma_ascii_is_boundary, lemma_ascii_encode,
};

verus! {

/// Why a rank could not be read from text.
#[derive(Debug)]
pub enum RankError {
    UnknownRankName(String),
    UnknownRankSide(String),
    MissingPart(&'static str),
    ParseIntError(IntErrorKind),
}

/// A division of the banzuke.
#[derive(Debug, PartialEq, Eq, Structural, PartialOrd, Ord, Copy, Clone)]
pub enum RankDivision {
    Makuuchi,
    Juryo,
    Makushita,
    Sandanme,
    Jonidan,
    Jonokuchi,
    Maezumo,
}

impl RankDivision {
    /// The display name of a division.
    pub open spec fn display_name(self) -> Seq<char> {
        match self {
            RankDivision::Makuuchi => seq!['M', 'a', 'k', 'u', 'u', 'c', 'h', 'i'],
            RankDivision::Juryo => seq!['J', 'u', 'r', 'y', 'o'],
            RankDivision::Makushita => seq!['M', 'a', 'k', 'u', 's', 'h', 'i', 't', 'a'],
            RankDivision::Sandanme => seq!['S', 'a', 'n', 'd', 'a', 'n', 'm', 'e'],
            RankDivision::Jonidan => seq!['J', 'o', 'n', 'i', 'd', 'a', 'n'],
            RankDivision::Jonokuchi => seq!['J', 'o', 'n', 'o', 'k', 'u', 'c', 'h', 'i'],
            RankDivision::Maezumo => seq!['M', 'a', 'e', 'z', 'u', 'm', 'o'],
        }
    }

    /// The text form of a division, as its `Display` renders it.
    pub fn to_string(&self) -> (r: String)
        ensures
            r@ == self.display_name(),
    {
        match self {
            RankDivision::Makuuchi => {
                proof { reveal_strlit("Makuuchi"); }
                lit_string("Makuuchi")
            },
            RankDivision::Juryo => {
                proof { reveal_strlit("Juryo"); }
                lit_string("Juryo")
            },
            RankDivision::Makushita => {
                proof { reveal_strlit("Makushita"); }
                lit_string("Makushita")
            },
            RankDivision::Sandanme => {
                proof { reveal_strlit("Sandanme"); }
                lit_string("Sandanme")
            },
            RankDivision::Jonidan => {
                proof { reveal_strlit("Jonidan"); }
                lit_string("Jonidan")
            },
            RankDivision::Jonokuchi => {
                proof { reveal_strlit("Jonokuchi"); }
                lit_string("Jonokuchi")
            },
            RankDivision::Maezumo => {
                proof { reveal_strlit("Maezumo"); }
                lit_string("Maezumo")
            },
        }
    }
}

/// The name part of a rank, from highest to lowest.
#[derive(Debug, PartialEq, Eq, Structural, PartialOrd, Ord, Copy, Clone)]
pub enum RankName {
    Yokozuna,
    Ozeki,
    Sekiwake,
    Komusubi,
    Maegashira,
    Juryo,
    Makushita,
    Sandanme,
    Jonidan,
    Jonokuchi,
    BanzukeGai,
}

impl RankName {
    /// Position of the name on the banzuke, 0 for Yokozuna.
    pub open spec fn index(self) -> nat {
        match self {
            RankName::Yokozuna => 0,
            RankName::Ozeki => 1,
            RankName::Sekiwake => 2,
            RankName::Komusubi => 3,
            RankName::Maegashira => 4,
            RankName::Juryo => 5,
            RankName::Makushita => 6,
            RankName::Sandanme => 7,
            RankName::Jonidan => 8,
            RankName::Jonokuchi => 9,
            RankName::BanzukeGai => 10,
        }
    }

    /// The abbreviation of a name, as in `Ms12w`.
    pub open spec fn short_name(self) -> Seq<char> {
        match self {
            RankName::Yokozuna => seq!['Y'],
            RankName::Ozeki => seq!['O'],
            RankName::Sekiwake => seq!['S'],
            RankName::Komusubi => seq!['K'],
            RankName::Maegashira => seq!['M'],
            RankName::Juryo => seq!['J'],
            RankName::Makushita => seq!['M', 's'],
            RankName::Sandanme => seq!['S', 'd'],
            RankName::Jonidan => seq!['J', 'd'],
            RankName::Jonokuchi => seq!['J', 'k'],
            RankName::BanzukeGai => seq!['X'],
        }
    }

    /// The full name, as in `Makushita 12 West`.
    pub open spec fn long_name(self) -> Seq<char> {
        match self {
            RankName::Yokozuna => seq!['Y', 'o', 'k', 'o', 'z', 'u', 'n', 'a'],
            RankName::Ozeki => seq!['O', 'z', 'e', 'k', 'i'],
            RankName::Sekiwake => seq!['S', 'e', 'k', 'i', 'w', 'a', 'k', 'e'],
            RankName::Komusubi => seq!['K', 'o', 'm', 'u', 's', 'u', 'b', 'i'],
            RankName::Maegashira => seq!['M', 'a', 'e', 'g', 'a', 's', 'h', 'i', 'r', 'a'],
            RankName::Juryo => seq!['J', 'u', 'r', 'y', 'o'],
            RankName::Makushita => seq!['M', 'a', 'k', 'u', 's', 'h', 'i', 't', 'a'],
            RankName::Sandanme => seq!['S', 'a', 'n', 'd', 'a', 'n', 'm', 'e'],
            RankName::Jonidan => seq!['J', 'o', 'n', 'i', 'd', 'a', 'n'],
            RankName::Jonokuchi => seq!['J', 'o', 'n', 'o', 'k', 'u', 'c', 'h', 'i'],
            RankName::BanzukeGai => seq!['B', 'a', 'n', 'z', 'u', 'k', 'e', '-', 'G', 'a', 'i'],
        }
    }

    /// The name right below this one, if any.
    pub open spec fn spec_next(self) -> Option<RankName> {
        match self {
            RankName::Yokozuna => Some(RankName::Ozeki),
            RankName::Ozeki => Some(RankName::Sekiwake),
            RankName::Sekiwake => Some(RankName::Komusubi),
            RankName::Komusubi => Some(RankName::Maegashira),
            RankName::Maegashira => Some(RankName::Juryo),
            RankName::Juryo => Some(RankName::Makushita),
            RankName::Makushita => Some(RankName::Sandanme),
            RankName::Sandanme => Some(RankName::Jonidan),
            RankName::Jonidan => Some(RankName::Jonokuchi),
            RankName::Jonokuchi => Some(RankName::BanzukeGai),
            RankName::BanzukeGai => None,
        }
    }

    /// The name that text reads as: its abbreviation or its full name, exactly.
    pub open spec fn parse_spec(b: Seq<u8>) -> Option<RankName> {
        if b == ascii_bytes(RankName::Yokozuna.short_name()) || b == ascii_bytes(RankName::Yokozuna.long_name()) {
            Some(RankName::Yokozuna)
        } else if b == ascii_bytes(RankName::Ozeki.short_name()) || b == ascii_bytes(RankName::Ozeki.long_name()) {
            Some(RankName::Ozeki)
        } else if b == ascii_bytes(RankName::Sekiwake.short_name()) || b == ascii_bytes(RankName::Sekiwake.long_name()) {
            Some(RankName::Sekiwake)
        } else if b == ascii_bytes(RankName::Komusubi.short_name()) || b == ascii_bytes(RankName::Komusubi.long_name()) {
            Some(RankName::Komusubi)
        } else if b == ascii_bytes(RankName::Maegashira.short_name()) || b == ascii_bytes(RankName::Maegashira.long_name()) {
            Some(RankName::Maegashira)
        } else if b == ascii_bytes(RankName::Juryo.short_name()) || b == ascii_bytes(RankName::Juryo.long_name()) {
            Some(RankName::Juryo)
        } else if b == ascii_bytes(RankName::Makushita.short_name()) || b == ascii_bytes(RankName::Makushita.long_name()) {
            Some(RankName::Makushita)
        } else if b == ascii_bytes(RankName::Sandanme.short_name()) || b == ascii_bytes(RankName::Sandanme.long_name()) {
            Some(RankName::Sandanme)
        } else if b == ascii_bytes(RankName::Jonidan.short_name()) || b == ascii_bytes(RankName::Jonidan.long_name()) {
            Some(RankName::Jonidan)
        } else if b == ascii_bytes(RankName::Jonokuchi.short_name()) || b == ascii_bytes(RankName::Jonokuchi.long_name()) {
            Some(RankName::Jonokuchi)
        } else if b == ascii_bytes(RankName::BanzukeGai.short_name()) || b == ascii_bytes(RankName::BanzukeGai.long_name()) {
            Some(RankName::BanzukeGai)
        } else {
            None
        }
    }

    /// The name right below this one; none below Banzuke-Gai.
    pub fn next(self) -> (r: Option<Self>)
        ensures
            r == self.spec_next(),
    {
        match self {
            RankName::Yokozuna => Some(Self::Ozeki),
            RankName::Ozeki => Some(Self::Sekiwake),
            RankName::Sekiwake => Some(Self::Komusubi),
            RankName::Komusubi => Some(Self::Maegashira),
            RankName::Maegashira => Some(Self::Juryo),
            RankName::Juryo => Some(Self::Makushita),
            RankName::Makushita => Some(Self::Sandanme),
            RankName::Sandanme => Some(Self::Jonidan),
            RankName::Jonidan => Some(Self::Jonokuchi),
            RankName::Jonokuchi => Some(Self::BanzukeGai),
            RankName::BanzukeGai => None,
        }
    }

    /// Compares two names by banzuke position: is `self` at or above `other`?
    pub fn at_or_above(self, other: RankName) -> (r: bool)
        ensures
            r == (self.index() <= other.index()),
    {
        self.position() <= other.position()
    }

    /// Position of the name on the banzuke, 0 for Yokozuna.
    pub fn position(self) -> (r: u8)
        ensures
            r == self.index(),
    {
        match self {
            RankName::Yokozuna => 0,
            RankName::Ozeki => 1,
            RankName::Sekiwake => 2,
            RankName::Komusubi => 3,
            RankName::Maegashira => 4,
            RankName::Juryo => 5,
            RankName::Makushita => 6,
            RankName::Sandanme => 7,
            RankName::Jonidan => 8,
            RankName::Jonokuchi => 9,
            RankName::BanzukeGai => 10,
        }
    }

    /// The abbreviation, as the plain `Display` form renders it.
    pub fn short_str(self) -> (r: &'static str)
        ensures
            r@ == self.short_name(),
    {
        match self {
            RankName::Yokozuna => { proof { reveal_strlit("Y"); } "Y" },
            RankName::Ozeki => { proof { reveal_strlit("O"); } "O" },
            RankName::Sekiwake => { proof { reveal_strlit("S"); } "S" },
            RankName::Komusubi => { proof { reveal_strlit("K"); } "K" },
            RankName::Maegashira => { proof { reveal_strlit("M"); } "M" },
            RankName::Juryo => { proof { reveal_strlit("J"); } "J" },
            RankName::Makushita => { proof { reveal_strlit("Ms"); } "Ms" },
            RankName::Sandanme => { proof { reveal_strlit("Sd"); } "Sd" },
            RankName::Jonidan => { proof { reveal_strlit("Jd"); } "Jd" },
            RankName::Jonokuchi => { proof { reveal_strlit("Jk"); } "Jk" },
            RankName::BanzukeGai => { proof { reveal_strlit("X"); } "X" },
        }
    }

    /// The full name, as the alternate `Display` form renders it.
    pub fn long_str(self) -> (r: &'static str)
        ensures
            r@ == self.long_name(),
    {
        match self {
            RankName::Yokozuna => { proof { reveal_strlit("Yokozuna"); } "Yokozuna" },
            RankName::Ozeki => { proof { reveal_strlit("Ozeki"); } "Ozeki" },
            RankName::Sekiwake => { proof { reveal_strlit("Sekiwake"); } "Sekiwake" },
            RankName::Komusubi => { proof { reveal_strlit("Komusubi"); } "Komusubi" },
            RankName::Maegashira => { proof { reveal_strlit("Maegashira"); } "Maegashira" },
            RankName::Juryo => { proof { reveal_strlit("Juryo"); } "Juryo" },
            RankName::Makushita => { proof { reveal_strlit("Makushita"); } "Makushita" },
            RankName::Sandanme => { proof { reveal_strlit("Sandanme"); } "Sandanme" },
            RankName::Jonidan => { proof { reveal_strlit("Jonidan"); } "Jonidan" },
            RankName::Jonokuchi => { proof { reveal_strlit("Jonokuchi"); } "Jonokuchi" },
            RankName::BanzukeGai => { proof { reveal_strlit("Banzuke-Gai"); } "Banzuke-Gai" },
        }
    }

    /// The abbreviation as a `String`.
    pub fn to_string(&self) -> (r: String)
        ensures
            r@ == self.short_name(),
    {
        owned(self.short_str())
    }

    /// The full name as a `String`.
    pub fn to_string_alt(&self) -> (r: String)
        ensures
            r@ == self.long_name(),
    {
        owned(self.long_str())
    }

    /// Reads a name from the bytes `b[start..end]`.
    pub fn parse_bytes(b: &[u8], start: usize, end: usize) -> (r: Option<RankName>)
        requires
            start <= end <= b@.len(),
        ensures
            r == RankName::parse_spec(b@.subrange(start as int, end as int)),
    {
        let ghost t = b@.subrange(start as int, end as int);
        let y1 = ['Y' as u8];
        let y2 = ['Y' as u8, 'o' as u8, 'k' as u8, 'o' as u8, 'z' as u8, 'u' as u8, 'n' as u8, 'a' as u8];
        assert(y1@ =~= ascii_bytes(RankName::Yokozuna.short_name()));
        assert(y2@ =~= ascii_bytes(RankName::Yokozuna.long_name()));
        if bytes_eq(b, start, end, &y1) || bytes_eq(b, start, end, &y2) {
            return Some(RankName::Yokozuna);
        }
        let o1 = ['O' as u8];
        let o2 = ['O' as u8, 'z' as u8, 'e' as u8, 'k' as u8, 'i' as u8];
        assert(o1@ =~= ascii_bytes(RankName::Ozeki.short_name()));
        assert(o2@ =~= ascii_bytes(RankName::Ozeki.long_name()));
        if bytes_eq(b, start, end, &o1) || bytes_eq(b, start, end, &o2) {
            return Some(RankName::Ozeki);
        }
        let s1 = ['S' as u8];
        let s2 = ['S' as u8, 'e' as u8, 'k' as u8, 'i' as u8, 'w' as u8, 'a' as u8, 'k' as u8, 'e' as u8];
        assert(s1@ =~= ascii_bytes(RankName::Sekiwake.short_name()));
        assert(s2@ =~= ascii_bytes(RankName::Sekiwake.long_name()));
        if bytes_eq(b, start, end, &s1) || bytes_eq(b, start, end, &s2) {
            return Some(RankName::Sekiwake);
        }
        let k1 = ['K' as u8];
        let k2 = ['K' as u8, 'o' as u8, 'm' as u8, 'u' as u8, 's' as u8, 'u' as u8, 'b' as u8, 'i' as u8];
        assert(k1@ =~= ascii_bytes(RankName::Komusubi.short_name()));
        assert(k2@ =~= ascii_bytes(RankName::Komusubi.long_name()));
        if bytes_eq(b, start, end, &k1) || bytes_eq(b, start, end, &k2) {
            return Some(RankName::Komusubi);
        }
        let m1 = ['M' as u8];
        let m2 = ['M' as u8, 'a' as u8, 'e' as u8, 'g' as u8, 'a' as u8, 's' as u8, 'h' as u8, 'i' as u8, 'r' as u8, 'a' as u8];
        assert(m1@ =~= ascii_bytes(RankName::Maegashira.short_name()));
        assert(m2@ =~= ascii_bytes(RankName::Maegashira.long_name()));
        if bytes_eq(b, start, end, &m1) || bytes_eq(b, start, end, &m2) {
            return Some(RankName::Maegashira);
        }
        let j1 = ['J' as u8];
        let j2 = ['J' as u8, 'u' as u8, 'r' as u8, 'y' as u8, 'o' as u8];
        assert(j1@ =~= ascii_bytes(RankName::Juryo.short_name()));
        assert(j2@ =~= ascii_bytes(RankName::Juryo.long_name()));
        if bytes_eq(b, start, end, &j1) || bytes_eq(b, start, end, &j2) {
            return Some(RankName::Juryo);
        }
        let ms1 = ['M' as u8, 's' as u8];
        let ms2 = ['M' as u8, 'a' as u8, 'k' as u8, 'u' as u8, 's' as u8, 'h' as u8, 'i' as u8, 't' as u8, 'a' as u8];
        assert(ms1@ =~= ascii_bytes(RankName::Makushita.short_name()));
        assert(ms2@ =~= ascii_bytes(RankName::Makushita.long_name()));
        if bytes_eq(b, start, end, &ms1) || bytes_eq(b, start, end, &ms2) {
            return Some(RankName::Makushita);
        }
        let sd1 = ['S' as u8, 'd' as u8];
        let sd2 = ['S' as u8, 'a' as u8, 'n' as u8, 'd' as u8, 'a' as u8, 'n' as u8, 'm' as u8, 'e' as u8];
        assert(sd1@ =~= ascii_bytes(RankName::Sandanme.short_name()));
        assert(sd2@ =~= ascii_bytes(RankName::Sandanme.long_name()));
        if bytes_eq(b, start, end, &sd1) || bytes_eq(b, start, end, &sd2) {
            return Some(RankName::Sandanme);
        }
        let jd1 = ['J' as u8, 'd' as u8];
        let jd2 = ['J' as u8, 'o' as u8, 'n' as u8, 'i' as u8, 'd' as u8, 'a' as u8, 'n' as u8];
        assert(jd1@ =~= ascii_bytes(RankName::Jonidan.short_name()));
        assert(jd2@ =~= ascii_bytes(RankName::Jonidan.long_name()));
        if bytes_eq(b, start, end, &jd1) || bytes_eq(b, start, end, &jd2) {
            return Some(RankName::Jonidan);
        }
        let jk1 = ['J' as u8, 'k' as u8];
        let jk2 = ['J' as u8, 'o' as u8, 'n' as u8, 'o' as u8, 'k' as u8, 'u' as u8, 'c' as u8, 'h' as u8, 'i' as u8];
        assert(jk1@ =~= ascii_bytes(RankName::Jonokuchi.short_name()));
        assert(jk2@ =~= ascii_bytes(RankName::Jonokuchi.long_name()));
        if bytes_eq(b, start, end, &jk1) || bytes_eq(b, start, end, &jk2) {
            return Some(RankName::Jonokuchi);
        }
        let x1 = ['X' as u8];
        let x2 = ['B' as u8, 'a' as u8, 'n' as u8, 'z' as u8, 'u' as u8, 'k' as u8, 'e' as u8, '-' as u8, 'G' as u8, 'a' as u8, 'i' as u8];
        assert(x1@ =~= ascii_bytes(RankName::BanzukeGai.short_name()));
        assert(x2@ =~= ascii_bytes(RankName::BanzukeGai.long_name()));
        if bytes_eq(b, start, end, &x1) || bytes_eq(b, start, end, &x2) {
            return Some(RankName::BanzukeGai);
        }
        None
    }

    /// Reads a name: its abbreviation or its full name, case-sensitively.
    pub fn from_str(s: &str) -> (r: Result<RankName, RankError>)
        ensures
            match RankName::parse_spec(s.spec_bytes()) {
                Some(n) => r == Ok::<RankName, RankError>(n),
                None => r matches Err(RankError::UnknownRankName(p)) && p@ == s@,
            },
    {
        let b = s.as_bytes();
        proof { assert(b@.subrange(0, b@.len() as int) =~= b@); }
        match RankName::parse_bytes(b, 0, b.len()) {
            Some(n) => Ok(n),
            None => Err(RankError::UnknownRankName(owned(s))),
        }
    }
}

/// The side of a rank: East ranks above West at the same name and number.
#[derive(Debug, PartialEq, Eq, Structural, PartialOrd, Ord, Copy, Clone)]
pub enum RankSide {
    East,
    West,
}

impl RankSide {
    /// Position of the side, 0 for East.
    pub open spec fn index(self) -> nat {
        match self {
            RankSide::East => 0,
            RankSide::West => 1,
        }
    }

    pub open spec fn short_name(self) -> Seq<char> {
        match self {
            RankSide::East => seq!['e'],
            RankSide::West => seq!['w'],
        }
    }

    pub open spec fn long_name(self) -> Seq<char> {
        match self {
            RankSide::East => seq!['E', 'a', 's', 't'],
            RankSide::West => seq!['W', 'e', 's', 't'],
        }
    }

    /// The side that text reads as: `E`, `e`, `East` or `east`, and the same for West.
    pub open spec fn parse_spec(b: Seq<u8>) -> Option<RankSide> {
        if b == ascii_bytes(seq!['E']) || b == ascii_bytes(seq!['e'])
            || b == ascii_bytes(seq!['E', 'a', 's', 't']) || b == ascii_bytes(seq!['e', 'a', 's', 't']) {
            Some(RankSide::East)
        } else if b == ascii_bytes(seq!['W']) || b == ascii_bytes(seq!['w'])
            || b == ascii_bytes(seq!['W', 'e', 's', 't']) || b == ascii_bytes(seq!['w', 'e', 's', 't']) {
            Some(RankSide::West)
        } else {
            None
        }
    }

    pub open spec fn spec_other(self) -> RankSide {
        match self {
            RankSide::East => RankSide::West,
            RankSide::West => RankSide::East,
        }
    }

    /// The opposite side.
    pub fn other(self) -> (r: RankSide)
        ensures
            r == self.spec_other(),
    {
        match self {
            RankSide::East => RankSide::West,
            RankSide::West => RankSide::East,
        }
    }

    /// The one-letter form, as the plain `Display` form renders it.
    pub fn short_str(self) -> (r: &'static str)
        ensures
            r@ == self.short_name(),
    {
        match self {
            RankSide::East => { proof { reveal_strlit("e"); } "e" },
            RankSide::West => { proof { reveal_strlit("w"); } "w" },
        }
    }

    /// The full form, as the alternate `Display` form renders it.
    pub fn long_str(self) -> (r: &'static str)
        ensures
            r@ == self.long_name(),
    {
        match self {
            RankSide::East => { proof { reveal_strlit("East"); } "East" },
            RankSide::West => { proof { reveal_strlit("West"); } "West" },
        }
    }

    /// The one-letter form as a `String`; this is what the database stores.
    pub fn to_string(&self) -> (r: String)
        ensures
            r@ == self.short_name(),
    {
        owned(self.short_str())
    }

    /// Reads a side from the bytes `b[start..end]`.
    pub fn parse_bytes(b: &[u8], start: usize, end: usize) -> (r: Option<RankSide>)
        requires
            start <= end <= b@.len(),
        ensures
            r == RankSide::parse_spec(b@.subrange(start as int, end as int)),
    {
        let e1 = ['E' as u8];
        let e2 = ['e' as u8];
        let e3 = ['E' as u8, 'a' as u8, 's' as u8, 't' as u8];
        let e4 = ['e' as u8, 'a' as u8, 's' as u8, 't' as u8];
        assert(e1@ =~= ascii_bytes(seq!['E']));
        assert(e2@ =~= ascii_bytes(seq!['e']));
        assert(e3@ =~= ascii_bytes(seq!['E', 'a', 's', 't']));
        assert(e4@ =~= ascii_bytes(seq!['e', 'a', 's', 't']));
        if bytes_eq(b, start, end, &e1) || bytes_eq(b, start, end, &e2)
            || bytes_eq(b, start, end, &e3) || bytes_eq(b, start, end, &e4) {
            return Some(RankSide::East);
        }
        let w1 = ['W' as u8];
        let w2 = ['w' as u8];
        let w3 = ['W' as u8, 'e' as u8, 's' as u8, 't' as u8];
        let w4 = ['w' as u8, 'e' as u8, 's' as u8, 't' as u8];
        assert(w1@ =~= ascii_bytes(seq!['W']));
        assert(w2@ =~= ascii_bytes(seq!['w']));
        assert(w3@ =~= ascii_bytes(seq!['W', 'e', 's', 't']));
        assert(w4@ =~= ascii_bytes(seq!['w', 'e', 's', 't']));
        if bytes_eq(b, start, end, &w1) || bytes_eq(b, start, end, &w2)
            || bytes_eq(b, start, end, &w3) || bytes_eq(b, start, end, &w4) {
            return Some(RankSide::West);
        }
        None
    }

    /// Reads a side.
    pub fn from_str(s: &str) -> (r: Result<RankSide, RankError>)
        ensures
            match RankSide::parse_spec(s.spec_bytes()) {
                Some(side) => r == Ok::<RankSide, RankError>(side),
                None => r matches Err(RankError::UnknownRankSide(p)) && p@ == s@,
            },
    {
        let b = s.as_bytes();
        proof { assert(b@.subrange(0, b@.len() as int) =~= b@); }
        match RankSide::parse_bytes(b, 0, b.len()) {
            Some(side) => Ok(side),
            None => Err(RankError::UnknownRankSide(owned(s))),
        }
    }
}

/// A rank group: the five pick slots are groups 1 to 5 (Yokozuna and Ozeki;
/// Sekiwake and Komusubi; Maegashira 1-5; 6-10; 11 and below), Juryo is 6 and
/// everything lower is 7.
#[derive(Debug, PartialEq, Eq, Structural, PartialOrd, Ord, Copy, Clone, Hash)]
pub struct RankGroup(pub u8);

impl RankGroup {
    /// The group of a rank with the given name and number.
    pub open spec fn spec_for_rank(name: RankName, number: u16) -> RankGroup {
        match name {
            RankName::Yokozuna | RankName::Ozeki => RankGroup(1),
            RankName::Sekiwake | RankName::Komusubi => RankGroup(2),
            RankName::Maegashira => if number <= 5 {
                RankGroup(3)
            } else if number <= 10 {
                RankGroup(4)
            } else {
                RankGroup(5)
            },
            RankName::Juryo => RankGroup(6),
            _ => RankGroup(7),
        }
    }

    pub open spec fn value(self) -> u8 {
        self.0
    }

    /// The group of a rank with the given name and number.
    pub fn for_rank(name: RankName, number: u16) -> (g: Self)
        ensures
            g == Self::spec_for_rank(name, number),
    {
        match name {
            RankName::Yokozuna | RankName::Ozeki => Self(1),
            RankName::Sekiwake | RankName::Komusubi => Self(2),
            RankName::Maegashira => if number <= 5 {
                Self(3)
            } else if number <= 10 {
                Self(4)
            } else {
                Self(5)
            },
            RankName::Juryo => Self(6),
            _ => Self(7),
        }
    }

    /// The number of groups a player picks from.
    pub fn count() -> (n: usize)
        ensures
            n == 5,
    {
        5
    }

    /// The zero-based slot of the group.
    pub fn as_index(self) -> (i: usize)
        requires
            self.0 >= 1,
        ensures
            i == self.0 - 1,
    {
        (self.0 - 1) as usize
    }

    /// The group number.
    pub fn get(self) -> (v: u8)
        ensures
            v == self.0,
    {
        self.0
    }

    /// The group number as text.
    pub fn to_string(&self) -> (r: String)
        ensures
            r@ == decimal(self.0 as nat),
    {
        let mut s = String::new();
        push_decimal(&mut s, self.0 as u64);
        proof { assert(s@ =~= decimal(self.0 as nat)); }
        s
    }
}

/// A banzuke rank, composed of, in decreasing order of importance: name, number, and side.
///
/// "Less than" means a higher rank: things are generally listed from high rank to low rank.
#[derive(Debug, PartialEq, Eq, Structural, Ord, Copy, Clone)]
pub struct Rank {
    pub name: RankName,
    pub number: u16,
    pub side: RankSide,
}

/// What reading a rank from text comes to, by byte offsets into the text.
pub enum RankParse {
    Parsed(Rank),
    UnknownName(int, int),
    UnknownSide(int, int),
    MissingName,
    MissingNumber,
    MissingSide,
    TooShort,
    BadNumber(IntErrorKind),
}

/// The first offset at or after `i` that does not hold ASCII whitespace.
pub open spec fn skip_ws(b: Seq<u8>, i: int) -> int
    decreases b.len() - i,
{
    if i < 0 || i >= b.len() || !is_ascii_ws(b[i]) {
        i
    } else {
        skip_ws(b, i + 1)
    }
}

/// The first offset at or after `i` that holds ASCII whitespace, or the end.
pub open spec fn token_end(b: Seq<u8>, i: int) -> int
    decreases b.len() - i,
{
    if i < 0 || i >= b.len() || is_ascii_ws(b[i]) {
        i
    } else {
        token_end(b, i + 1)
    }
}

impl Rank {
    /// Order of ranks: by name, then number, then side; `lt` means higher on the banzuke.
    pub open spec fn spec_lt(self, other: Rank) -> bool {
        ||| self.name.index() < other.name.index()
        ||| (self.name == other.name && self.number < other.number)
        ||| (self.name == other.name && self.number == other.number
                && self.side.index() < other.side.index())
    }

    /// The group of this rank.
    pub open spec fn spec_group(self) -> RankGroup {
        RankGroup::spec_for_rank(self.name, self.number)
    }

    pub open spec fn spec_is_makuuchi(self) -> bool {
        self.name.index() <= RankName::Maegashira.index()
    }

    /// A rank after which a new name begins: the named ranks, the last Maegashira
    /// (17), the last Juryo (14), Makushita (60), Sandanme (90) and Jonidan (100).
    pub open spec fn ends_name(self) -> bool {
        ||| self.name == RankName::Yokozuna
        ||| self.name == RankName::Ozeki
        ||| self.name == RankName::Sekiwake
        ||| self.name == RankName::Komusubi
        ||| (self.name == RankName::Maegashira && self.number == 17)
        ||| (self.name == RankName::Juryo && self.number == 14)
        ||| (self.name == RankName::Makushita && self.number == 60)
        ||| (self.name == RankName::Sandanme && self.number == 90)
        ||| (self.name == RankName::Jonidan && self.number == 100)
    }

    /// The rank right below this one: East to West at the same rank; from the West
    /// side of the last rank of a name to the top of the next name; otherwise to
    /// the East side of the next number. Jonokuchi and Banzuke-Gai go on without end.
    pub open spec fn spec_next_lower(self) -> Rank {
        if self.side == RankSide::East {
            Rank { name: self.name, side: RankSide::West, number: self.number }
        } else if self.ends_name() {
            Rank { name: self.name.spec_next().unwrap(), side: RankSide::East, number: 1 }
        } else {
            Rank { name: self.name, side: RankSide::East, number: (self.number + 1) as u16 }
        }
    }

    /// Can `next_lower` be taken without the number overflowing?
    pub open spec fn has_next_lower(self) -> bool {
        self.side == RankSide::East || self.ends_name() || self.number < 65535
    }

    /// The short text form, as in `Ms12w`.
    pub open spec fn text(self) -> Seq<char> {
        self.name.short_name() + decimal(self.number as nat) + self.side.short_name()
    }

    /// The long text form, as in `Makushita 12 West`.
    pub open spec fn text_alt(self) -> Seq<char> {
        self.name.long_name() + seq![' '] + decimal(self.number as nat) + seq![' ']
            + self.side.long_name()
    }

    /// Is the second character of the text an ASCII lowercase letter (a two-letter name)?
    pub open spec fn short_name_len(s: Seq<char>) -> int {
        if s.len() > 1 && is_ascii_lower(s[1]) { 2 } else { 1 }
    }

    /// Text short enough to be read in the short form (like `M14w`) can be cut
    /// where that form cuts it: before the last byte and after the name.
    pub open spec fn short_form_cuts_ok(s: &str) -> bool {
        let b = s.spec_bytes();
        let n = b.len() as int;
        n > 6 || n < 3 || (is_char_boundary(b, n - 1)
            && is_char_boundary(b, Rank::short_name_len(s@)))
    }

    /// Reading a rank. Text longer than six bytes is read in the long form, three
    /// whitespace-separated parts (name, number, side; more parts are ignored);
    /// shorter text in the short form: a one- or two-letter name (two when the
    /// second character is a lowercase ASCII letter), a number, and a one-letter side.
    pub open spec fn parse_spec(s: &str) -> RankParse {
        let b = s.spec_bytes();
        let n = b.len() as int;
        if n > 6 {
            let s0 = skip_ws(b, 0);
            let e0 = token_end(b, s0);
            let s1 = skip_ws(b, e0);
            let e1 = token_end(b, s1);
            let s2 = skip_ws(b, e1);
            let e2 = token_end(b, s2);
            if s0 == n {
                RankParse::MissingName
            } else if RankName::parse_spec(b.subrange(s0, e0)) is None {
                RankParse::UnknownName(s0, e0)
            } else if s1 == n {
                RankParse::MissingNumber
            } else if parse_unsigned(b.subrange(s1, e1), 65535) is Err {
                RankParse::BadNumber(parse_unsigned(b.subrange(s1, e1), 65535)->Err_0)
            } else if s2 == n {
                RankParse::MissingSide
            } else if RankSide::parse_spec(b.subrange(s2, e2)) is None {
                RankParse::UnknownSide(s2, e2)
            } else {
                RankParse::Parsed(Rank {
                    name: RankName::parse_spec(b.subrange(s0, e0))->Some_0,
                    number: parse_unsigned(b.subrange(s1, e1), 65535)->Ok_0 as u16,
                    side: RankSide::parse_spec(b.subrange(s2, e2))->Some_0,
                })
            }
        } else if n < 3 {
            RankParse::TooShort
        } else {
            let k = Rank::short_name_len(s@);
            if RankName::parse_spec(b.subrange(0, k)) is None {
                RankParse::UnknownName(0, k)
            } else if parse_unsigned(b.subrange(k, n - 1), 65535) is Err {
                RankParse::BadNumber(parse_unsigned(b.subrange(k, n - 1), 65535)->Err_0)
            } else if RankSide::parse_spec(b.subrange(n - 1, n)) is None {
                RankParse::UnknownSide(n - 1, n)
            } else {
                RankParse::Parsed(Rank {
                    name: RankName::parse_spec(b.subrange(0, k))->Some_0,
                    number: parse_unsigned(b.subrange(k, n - 1), 65535)->Ok_0 as u16,
                    side: RankSide::parse_spec(b.subrange(n - 1, n))->Some_0,
                })
            }
        }
    }

    /// Does the result of reading `s` agree with `parse_spec`? Error texts are the
    /// offending part of `s`.
    pub open spec fn parse_result_ok(s: &str, r: Result<Rank, RankError>) -> bool {
        let b = s.spec_bytes();
        match Rank::parse_spec(s) {
            RankParse::Parsed(rank) => r == Ok::<Rank, RankError>(rank),
            RankParse::UnknownName(i, j) =>
                r matches Err(RankError::UnknownRankName(p)) && encode_utf8(p@) == b.subrange(i, j),
            RankParse::UnknownSide(i, j) =>
                r matches Err(RankError::UnknownRankSide(p)) && encode_utf8(p@) == b.subrange(i, j),
            RankParse::MissingName =>
                r matches Err(RankError::MissingPart(p)) && p@ =~= seq!['n', 'a', 'm', 'e'],
            RankParse::MissingNumber =>
                r matches Err(RankError::MissingPart(p)) && p@ =~= seq!['n', 'u', 'm', 'b', 'e', 'r'],
            RankParse::MissingSide =>
                r matches Err(RankError::MissingPart(p)) && p@ =~= seq!['s', 'i', 'd', 'e'],
            RankParse::TooShort =>
                r matches Err(RankError::MissingPart(p)) && p@ =~= seq!['t', 'o', 'o', ' ', 's', 'h', 'o', 'r', 't'],
            RankParse::BadNumber(k) => r == Err::<Rank, RankError>(RankError::ParseIntError(k)),
        }
    }

    /// The highest rank, Yokozuna 1 East.
    pub fn top() -> (r: Self)
        ensures
            r == (Rank { name: RankName::Yokozuna, number: 1, side: RankSide::East }),
    {
        Self { name: RankName::Yokozuna, number: 1, side: RankSide::East }
    }

    /// A rank below any real one, Banzuke-Gai 999 West.
    pub fn bottom() -> (r: Self)
        ensures
            r == (Rank { name: RankName::BanzukeGai, number: 999, side: RankSide::West }),
    {
        Self { name: RankName::BanzukeGai, number: 999, side: RankSide::West }
    }

    /// The group of this rank.
    pub fn group(self) -> (g: RankGroup)
        ensures
            g == self.spec_group(),
    {
        RankGroup::for_rank(self.name, self.number)
    }

    /// Is this a top-division rank (Maegashira or above)?
    pub fn is_makuuchi(self) -> (r: bool)
        ensures
            r == self.spec_is_makuuchi(),
    {
        self.name.at_or_above(RankName::Maegashira)
    }

    /// The rank right below this one.
    pub fn next_lower(self) -> (r: Self)
        requires
            self.has_next_lower(),
        ensures
            r == self.spec_next_lower(),
    {
        match self.side {
            RankSide::East => Self { name: self.name, side: RankSide::West, number: self.number },
            RankSide::West => {
                let ends = match self.name {
                    RankName::Yokozuna | RankName::Ozeki | RankName::Sekiwake
                    | RankName::Komusubi => true,
                    RankName::Maegashira => self.number == 17,
                    RankName::Juryo => self.number == 14,
                    RankName::Makushita => self.number == 60,
                    RankName::Sandanme => self.number == 90,
                    RankName::Jonidan => self.number == 100,
                    _ => false,
                };
                if ends {
                    let next = self.name.next();
                    match next {
                        Some(name) => Self { name, side: RankSide::East, number: 1 },
                        None => self,
                    }
                } else {
                    Self { name: self.name, side: RankSide::East, number: self.number + 1 }
                }
            },
        }
    }

    /// Is `self` strictly higher on the banzuke than `other`?
    pub fn is_above(&self, other: &Rank) -> (r: bool)
        ensures
            r == self.spec_lt(*other),
    {
        let a = self.name.position();
        let b = other.name.position();
        if a != b {
            a < b
        } else if self.number != other.number {
            self.number < other.number
        } else {
            match (self.side, other.side) {
                (RankSide::East, RankSide::West) => true,
                _ => false,
            }
        }
    }

    /// The short text form, as in `Ms12w` (the plain `Display` form).
    pub fn to_string(&self) -> (r: String)
        ensures
            r@ == self.text(),
    {
        let mut s = owned(self.name.short_str());
        push_decimal(&mut s, self.number as u64);
        s.append(self.side.short_str());
        s
    }

    /// The long text form, as in `Makushita 12 West` (the alternate `Display` form).
    pub fn to_string_alt(&self) -> (r: String)
        ensures
            r@ == self.text_alt(),
    {
        let mut s = owned(self.name.long_str());
        proof { reveal_strlit(" "); }
        s.append(" ");
        push_decimal(&mut s, self.number as u64);
        s.append(" ");
        s.append(self.side.long_str());
        s
    }

    /// Reads a rank in the short form (`M14w`) or the long form (`Maegashira 14 West`).
    pub fn from_str(s: &str) -> (r: Result<Rank, RankError>)
        requires
            Rank::short_form_cuts_ok(s),
        ensures
            Rank::parse_result_ok(s, r),
    {
        let b = s.as_bytes();
        let n = b.len();
        proof { lemma_str_valid(s); }
        if n > 6 {
            let s0 = skip_ws_from(b, 0);
            if s0 == n {
                proof { reveal_strlit("name"); }
                return Err(RankError::MissingPart("name"));
            }
            let e0 = token_end_from(b, s0);
            let name = match RankName::parse_bytes(b, s0, e0) {
                Some(name) => name,
                None => {
                    proof {
                        lemma_token_bounds(b@, 0, s0 as int, e0 as int);
                    }
                    let part = substr(s, s0, e0);
                    return Err(RankError::UnknownRankName(owned(part)));
                },
            };
            let s1 = skip_ws_from(b, e0);
            if s1 == n {
                proof { reveal_strlit("number"); }
                return Err(RankError::MissingPart("number"));
            }
            let e1 = token_end_from(b, s1);
            let number = match parse_u16(b, s1, e1) {
                Ok(v) => v,
                Err(k) => return Err(RankError::ParseIntError(k)),
            };
            let s2 = skip_ws_from(b, e1);
            if s2 == n {
                proof { reveal_strlit("side"); }
                return Err(RankError::MissingPart("side"));
            }
            let e2 = token_end_from(b, s2);
            let side = match RankSide::parse_bytes(b, s2, e2) {
                Some(side) => side,
                None => {
                    proof {
                        lemma_token_end_props(b@, s1 as int);
                        lemma_token_bounds(b@, e1 as int, s2 as int, e2 as int);
                    }
                    let part = substr(s, s2, e2);
                    return Err(RankError::UnknownRankSide(owned(part)));
                },
            };
            Ok(Rank { name, number, side })
        } else if n < 3 {
            proof { reveal_strlit("too short"); }
            Err(RankError::MissingPart("too short"))
        } else {
            let k: usize = if s.unicode_len() > 1 && is_lower_char(s.get_char(1)) { 2 } else { 1 };
            assert(k == Rank::short_name_len(s@));
            let name = match RankName::parse_bytes(b, 0, k) {
                Some(name) => name,
                None => {
                    let part = substr(s, 0, k);
                    return Err(RankError::UnknownRankName(owned(part)));
                },
            };
            let number = match parse_u16(b, k, n - 1) {
                Ok(v) => v,
                Err(e) => return Err(RankError::ParseIntError(e)),
            };
            let side = match RankSide::parse_bytes(b, n - 1, n) {
                Some(side) => side,
                None => {
                    let part = substr(s, n - 1, n);
                    return Err(RankError::UnknownRankSide(owned(part)));
                },
            };
            Ok(Rank { name, number, side })
        }
    }
}

/// The order of ranks is a strict total order: irreflexive, transitive, and any two
/// different ranks are ordered one way or the other.
pub proof fn lemma_rank_order_total(a: Rank, b: Rank, c: Rank)
    ensures
        !a.spec_lt(a),
        a.spec_lt(b) && b.spec_lt(c) ==> a.spec_lt(c),
        a != b ==> (a.spec_lt(b) || b.spec_lt(a)),
        !(a.spec_lt(b) && b.spec_lt(a)),
{
    if a.name.index() == b.name.index() {
        lemma_name_index_injective(a.name, b.name);
    }
    if a.side.index() == b.side.index() {
        assert(a.side == b.side);
    }
}

proof fn lemma_name_index_injective(a: RankName, b: RankName)
    requires
        a.index() == b.index(),
    ensures
        a == b,
{
}

/// The rank that `next_lower` gives is strictly lower than the rank it was taken from.
pub proof fn lemma_next_lower_is_lower(r: Rank)
    requires
        r.has_next_lower(),
    ensures
        r.spec_lt(r.spec_next_lower()),
{
}

/// The named ranks (Yokozuna, Ozeki, Sekiwake, Komusubi) have one number each:
/// below the West side of one comes number 1 East of the next name down the
/// banzuke, and below its East side its West side.
pub proof fn lemma_named_rank_next_lower(r: Rank)
    requires
        r.name.index() <= 3,
    ensures
        r.side == RankSide::West ==> r.spec_next_lower().name.index() == r.name.index() + 1
            && r.spec_next_lower().number == 1 && r.spec_next_lower().side == RankSide::East,
        r.side == RankSide::East ==> r.spec_next_lower().name == r.name
            && r.spec_next_lower().number == r.number && r.spec_next_lower().side == RankSide::West,
{
}

/// The rank below any rank is the next one on the banzuke: the West side of the
/// same rank after the East side; after a West side either the next number of
/// the same name, or number 1 East of the next name down.
pub proof fn lemma_next_lower_is_next(r: Rank)
    requires
        r.has_next_lower(),
        r.name.index() < 10,
    ensures
        ({
            let n = r.spec_next_lower();
            ||| (r.side == RankSide::East && n == Rank { name: r.name, number: r.number, side: RankSide::West })
            ||| (r.side == RankSide::West && n.side == RankSide::East && n.name == r.name && n.number == r.number + 1)
            ||| (r.side == RankSide::West && n.side == RankSide::East && n.name.index() == r.name.index() + 1
                && n.number == 1)
        }),
{
}

/// Rank groups go down with the banzuke: a higher rank is never in a later group.
pub proof fn lemma_groups_follow_rank_order(a: Rank, b: Rank)
    requires
        a.spec_lt(b),
    ensures
        a.spec_group().0 <= b.spec_group().0,
{
}

/// The Maegashira are grouped five numbers to a group from number 1 (groups 3
/// and 4), and the rest of them, from number 11, make group 5.
pub proof fn lemma_maegashira_groups(n: u16)
    requires
        n >= 1,
    ensures
        RankGroup::spec_for_rank(RankName::Maegashira, n).0 == if n <= 10 { 3 + (n - 1) / 5 } else { 5 },
{
}

/// Every rank from Yokozuna to Jonidan has a next name, one place down.
pub proof fn lemma_next_name(n: RankName)
    requires
        n != RankName::BanzukeGai,
    ensures
        n.spec_next() is Some,
        n.spec_next()->Some_0.index() == n.index() + 1,
{
}

/// A name's abbreviation and full name read back as that name.
pub proof fn lemma_name_parses(n: RankName)
    ensures
        RankName::parse_spec(ascii_bytes(n.short_name())) == Some(n),
        RankName::parse_spec(ascii_bytes(n.long_name())) == Some(n),
{
    let sy = ascii_bytes(RankName::Yokozuna.short_name());
    let ly = ascii_bytes(RankName::Yokozuna.long_name());
    assert(sy =~= seq![0x59u8]);
    assert(ly =~= seq![0x59u8, 0x6f, 0x6b, 0x6f, 0x7a, 0x75, 0x6e, 0x61]);
    assert(ascii_bytes(RankName::Ozeki.short_name()) =~= seq![0x4fu8]);
    assert(ascii_bytes(RankName::Ozeki.long_name()) =~= seq![0x4fu8, 0x7a, 0x65, 0x6b, 0x69]);
    assert(ascii_bytes(RankName::Sekiwake.short_name()) =~= seq![0x53u8]);
    assert(ascii_bytes(RankName::Sekiwake.long_name()) =~= seq![0x53u8, 0x65, 0x6b, 0x69, 0x77, 0x61, 0x6b, 0x65]);
    assert(ascii_bytes(RankName::Komusubi.short_name()) =~= seq![0x4bu8]);
    assert(ascii_bytes(RankName::Komusubi.long_name()) =~= seq![0x4bu8, 0x6f, 0x6d, 0x75, 0x73, 0x75, 0x62, 0x69]);
    assert(ascii_bytes(RankName::Maegashira.short_name()) =~= seq![0x4du8]);
    assert(ascii_bytes(RankName::Maegashira.long_name()) =~= seq![0x4du8, 0x61, 0x65, 0x67, 0x61, 0x73, 0x68, 0x69, 0x72, 0x61]);
    assert(ascii_bytes(RankName::Juryo.short_name()) =~= seq![0x4au8]);
    assert(ascii_bytes(RankName::Juryo.long_name()) =~= seq![0x4au8, 0x75, 0x72, 0x79, 0x6f]);
    assert(ascii_bytes(RankName::Makushita.short_name()) =~= seq![0x4du8, 0x73]);
    assert(ascii_bytes(RankName::Makushita.long_name()) =~= seq![0x4du8, 0x61, 0x6b, 0x75, 0x73, 0x68, 0x69, 0x74, 0x61]);
    assert(ascii_bytes(RankName::Sandanme.short_name()) =~= seq![0x53u8, 0x64]);
    assert(ascii_bytes(RankName::Sandanme.long_name()) =~= seq![0x53u8, 0x61, 0x6e, 0x64, 0x61, 0x6e, 0x6d, 0x65]);
    assert(ascii_bytes(RankName::Jonidan.short_name()) =~= seq![0x4au8, 0x64]);
    assert(ascii_bytes(RankName::Jonidan.long_name()) =~= seq![0x4au8, 0x6f, 0x6e, 0x69, 0x64, 0x61, 0x6e]);
    assert(ascii_bytes(RankName::Jonokuchi.short_name()) =~= seq![0x4au8, 0x6b]);
    assert(ascii_bytes(RankName::Jonokuchi.long_name()) =~= seq![0x4au8, 0x6f, 0x6e, 0x6f, 0x6b, 0x75, 0x63, 0x68, 0x69]);
    assert(ascii_bytes(RankName::BanzukeGai.short_name()) =~= seq![0x58u8]);
    assert(ascii_bytes(RankName::BanzukeGai.long_name()) =~= seq![0x42u8, 0x61, 0x6e, 0x7a, 0x75, 0x6b, 0x65, 0x2d, 0x47, 0x61, 0x69]);
    let b = ascii_bytes(n.short_name());
    match n {
        RankName::Yokozuna => {},
        RankName::Ozeki => { assert(b[0] != sy[0]); },
        RankName::Sekiwake => { assert(b[0] != sy[0]); },
        RankName::Komusubi => { assert(b[0] != sy[0]); },
        RankName::Maegashira => { assert(b[0] != sy[0]); },
        RankName::Juryo => { assert(b[0] != sy[0]); },
        RankName::Makushita => {},
        RankName::Sandanme => {},
        RankName::Jonidan => {},
        RankName::Jonokuchi => {},
        RankName::BanzukeGai => { assert(b[0] != sy[0]); },
    }
}

/// A side's letter and full name, in either case of the first letter, read back
/// as that side.
pub proof fn lemma_side_parses(side: RankSide)
    ensures
        RankSide::parse_spec(ascii_bytes(side.short_name())) == Some(side),
        RankSide::parse_spec(ascii_bytes(side.long_name())) == Some(side),
{
    assert(ascii_bytes(seq!['E']) =~= seq![0x45u8]);
    assert(ascii_bytes(seq!['e']) =~= seq![0x65u8]);
    assert(ascii_bytes(seq!['E', 'a', 's', 't']) =~= seq![0x45u8, 0x61, 0x73, 0x74]);
    assert(ascii_bytes(seq!['e', 'a', 's', 't']) =~= seq![0x65u8, 0x61, 0x73, 0x74]);
    assert(ascii_bytes(RankSide::West.short_name()) =~= seq![0x77u8]);
    assert(ascii_bytes(RankSide::West.long_name()) =~= seq![0x57u8, 0x65, 0x73, 0x74]);
    let b = ascii_bytes(side.short_name());
    let e1 = ascii_bytes(seq!['E']);
    let e2 = ascii_bytes(seq!['e']);
    if side == RankSide::West {
        assert(b[0] != e1[0] && b[0] != e2[0]);
    }
}

/// Are all the characters ASCII?
pub open spec fn all_ascii(cs: Seq<char>) -> bool {
    forall|i: int| 0 <= i < cs.len() ==> (#[trigger] cs[i]) < 128
}

/// Writing a rank in the short form (`Ms12w`) and reading the text back gives the
/// rank, whenever the text is short enough (six bytes or fewer) to be read in the
/// short form.
pub proof fn lemma_short_text_roundtrip(r: Rank, s: &str)
    requires
        s@ == r.text(),
        r.text().len() <= 6,
    ensures
        Rank::parse_spec(s) == RankParse::Parsed(r),
{
    let t = r.text();
    let short = r.name.short_name();
    let digits = decimal(r.number as nat);
    let side = r.side.short_name();
    crate::text::lemma_decimal_digits(r.number as nat);
    crate::text::lemma_decimal_parses(r.number as nat);
    lemma_name_parses(r.name);
    lemma_side_parses(r.side);
    assert(is_ascii_chars(t)) by {
        assert forall|i: int| 0 <= i < t.len() implies (#[trigger] t[i]) < 128 by {
            if i < short.len() {
                assert(t[i] == short[i]);
            } else if i < short.len() + digits.len() {
                assert(t[i] == digits[i - short.len()]);
            } else {
                assert(t[i] == side[i - short.len() - digits.len()]);
            }
        }
    }
    lemma_ascii_encode(t);
    let b = s.spec_bytes();
    let n = b.len() as int;
    let k = short.len() as int;
    assert(b == ascii_bytes(t));
    assert(b.subrange(0, k) =~= ascii_bytes(short));
    assert(b.subrange(k, n - 1) =~= crate::text::decimal_bytes(r.number as nat));
    assert(b.subrange(n - 1, n) =~= ascii_bytes(side));
    assert(Rank::short_name_len(s@) == k) by {
        if k == 1 {
            assert(t[1] == digits[0]);
        } else {
            assert(t[1] == short[1]);
        }
    }
}

/// A run of non-whitespace bytes from `i` ends at `j` when `j` is whitespace or the end.
proof fn lemma_token_end_at(b: Seq<u8>, i: int, j: int)
    requires
        0 <= i <= j <= b.len(),
        forall|k: int| i <= k < j ==> !is_ascii_ws(#[trigger] b[k]),
        j == b.len() || is_ascii_ws(b[j]),
    ensures
        token_end(b, i) == j,
    decreases j - i,
{
    if i < j {
        lemma_token_end_at(b, i + 1, j);
    }
}

/// Skipping whitespace from `i` stops at `j` when `j` is not whitespace or the end.
proof fn lemma_skip_ws_at(b: Seq<u8>, i: int, j: int)
    requires
        0 <= i <= j <= b.len(),
        forall|k: int| i <= k < j ==> is_ascii_ws(#[trigger] b[k]),
        j == b.len() || !is_ascii_ws(b[j]),
    ensures
        skip_ws(b, i) == j,
    decreases j - i,
{
    if i < j {
        lemma_skip_ws_at(b, i + 1, j);
    }
}

/// No character of a full name or a side is whitespace, and all are ASCII letters
/// or the hyphen.
proof fn lemma_long_names_plain(n: RankName, side: RankSide)
    ensures
        n.long_name().len() >= 5,
        forall|i: int| 0 <= i < n.long_name().len() ==> ('A' <= #[trigger] n.long_name()[i] <= 'z' || n.long_name()[i] == '-'),
        side.long_name().len() == 4,
        forall|i: int| 0 <= i < 4 ==> 'A' <= #[trigger] side.long_name()[i] <= 'z',
{
}

/// Writing a rank in the long form (`Makushita 12 West`) and reading the text back
/// gives the rank.
pub proof fn lemma_long_text_roundtrip(r: Rank, s: &str)
    requires
        s@ == r.text_alt(),
    ensures
        Rank::parse_spec(s) == RankParse::Parsed(r),
{
    let t = r.text_alt();
    let long = r.name.long_name();
    let digits = decimal(r.number as nat);
    let side = r.side.long_name();
    let l = long.len() as int;
    let d = digits.len() as int;
    crate::text::lemma_decimal_digits(r.number as nat);
    crate::text::lemma_decimal_parses(r.number as nat);
    lemma_name_parses(r.name);
    lemma_side_parses(r.side);
    lemma_long_names_plain(r.name, r.side);
    assert(t =~= long + seq![' '] + digits + seq![' '] + side);
    assert forall|i: int| 0 <= i < t.len() implies (#[trigger] t[i]) < 128
        && (t[i] == ' ' <==> (i == l || i == l + 1 + d)) by {
        if i < l {
            assert(t[i] == long[i]);
        } else if i == l {
        } else if i < l + 1 + d {
            assert(t[i] == digits[i - l - 1]);
        } else if i == l + 1 + d {
        } else {
            assert(t[i] == side[i - l - 2 - d]);
        }
    }
    lemma_ascii_encode(t);
    let b = s.spec_bytes();
    let n = b.len() as int;
    assert(b == ascii_bytes(t));
    assert(n == l + d + 6);
    assert forall|k: int| 0 <= k < n implies (is_ascii_ws(#[trigger] b[k]) <==> (k == l || k == l + 1 + d)) by {
        assert(b[k] == t[k] as u8);
    }
    lemma_skip_ws_at(b, 0, 0);
    lemma_token_end_at(b, 0, l);
    lemma_skip_ws_at(b, l, l + 1);
    lemma_token_end_at(b, l + 1, l + 1 + d);
    lemma_skip_ws_at(b, l + 1 + d, l + 2 + d);
    lemma_token_end_at(b, l + 2 + d, n);
    assert(b.subrange(0, l) =~= ascii_bytes(long));
    assert(b.subrange(l + 1, l + 1 + d) =~= crate::text::decimal_bytes(r.number as nat));
    assert(b.subrange(l + 2 + d, n) =~= ascii_bytes(side));
}

/// Is `c` an ASCII lowercase letter?
fn is_lower_char(c: char) -> (r: bool)
    ensures
        r == is_ascii_lower(c),
{
    'a' <= c && c <= 'z'
}

/// The first offset at or after `i` that does not hold ASCII whitespace.
fn skip_ws_from(b: &[u8], i: usize) -> (r: usize)
    requires
        i <= b@.len(),
    ensures
        r == skip_ws(b@, i as int),
        i <= r <= b@.len(),
{
    let mut j = i;
    while j < b.len() && (b[j] == 0x20 || b[j] == 0x09 || b[j] == 0x0a || b[j] == 0x0c || b[j] == 0x0d)
        invariant
            i <= j <= b@.len(),
            skip_ws(b@, j as int) == skip_ws(b@, i as int),
        decreases b@.len() - j,
    {
        j = j + 1;
    }
    j
}

/// The first offset at or after `i` that holds ASCII whitespace, or the end.
fn token_end_from(b: &[u8], i: usize) -> (r: usize)
    requires
        i <= b@.len(),
    ensures
        r == token_end(b@, i as int),
        i <= r <= b@.len(),
{
    let mut j = i;
    while j < b.len() && !(b[j] == 0x20 || b[j] == 0x09 || b[j] == 0x0a || b[j] == 0x0c || b[j] == 0x0d)
        invariant
            i <= j <= b@.len(),
            token_end(b@, j as int) == token_end(b@, i as int),
        decreases b@.len() - j,
    {
        j = j + 1;
    }
    j
}

proof fn lemma_skip_ws_props(b: Seq<u8>, i: int)
    requires
        0 <= i <= b.len(),
    ensures
        i <= skip_ws(b, i) <= b.len(),
        skip_ws(b, i) > i ==> is_ascii_ws(b[skip_ws(b, i) - 1]),
    decreases b.len() - i,
{
    if i < b.len() && is_ascii_ws(b[i]) {
        lemma_skip_ws_props(b, i + 1);
    }
}

proof fn lemma_token_end_props(b: Seq<u8>, i: int)
    requires
        0 <= i <= b.len(),
    ensures
        i <= token_end(b, i) <= b.len(),
        token_end(b, i) < b.len() ==> is_ascii_ws(b[token_end(b, i)]),
    decreases b.len() - i,
{
    if i < b.len() && !is_ascii_ws(b[i]) {
        lemma_token_end_props(b, i + 1);
    }
}

/// The token that starts at `skip_ws(b, from)` is cut at character boundaries,
/// when `from` is 0 or the end of an earlier token.
proof fn lemma_token_bounds(b: Seq<u8>, from: int, start: int, end: int)
    requires
        valid_utf8(b),
        0 <= from <= b.len(),
        from == 0 || from == b.len() || is_ascii_ws(b[from]),
        start == skip_ws(b, from),
        start < b.len(),
        end == token_end(b, start),
    ensures
        is_char_boundary(b, start),
        is_char_boundary(b, end),
        start <= end <= b.len(),
{
    lemma_skip_ws_props(b, from);
    lemma_token_end_props(b, start);
    is_char_boundary_start_end_of_seq(b);
    if from < b.len() && is_ascii_ws(b[from]) {
        lemma_skip_ws_props(b, from + 1);
    }
    if start > from {
        lemma_after_ascii_is_boundary(b, start);
    }
    if end < b.len() {
        lemma_ascii_is_boundary(b, end);
    }
}

} // verus!
