//! Basho ids: a year and a month, the six tournaments of a year being two months apart.

use vstd::prelude::*;
use vstd::string::*;

use crate::dates::{english_month_name, month_name, nth_sunday_time, parse_ymd, sunday_time, ymd_date_parse};
use crate::text::{decimal_padded, push_decimal_padded};
use crate::utf8_text::{lit_string, owned};

verus! {

/// A tournament, named by its year and month (`202307` is July 2023).
#[derive(Debug, PartialEq, Eq, Structural, Ord, Copy, Clone, Hash)]
pub struct BashoId {
    pub year: u16,
    pub month: u8,
}

/// The number of basho before a basho that count towards a player's ranking for it.
pub const N_BASHO_FOR_BANZUKE: usize = 6;

/// Why text could not be read as a basho id.
#[derive(Debug)]
pub struct BashoIdParseError {
    pub cause: chrono::format::ParseError,
}

/// A half-open range of basho ids: from `start` up to, not including, `end`.
#[derive(Debug, Clone, Copy)]
pub struct BashoRange {
    pub start: BashoId,
    pub end: BashoId,
}

/// Walks a `BashoRange` one basho (two months) at a time.
pub struct BashoIterator {
    pub range: BashoRange,
}

/// Rust's division, which truncates towards zero.
pub open spec fn trunc_div(a: int, b: int) -> int {
    if a >= 0 { a / b } else { -((-a) / b) }
}

/// Rust's remainder, which takes the sign of the dividend.
pub open spec fn trunc_rem(a: int, b: int) -> int {
    a - b * trunc_div(a, b)
}

impl BashoId {
    /// Order of ids: by year, then month.
    pub open spec fn spec_lt(self, other: BashoId) -> bool {
        self.year < other.year || (self.year == other.year && self.month < other.month)
    }

    /// The id as text: four-digit year and two-digit month, as in `202307`.
    pub open spec fn id_text(self) -> Seq<char> {
        decimal_padded(self.year as nat, 4) + decimal_padded(self.month as nat, 2)
    }

    /// The month count `year * 12 + month - 1` after moving `months` months.
    pub open spec fn shifted_months(self, months: int) -> int {
        self.year * 12 + self.month - 1 + months
    }

    /// The id `months` months later (earlier, when negative), normalised to a month of 1 to 12.
    pub open spec fn spec_incr_month(self, months: int) -> BashoId {
        let total = self.shifted_months(months);
        BashoId { year: (total / 12) as u16, month: ((total % 12) + 1) as u8 }
    }

    /// Moving `months` months keeps the year within `u16`.
    pub open spec fn incr_month_ok(self, months: int) -> bool {
        &&& 0 <= self.shifted_months(months) / 12 <= 65535
        &&& self.month + months <= isize::MAX
        &&& self.month + months >= isize::MIN
    }

    /// Moving `count` basho keeps the year within `u16`.
    pub open spec fn incr_ok(self, count: int) -> bool {
        &&& isize::MIN <= count * 2 <= isize::MAX
        &&& self.incr_month_ok(count * 2)
    }

    /// The id `count` basho later (earlier, when negative).
    pub open spec fn spec_incr(self, count: int) -> BashoId {
        self.spec_incr_month(count * 2)
    }

    /// The venue where the basho of a month is held.
    pub open spec fn venue(self) -> Seq<char> {
        if self.month == 1 || self.month == 5 || self.month == 9 {
            seq!['T', 'o', 'k', 'y', 'o']
        } else if self.month == 3 {
            seq!['O', 's', 'a', 'k', 'a']
        } else if self.month == 7 {
            seq!['N', 'a', 'g', 'o', 'y', 'a']
        } else if self.month == 11 {
            seq!['F', 'u', 'k', 'u', 'o', 'k', 'a']
        } else {
            seq!['?']
        }
    }

    /// The season name of the basho of a month, or the month's name for other months.
    pub open spec fn season_name(self) -> Seq<char> {
        if self.month == 1 {
            seq!['H', 'a', 't', 's', 'u']
        } else if self.month == 3 {
            seq!['H', 'a', 'r', 'u']
        } else if self.month == 5 {
            seq!['N', 'a', 't', 's', 'u']
        } else if self.month == 7 {
            seq!['N', 'a', 'g', 'o', 'y', 'a']
        } else if self.month == 9 {
            seq!['A', 'k', 'i']
        } else if self.month == 11 {
            seq!['K', 'y', 'u', 's', 'h', 'u']
        } else {
            english_month_name(self.month as int)
        }
    }

    /// The id as text: four-digit year and two-digit month, as in `202307`.
    pub fn id(self) -> (r: String)
        ensures
            r@ == self.id_text(),
    {
        let mut s = String::new();
        push_decimal_padded(&mut s, self.year as u64, 4);
        push_decimal_padded(&mut s, self.month as u64, 2);
        proof { assert(s@ =~= self.id_text()); }
        s
    }

    /// The path of the basho's page, as in `/basho/202307`.
    pub fn url_path(self) -> (r: String)
        ensures
            r@ == seq!['/', 'b', 'a', 's', 'h', 'o', '/'] + self.id_text(),
    {
        proof { reveal_strlit("/basho/"); }
        let mut s = lit_string("/basho/");
        let id = self.id();
        s.append(id.as_str());
        s
    }

    /// The venue where the basho of this month is held.
    pub fn expected_venue(self) -> (r: String)
        ensures
            r@ == self.venue(),
    {
        match self.month {
            1 | 5 | 9 => {
                proof { reveal_strlit("Tokyo"); }
                lit_string("Tokyo")
            },
            3 => {
                proof { reveal_strlit("Osaka"); }
                lit_string("Osaka")
            },
            7 => {
                proof { reveal_strlit("Nagoya"); }
                lit_string("Nagoya")
            },
            11 => {
                proof { reveal_strlit("Fukuoka"); }
                lit_string("Fukuoka")
            },
            _ => {
                proof { reveal_strlit("?"); }
                lit_string("?")
            },
        }
    }

    /// The season name of the basho (Hatsu, Haru, Natsu, Nagoya, Aki, Kyushu), or
    /// the month's name in other months.
    pub fn season(self) -> (r: String)
        requires
            1 <= self.month <= 12,
        ensures
            r@ == self.season_name(),
    {
        match self.month {
            1 => {
                proof { reveal_strlit("Hatsu"); }
                lit_string("Hatsu")
            },
            3 => {
                proof { reveal_strlit("Haru"); }
                lit_string("Haru")
            },
            5 => {
                proof { reveal_strlit("Natsu"); }
                lit_string("Natsu")
            },
            7 => {
                proof { reveal_strlit("Nagoya"); }
                lit_string("Nagoya")
            },
            9 => {
                proof { reveal_strlit("Aki"); }
                lit_string("Aki")
            },
            11 => {
                proof { reveal_strlit("Kyushu"); }
                lit_string("Kyushu")
            },
            _ => self.month_name(),
        }
    }

    /// The English name of the month.
    pub fn month_name(self) -> (r: String)
        requires
            1 <= self.month <= 12,
        ensures
            r@ == english_month_name(self.month as int),
    {
        month_name(self.year, self.month)
    }

    /// The title of the basho, as in `Nagoya Basho July 2023` (the plain `Display` form).
    pub fn to_string(&self) -> (r: String)
        requires
            1 <= self.month <= 12,
        ensures
            r@ == self.season_name() + seq![' ', 'B', 'a', 's', 'h', 'o', ' ']
                + english_month_name(self.month as int) + seq![' ']
                + decimal_padded(self.year as nat, 4),
    {
        let mut s = self.season();
        proof { reveal_strlit(" Basho "); reveal_strlit(" "); }
        s.append(" Basho ");
        let m = self.month_name();
        s.append(m.as_str());
        s.append(" ");
        push_decimal_padded(&mut s, self.year as u64, 4);
        s
    }

    /// The month and year, as in `July 2023` (the alternate `Display` form).
    pub fn to_string_alt(&self) -> (r: String)
        requires
            1 <= self.month <= 12,
        ensures
            r@ == english_month_name(self.month as int) + seq![' ']
                + decimal_padded(self.year as nat, 4),
    {
        let mut s = self.month_name();
        proof { reveal_strlit(" "); }
        s.append(" ");
        push_decimal_padded(&mut s, self.year as u64, 4);
        s
    }

    /// The next basho.
    pub fn next(self) -> (r: BashoId)
        requires
            self.incr_ok(1),
        ensures
            r == self.spec_incr(1),
    {
        self.incr(1)
    }

    /// The basho whose results count towards a player's ranking for this basho:
    /// the six basho before it.
    pub fn range_for_banzuke(self) -> (r: BashoRange)
        requires
            self.incr_ok(-6),
        ensures
            r.start == self.spec_incr(-6),
            r.end == self,
    {
        BashoRange { start: self.incr(-(N_BASHO_FOR_BANZUKE as isize)), end: self }
    }

    /// The basho `count` basho later (earlier, when negative).
    pub fn incr(self, count: isize) -> (r: BashoId)
        requires
            self.incr_ok(count as int),
        ensures
            r == self.spec_incr(count as int),
    {
        self.incr_month(count * 2)
    }

    /// The id `months` months later (earlier, when negative).
    pub fn incr_month(self, months: isize) -> (r: BashoId)
        requires
            self.incr_month_ok(months as int),
        ensures
            r == self.spec_incr_month(months as int),
    {
        let ghost total = self.shifted_months(months as int);
        let mut year: u16 = self.year;
        let mut month: isize = (self.month as isize) + months;
        while month > 12
            invariant
                year * 12 + month - 1 == total,
                0 <= total / 12 <= 65535,
                year >= self.year,
            decreases month,
        {
            proof {
                assert(year + 1 <= total / 12) by {
                    assert(year * 12 + 12 <= total);
                }
            }
            year = year + 1;
            month = month - 12;
        }
        while month < 1
            invariant
                year * 12 + month - 1 == total,
                0 <= total / 12 <= 65535,
                month <= 12,
            decreases 12 - month,
        {
            proof {
                assert(year >= 1) by {
                    assert(total >= 0);
                }
            }
            year = year - 1;
            month = month + 12;
        }
        proof {
            assert(total / 12 == year && total % 12 == month - 1) by {
                assert(0 <= month - 1 < 12);
                assert(total == year * 12 + (month - 1));
            }
        }
        BashoId { year, month: month as u8 }
    }

    /// Is `self` an earlier basho than `other`?
    pub fn is_before(&self, other: &BashoId) -> (r: bool)
        ensures
            r == self.spec_lt(*other),
    {
        self.year < other.year || (self.year == other.year && self.month < other.month)
    }

    /// The id of a date's year and month, truncated to the field types.
    pub fn from_year_month(year: i32, month: u32) -> (r: BashoId)
        ensures
            r == (BashoId { year: year as u16, month: month as u8 }),
    {
        BashoId { year: year as u16, month: month as u8 }
    }

    /// Reads an id such as `202307`, as `chrono` reads the date `20230701`.
    pub fn from_str(s: &str) -> (r: Result<BashoId, BashoIdParseError>)
        ensures
            match ymd_date_parse(s@ + seq!['0', '1']) {
                Some(ym) => r == Ok::<BashoId, BashoIdParseError>(
                    BashoId { year: ym.0 as u16, month: ym.1 as u8 }),
                None => r is Err,
            },
    {
        let mut with_day = owned(s);
        proof { reveal_strlit("01"); }
        with_day.append("01");
        assert(with_day@ =~= s@ + seq!['0', '1']);
        match parse_ymd(with_day.as_str()) {
            Ok((year, month)) => Ok(BashoId::from_year_month(year, month)),
            Err(cause) => Err(BashoIdParseError { cause }),
        }
    }

    /// The id of a number such as `202307`: hundreds are the year, the rest the month,
    /// both truncated to the field types.
    pub fn from_number(value: i64) -> (r: BashoId)
        ensures
            r == (BashoId {
                year: trunc_div(value as int, 100) as u16,
                month: trunc_rem(value as int, 100) as u8,
            }),
    {
        let y = value / 100;
        let m = value % 100;
        assert(y == trunc_div(value as int, 100));
        assert(m == trunc_rem(value as int, 100));
        BashoId { year: y as u16, month: m as u8 }
    }
}

/// How far `start` is from `end` in the order of ids; zero when not before it.
pub open spec fn id_gap(start: BashoId, end: BashoId) -> nat {
    let a = start.year * 256 + start.month;
    let b = end.year * 256 + end.month;
    if a < b { (b - a) as nat } else { 0 }
}

impl BashoRange {
    /// The basho of the range, two months apart, from `start` while before `end`.
    pub open spec fn spec_ids(start: BashoId, end: BashoId) -> Seq<BashoId>
        decreases id_gap(start, end),
    {
        if start.spec_lt(end) && start.incr_ok(1) {
            proof { lemma_incr_advances(start); }
            seq![start] + BashoRange::spec_ids(start.spec_incr(1), end)
        } else {
            seq![]
        }
    }

    /// Walking the range never moves past year 65535.
    pub open spec fn walk_ok(start: BashoId, end: BashoId) -> bool
        decreases id_gap(start, end),
    {
        if start.spec_lt(end) {
            proof {
                if start.incr_ok(1) {
                    lemma_incr_advances(start);
                }
            }
            start.incr_ok(1) && BashoRange::walk_ok(start.spec_incr(1), end)
        } else {
            true
        }
    }

    /// A walk over the range.
    pub fn iter(&self) -> (it: BashoIterator)
        ensures
            it.range == *self,
    {
        BashoIterator { range: *self }
    }

    /// All the basho of the range, in order.
    pub fn to_vec(&self) -> (v: Vec<BashoId>)
        requires
            BashoRange::walk_ok(self.start, self.end),
        ensures
            v@ == BashoRange::spec_ids(self.start, self.end),
    {
        let mut it = self.iter();
        let mut v: Vec<BashoId> = Vec::new();
        loop
            invariant
                BashoRange::walk_ok(it.range.start, it.range.end),
                it.range.end == self.end,
                v@ + BashoRange::spec_ids(it.range.start, it.range.end)
                    == BashoRange::spec_ids(self.start, self.end),
            ensures
                v@ == BashoRange::spec_ids(self.start, self.end),
            decreases id_gap(it.range.start, it.range.end),
        {
            let ghost before = it.range.start;
            match it.next() {
                Some(id) => {
                    proof {
                        lemma_incr_advances(before);
                        assert(v@.push(id) + BashoRange::spec_ids(it.range.start, it.range.end)
                            =~= v@ + BashoRange::spec_ids(before, it.range.end));
                    }
                    v.push(id);
                },
                None => {
                    proof {
                        assert(v@ =~= v@ + BashoRange::spec_ids(it.range.start, it.range.end));
                    }
                    break;
                },
            }
        }
        v
    }
}

/// Moving one basho on goes strictly later in the order of ids.
pub proof fn lemma_incr_advances(b: BashoId)
    requires
        b.incr_ok(1),
    ensures
        b.spec_lt(b.spec_incr(1)),
        (b.year * 256 + b.month) < (b.spec_incr(1).year * 256 + b.spec_incr(1).month),
{
    let total = b.shifted_months(2);
    let n = b.spec_incr(1);
    assert(n.year == total / 12);
    assert(n.month == total % 12 + 1);
    if b.month + 2 <= 12 && b.month >= 1 {
        assert(total / 12 == b.year);
    } else if b.month == 0 {
        assert(total / 12 == b.year);
    } else {
        assert(total / 12 >= b.year + 1);
    }
}

/// Moving by months composes: moving `a` months and then `b` months is moving `a + b`.
pub proof fn lemma_incr_month_compose(x: BashoId, a: int, b: int)
    requires
        1 <= x.month <= 12,
        x.incr_month_ok(a),
        0 <= x.shifted_months(a + b) / 12 <= 65535,
    ensures
        x.spec_incr_month(a).spec_incr_month(b) == x.spec_incr_month(a + b),
{
    let t = x.shifted_months(a);
    let y = x.spec_incr_month(a);
    assert(y.year * 12 + y.month - 1 == t);
    assert(y.shifted_months(b) == x.shifted_months(a + b));
}

/// The basho that count towards a ranking (`range_for_banzuke`) are exactly the six
/// basho before it, oldest first.
pub proof fn lemma_banzuke_range_is_six_basho(b: BashoId)
    requires
        1 <= b.month <= 12,
        b.incr_ok(-6),
    ensures
        BashoRange::spec_ids(b.spec_incr(-6), b)
            == seq![b.spec_incr(-6), b.spec_incr(-5), b.spec_incr(-4), b.spec_incr(-3),
                b.spec_incr(-2), b.spec_incr(-1)],
        BashoRange::walk_ok(b.spec_incr(-6), b),
{
    let t = b.shifted_months(0);
    assert forall|k: int| -6 <= k <= 0 implies {
        &&& #[trigger] b.spec_incr(k).year * 12 + b.spec_incr(k).month - 1 == t + 2 * k
        &&& 1 <= b.spec_incr(k).month <= 12
        &&& b.incr_ok(k)
    } by {
        assert(b.shifted_months(2 * k) == t + 2 * k);
    }
    assert forall|k: int| -6 <= k < 0 implies
        #[trigger] b.spec_incr(k).spec_incr(1) == b.spec_incr(k + 1)
        && b.spec_incr(k).incr_ok(1)
        && b.spec_incr(k).spec_lt(b) by {
        let x = b.spec_incr(k);
        assert(x.shifted_months(2) == t + 2 * k + 2);
    }
    assert(b.spec_incr(0) == b);
    let s0 = b.spec_incr(-6);
    let s1 = b.spec_incr(-5);
    let s2 = b.spec_incr(-4);
    let s3 = b.spec_incr(-3);
    let s4 = b.spec_incr(-2);
    let s5 = b.spec_incr(-1);
    assert(!b.spec_lt(b));
    assert(BashoRange::spec_ids(b, b) == Seq::<BashoId>::empty());
    assert(BashoRange::spec_ids(s5, b) =~= seq![s5]);
    assert(BashoRange::spec_ids(s4, b) =~= seq![s4, s5]);
    assert(BashoRange::spec_ids(s3, b) =~= seq![s3, s4, s5]);
    assert(BashoRange::spec_ids(s2, b) =~= seq![s2, s3, s4, s5]);
    assert(BashoRange::spec_ids(s1, b) =~= seq![s1, s2, s3, s4, s5]);
    assert(BashoRange::spec_ids(s0, b) =~= seq![s0, s1, s2, s3, s4, s5]);
    assert(BashoRange::walk_ok(b, b));
    assert(BashoRange::walk_ok(s5, b));
    assert(BashoRange::walk_ok(s4, b));
    assert(BashoRange::walk_ok(s3, b));
    assert(BashoRange::walk_ok(s2, b));
    assert(BashoRange::walk_ok(s1, b));
    assert(BashoRange::walk_ok(s0, b));
}

impl BashoIterator {
    /// The next basho of the range, moving the start on by one basho.
    pub fn next(&mut self) -> (r: Option<BashoId>)
        requires
            BashoRange::walk_ok(old(self).range.start, old(self).range.end),
        ensures
            old(self).range.start.spec_lt(old(self).range.end) ==> {
                &&& r == Some(old(self).range.start)
                &&& final(self).range.start == old(self).range.start.spec_incr(1)
                &&& final(self).range.end == old(self).range.end
            },
            !old(self).range.start.spec_lt(old(self).range.end) ==> {
                &&& r is None
                &&& *final(self) == *old(self)
            },
    {
        if !self.range.start.is_before(&self.range.end) {
            None
        } else {
            let val = self.range.start;
            self.range.start = val.next();
            Some(val)
        }
    }
}

impl BashoId {
    /// When the basho is expected to start, in Unix seconds: 15:00 UTC+9 on the
    /// second Sunday of its month, as `chrono` computes it.
    pub open spec fn spec_expected_start(self) -> Option<i64> {
        nth_sunday_time(self.year as i32, self.month as u32, 2, 15, 32400)
    }

    /// When the basho is expected to start, in Unix seconds.
    pub fn expected_start_date(self) -> (t: i64)
        requires
            self.spec_expected_start() is Some,
        ensures
            self.spec_expected_start() == Some(t),
    {
        match sunday_time(self.year as i32, self.month as u32, 2, 15, 32400) {
            Some(t) => t,
            None => 0,
        }
    }

    /// When the basho is expected to start, or `None` where the month has no such
    /// day (not a month 1 to 12).
    pub fn expected_start_date_checked(self) -> (t: Option<i64>)
        ensures
            t == self.spec_expected_start(),
    {
        match sunday_time(self.year as i32, self.month as u32, 2, 15, 32400) {
            Some(_) => Some(self.expected_start_date()),
            None => None,
        }
    }
}

} // verus!
