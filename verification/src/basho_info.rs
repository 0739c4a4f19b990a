//! Which basho the site is about: the current one, the previous one, the next one,
//! and the link each basho is shown under.

use vstd::prelude::*;

use crate::basho_id::{BashoId, BashoRange};
use crate::utf8_text::lit_string;

verus! {

/// The first basho the game was played for: January 2019.
pub fn very_first_basho() -> (b: BashoId)
    ensures
        b == (BashoId { year: 2019, month: 1 }),
{
    BashoId { year: 2019, month: 1 }
}

/// The basho in session, or else the one after the last completed one; the very
/// first basho when none is completed.
pub fn current_or_next_basho_id(last_completed: Option<BashoId>) -> (b: BashoId)
    requires
        last_completed matches Some(id) ==> id.incr_ok(1),
    ensures
        b == match last_completed {
            Some(id) => id.spec_incr(1),
            None => BashoId { year: 2019, month: 1 },
        },
{
    match last_completed {
        Some(id) => id.incr(1),
        None => very_first_basho(),
    }
}

/// The link a basho is shown under: its page elsewhere when it has one, else its
/// page here.
pub fn link_url(external_link: &Option<String>, id: BashoId) -> (r: String)
    ensures
        r@ == match external_link {
            Some(l) => l@,
            None => "/basho/"@ + id.id_text(),
        },
{
    match external_link {
        Some(l) => l.clone(),
        None => {
            let r = id.url_path();
            proof { reveal_strlit("/basho/"); }
            r
        },
    }
}

/// The current and the previous basho from the two latest: the latest is current
/// while it has no winners; once it has, it is the previous one and there is no
/// current one.
pub fn current_and_previous<T>(latest: Option<T>, before: Option<T>, latest_has_winners: bool) -> (r: (Option<T>, Option<T>))
    ensures
        r == match latest {
            Some(l) => if latest_has_winners { (None, Some(l)) } else { (Some(l), before) },
            None => (None, None),
        },
{
    match latest {
        Some(l) => if latest_has_winners { (None, Some(l)) } else { (Some(l), before) },
        None => (None, None),
    }
}

/// The basho the home page looks ahead to: the one after the previous basho, or
/// November 2019 when there is none.
pub fn next_basho_id(previous: Option<BashoId>) -> (b: BashoId)
    requires
        previous matches Some(id) ==> id.incr_ok(1),
    ensures
        b == match previous {
            Some(id) => id.spec_incr(1),
            None => BashoId { year: 2019, month: 11 },
        },
{
    match previous {
        Some(id) => id.next(),
        None => BashoId { year: 2019, month: 11 },
    }
}

/// The basho the home page's leaders are counted over: the six before `next`.
pub fn leaders_range(next: BashoId) -> (r: BashoRange)
    requires
        next.incr_ok(-6),
    ensures
        r.start == next.spec_incr(-6),
        r.end == next,
{
    next.range_for_banzuke()
}

/// Where the app's start page sends a visitor: the current basho's link, else home.
pub fn start_page(current_link: Option<String>) -> (r: String)
    ensures
        r@ == match current_link {
            Some(l) => l@,
            None => "/"@,
        },
{
    match current_link {
        Some(l) => l,
        None => lit_string("/"),
    }
}

/// The basho whose player ranks a backfill recomputes: from the very first one,
/// two months at a time, while not after `to`.
pub fn backfill_ids(to: BashoId) -> (r: Vec<BashoId>)
    requires
        to.incr_month_ok(1),
        BashoRange::walk_ok(BashoId { year: 2019, month: 1 }, to.spec_incr_month(1)),
    ensures
        r@ == BashoRange::spec_ids(BashoId { year: 2019, month: 1 }, to.spec_incr_month(1)),
{
    let range = BashoRange { start: very_first_basho(), end: to.incr_month(1) };
    range.to_vec()
}

} // verus!
