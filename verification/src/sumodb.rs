//! The day's makuuchi bouts as SumoDB prints them: where the text results page
//! is, and the part of it that lists the top division.

use vstd::prelude::*;

use crate::basho_id::BashoId;
use crate::text::{decimal, push_decimal};
use crate::utf8_text::lit_string;

verus! {

/// Where SumoDB's text results of a day are.
pub const RESULTS_PAGE: &'static str = "http://sumodb.sumogames.de/Results_text.aspx?b=";

/// The pattern that finds the makuuchi bouts in a results page, with `.`
/// matching line ends too: the text after `Makuuchi` in the page's `<pre>` block.
pub const MAKUUCHI_PATTERN: &'static str = "<div +class=\"simplecontent\">\\s*<pre>.*?\\WMakuuchi\\s+(.*?)</pre>";

/// Why the makuuchi bouts could not be read from a page.
#[derive(Debug, PartialEq, Eq, Structural)]
pub enum SumodbError {
    /// The page holds no makuuchi block where the pattern looks for it.
    NoMatch,
}

/// The URL of the text results of a day of a basho.
pub fn results_url(basho_id: BashoId, day: u8) -> (r: String)
    ensures
        r@ == RESULTS_PAGE@ + basho_id.id_text() + "&d="@ + decimal(day as nat),
{
    let mut s = lit_string(RESULTS_PAGE);
    let id = basho_id.id();
    s.append(id.as_str());
    s.append("&d=");
    push_decimal(&mut s, day as u64);
    s
}

/// The text that the first group of the first match of `pattern`, built with `.`
/// matching line ends, takes in `text`; `None` where the pattern does not build,
/// does not match, or matches without that group.
pub uninterp spec fn regex_capture_dotall(pattern: Seq<char>, text: Seq<char>) -> Option<Seq<char>>;

/// `regex::RegexBuilder::new(pattern).dot_matches_new_line(true).build()`, then
/// `Regex::captures(text)` and its group 1. The result is named
/// `regex_capture_dotall`; what the regex engine matches is left unsaid.
#[verifier::external_body]
fn capture_dotall(pattern: &str, text: &str) -> (r: Option<String>)
    ensures
        match r {
            Some(c) => regex_capture_dotall(pattern@, text@) == Some(c@),
            None => regex_capture_dotall(pattern@, text@) is None,
        },
{
    match regex::RegexBuilder::new(pattern).dot_matches_new_line(true).build() {
        Ok(re) => match re.captures(text) {
            Some(cap) => match cap.get(1) {
                Some(m) => Some(m.as_str().to_string()),
                None => None,
            },
            None => None,
        },
        Err(_) => None,
    }
}

/// The makuuchi bouts of a results page: what `MAKUUCHI_PATTERN` captures, or
/// `NoMatch` where it captures nothing.
pub fn makuuchi_torikumi_text(page: &str) -> (r: Result<String, SumodbError>)
    ensures
        match regex_capture_dotall(MAKUUCHI_PATTERN@, page@) {
            Some(c) => r matches Ok(t) && t@ == c,
            None => r == Err::<String, SumodbError>(SumodbError::NoMatch),
        },
{
    match capture_dotall(MAKUUCHI_PATTERN, page) {
        Some(c) => Ok(c),
        None => Err(SumodbError::NoMatch),
    }
}

} // verus!
