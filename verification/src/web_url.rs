//! URLs, as the url crate reads, joins and changes them. Each URL here is its
//! serialized text.

use vstd::prelude::*;

verus! {

/// The serialized URL that the url crate reads from `text`, if it reads one.
pub uninterp spec fn url_parsed(text: Seq<char>) -> Option<Seq<char>>;

/// The serialized URL that the url crate gives for `input` read against `base`,
/// if it reads both.
pub uninterp spec fn url_joined(base: Seq<char>, input: Seq<char>) -> Option<Seq<char>>;

/// The serialized URL read from `text` with its scheme changed to `scheme`, if
/// the url crate reads the text and allows the change.
pub uninterp spec fn url_with_scheme(text: Seq<char>, scheme: Seq<char>) -> Option<Seq<char>>;

/// The serialized URL read from `text` with its port taken off, if the url crate
/// reads the text and allows the change.
pub uninterp spec fn url_without_port(text: Seq<char>) -> Option<Seq<char>>;

/// The serialized URL read from `text` with its path set to `path`, if the url
/// crate reads the text.
pub uninterp spec fn url_with_path(text: Seq<char>, path: Seq<char>) -> Option<Seq<char>>;

/// `url::Url::set_path` on the URL read from `text` (`Url::parse`), then the
/// serialization; `None` where the text does not read. Named `url_with_path`.
#[verifier::external_body]
pub(crate) fn set_url_path(text: &str, path: &str) -> (r: Option<String>)
    ensures
        match r {
            Some(s) => url_with_path(text@, path@) == Some(s@),
            None => url_with_path(text@, path@) is None,
        },
{
    match url::Url::parse(text) {
        Ok(mut u) => {
            u.set_path(path);
            Some(u.as_str().to_string())
        },
        Err(_) => None,
    }
}

/// `url::Url::parse`, then the URL's serialization (`Url::as_str`). Its result
/// is named `url_parsed`; nothing more of it is stated.
#[verifier::external_body]
pub(crate) fn parse_url(text: &str) -> (r: Option<String>)
    ensures
        match r {
            Some(s) => url_parsed(text@) == Some(s@),
            None => url_parsed(text@) is None,
        },
{
    match url::Url::parse(text) {
        Ok(u) => Some(u.as_str().to_string()),
        Err(_) => None,
    }
}

/// `url::Url::join` on the URL read from `base` (`Url::parse`), then the
/// serialization. Its result is named `url_joined`; nothing more is stated.
#[verifier::external_body]
pub(crate) fn join_url(base: &str, input: &str) -> (r: Option<String>)
    ensures
        match r {
            Some(s) => url_joined(base@, input@) == Some(s@),
            None => url_joined(base@, input@) is None,
        },
{
    match url::Url::parse(base) {
        Ok(b) => match b.join(input) {
            Ok(u) => Some(u.as_str().to_string()),
            Err(_) => None,
        },
        Err(_) => None,
    }
}

/// `url::Url::set_scheme` on the URL read from `text` (`Url::parse`), then the
/// serialization; `None` where either fails. Named `url_with_scheme`.
#[verifier::external_body]
pub(crate) fn set_url_scheme(text: &str, scheme: &str) -> (r: Option<String>)
    ensures
        match r {
            Some(s) => url_with_scheme(text@, scheme@) == Some(s@),
            None => url_with_scheme(text@, scheme@) is None,
        },
{
    match url::Url::parse(text) {
        Ok(mut u) => match u.set_scheme(scheme) {
            Ok(()) => Some(u.as_str().to_string()),
            Err(()) => None,
        },
        Err(_) => None,
    }
}

/// `url::Url::set_port(None)` on the URL read from `text` (`Url::parse`), then
/// the serialization; `None` where either fails. Named `url_without_port`.
#[verifier::external_body]
pub(crate) fn clear_url_port(text: &str) -> (r: Option<String>)
    ensures
        match r {
            Some(s) => url_without_port(text@) == Some(s@),
            None => url_without_port(text@) is None,
        },
{
    match url::Url::parse(text) {
        Ok(mut u) => match u.set_port(None) {
            Ok(()) => Some(u.as_str().to_string()),
            Err(()) => None,
        },
        Err(_) => None,
    }
}

} // verus!
