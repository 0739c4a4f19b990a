//! The settings the server runs with, and the base URL they give.

use vstd::prelude::*;

use crate::text::{decimal, push_decimal};
use crate::utf8_text::lit_string;
use crate::web_url::{clear_url_port, set_url_scheme, url_with_scheme, url_without_port};

verus! {

/// The session secret used where none is set, fit only for development.
pub const DEFAULT_SESSION_SECRET: &'static str = "abcdefghijklmnopqrstuvwxyz012345abcdefghijklmnopqrstuvwxyz012345";

/// The settings the server runs with.
pub struct Config {
    pub env: String,
    pub static_path: String,
    pub db_path: String,
    pub host: String,
    pub port: u16,
    pub hero_img_src: String,
    pub session_secret: String,
    pub vapid_public_key: String,
    pub vapid_private_key: String,
    pub discord_client_id: String,
    pub discord_client_secret: String,
    pub google_client_id: String,
    pub google_client_secret: String,
    pub reddit_client_id: String,
    pub reddit_client_secret: String,
    pub webhook_secret: String,
}

impl Config {
    /// Is this a development setup?
    pub open spec fn spec_is_dev(&self) -> bool {
        self.env@ == "dev"@
    }

    /// The text of the base URL before the url crate reads it.
    pub open spec fn base_url_text(&self) -> Seq<char> {
        "https://"@ + self.host@ + ":"@ + decimal(self.port as nat)
    }

    /// The base URL: over plain http with the port in development, otherwise over
    /// https without the port.
    pub open spec fn spec_url(&self) -> Option<Seq<char>> {
        if self.spec_is_dev() {
            url_with_scheme(self.base_url_text(), "http"@)
        } else {
            url_without_port(self.base_url_text())
        }
    }

    /// Is this a development setup (`env` is "dev")?
    pub fn is_dev(&self) -> (r: bool)
        ensures
            r == self.spec_is_dev(),
    {
        self.env == lit_string("dev")
    }

    /// May the server run with this session secret? Only development may use the
    /// default one.
    pub fn session_secret_ok(&self) -> (r: bool)
        ensures
            r == (self.spec_is_dev() || self.session_secret@ != DEFAULT_SESSION_SECRET@),
    {
        self.is_dev() || !(self.session_secret == lit_string(DEFAULT_SESSION_SECRET))
    }

    /// The base URL, built with the url crate.
    fn url_from_parts(&self) -> (r: Option<String>)
        ensures
            match r {
                Some(s) => self.spec_url() == Some(s@),
                None => self.spec_url() is None,
            },
    {
        let mut text = lit_string("https://");
        text.append(self.host.as_str());
        text.append(":");
        push_decimal(&mut text, self.port as u64);
        if self.is_dev() {
            set_url_scheme(text.as_str(), "http")
        } else {
            clear_url_port(text.as_str())
        }
    }

    /// The base URL of the site.
    pub fn url(&self) -> (r: String)
        requires
            self.spec_url() is Some,
        ensures
            self.spec_url() == Some(r@),
    {
        match self.url_from_parts() {
            Some(s) => s,
            None => String::new(),
        }
    }

    /// The base URL, or `None` where the url crate cannot read the host and port.
    pub fn url_checked(&self) -> (r: Option<String>)
        ensures
            match r {
                Some(s) => self.spec_url() == Some(s@),
                None => self.spec_url() is None,
            },
    {
        match self.url_from_parts() {
            Some(_) => Some(self.url()),
            None => None,
        }
    }
}

} // verus!
