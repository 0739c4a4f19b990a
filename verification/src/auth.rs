//! The services players log in with: their OAuth endpoints and scopes, what their
//! user records suggest as a player name, and where their avatars are.

use vstd::prelude::*;
use vstd::string::*;

use crate::text::{decimal, decimal_padded, parse_u16, parse_unsigned, push_decimal, push_decimal_padded};
use crate::utf8_text::lit_string;
use crate::web_url::{join_url, url_joined};

verus! {

/// The sizes of avatar images, in pixels.
#[derive(Clone, Copy, PartialEq, Eq, Structural, Debug)]
pub enum ImageSize {
    Tiny,
    Medium,
}

impl ImageSize {
    pub open spec fn spec_pixels(self) -> int {
        match self {
            ImageSize::Tiny => 64,
            ImageSize::Medium => 512,
        }
    }

    /// The width of the image in pixels.
    pub fn pixels(self) -> (r: u32)
        ensures
            r == self.spec_pixels(),
    {
        match self {
            ImageSize::Tiny => 64,
            ImageSize::Medium => 512,
        }
    }
}

/// Image file types.
#[derive(Clone, Copy, PartialEq, Eq, Structural, Debug)]
pub enum ImageExt {
    Png,
}

impl ImageExt {
    pub open spec fn spec_text(self) -> Seq<char> {
        match self {
            ImageExt::Png => "png"@,
        }
    }

    /// The file extension.
    pub fn to_string(&self) -> (r: String)
        ensures
            r@ == self.spec_text(),
    {
        match self {
            ImageExt::Png => lit_string("png"),
        }
    }
}

/// Login through Discord.
#[derive(Debug)]
pub struct DiscordAuthProvider;

impl DiscordAuthProvider {
    pub fn service_name(&self) -> (r: &'static str)
        ensures
            r@ == "Discord"@,
    {
        "Discord"
    }

    pub fn logged_in_user_info_url(&self) -> (r: &'static str)
        ensures
            r@ == "https://discordapp.com/api/v6/users/@me"@,
    {
        "https://discordapp.com/api/v6/users/@me"
    }

    pub fn oauth_scopes(&self) -> (r: Vec<&'static str>)
        ensures
            r@.len() == 1,
            r@[0]@ == "identify"@,
    {
        let mut r: Vec<&'static str> = Vec::new();
        r.push("identify");
        r
    }

    pub fn auth_url(&self) -> (r: &'static str)
        ensures
            r@ == "https://discordapp.com/api/oauth2/authorize"@,
    {
        "https://discordapp.com/api/oauth2/authorize"
    }

    pub fn token_url(&self) -> (r: &'static str)
        ensures
            r@ == "https://discordapp.com/api/oauth2/token"@,
    {
        "https://discordapp.com/api/oauth2/token"
    }

    /// The path on this site that the service redirects back to.
    pub fn redirect_path(&self) -> (r: &'static str)
        ensures
            r@ == "login/discord_redirect"@,
    {
        "login/discord_redirect"
    }

    pub fn make_user_info_url(&self, user_id: &str) -> (r: String)
        ensures
            r@ == "https://discordapp.com/api/v6/users/"@ + user_id@,
    {
        let mut s = lit_string("https://discordapp.com/api/v6/users/");
        s.append(user_id);
        s
    }
}

/// A Discord user.
pub struct DiscordUserInfo {
    pub id: String,
    pub username: String,
    pub discriminator: String,
    pub avatar: Option<String>,
}

impl DiscordUserInfo {
    /// The user name, as a player name to start from.
    pub fn name_suggestion(&self) -> (r: Option<String>)
        ensures
            r matches Some(n) && n@ == self.username@,
    {
        Some(self.username.clone())
    }
}

/// Login through Google.
#[derive(Debug)]
pub struct GoogleAuthProvider;

impl GoogleAuthProvider {
    pub fn service_name(&self) -> (r: &'static str)
        ensures
            r@ == "Google"@,
    {
        "Google"
    }

    pub fn logged_in_user_info_url(&self) -> (r: &'static str)
        ensures
            r@ == "https://www.googleapis.com/userinfo/v2/me"@,
    {
        "https://www.googleapis.com/userinfo/v2/me"
    }

    pub fn oauth_scopes(&self) -> (r: Vec<&'static str>)
        ensures
            r@.len() == 1,
            r@[0]@ == "https://www.googleapis.com/auth/userinfo.profile"@,
    {
        let mut r: Vec<&'static str> = Vec::new();
        r.push("https://www.googleapis.com/auth/userinfo.profile");
        r
    }

    pub fn auth_url(&self) -> (r: &'static str)
        ensures
            r@ == "https://accounts.google.com/o/oauth2/v2/auth"@,
    {
        "https://accounts.google.com/o/oauth2/v2/auth"
    }

    pub fn token_url(&self) -> (r: &'static str)
        ensures
            r@ == "https://oauth2.googleapis.com/token"@,
    {
        "https://oauth2.googleapis.com/token"
    }

    /// The path on this site that the service redirects back to.
    pub fn redirect_path(&self) -> (r: &'static str)
        ensures
            r@ == "login/google_redirect"@,
    {
        "login/google_redirect"
    }

    pub fn make_user_info_url(&self, user_id: &str) -> (r: String)
        ensures
            r@ == "https://people.googleapis.com/v1/{resourceName=people/"@ + user_id@ + "}?personFields=photos"@,
    {
        let mut s = lit_string("https://people.googleapis.com/v1/{resourceName=people/");
        s.append(user_id);
        s.append("}?personFields=photos");
        s
    }
}

/// A Google user.
pub struct GoogleUserInfo {
    pub id: String,
    pub name: Option<String>,
    pub picture: Option<String>,
}

impl GoogleUserInfo {
    /// The user's name, if there is one, as a player name to start from.
    pub fn name_suggestion(&self) -> (r: Option<String>)
        ensures
            match self.name {
                Some(n) => r matches Some(m) && m@ == n@,
                None => r is None,
            },
    {
        match &self.name {
            Some(n) => Some(n.clone()),
            None => None,
        }
    }
}

/// Login through Reddit.
#[derive(Debug)]
pub struct RedditAuthProvider;

impl RedditAuthProvider {
    pub fn service_name(&self) -> (r: &'static str)
        ensures
            r@ == "Reddit"@,
    {
        "Reddit"
    }

    pub fn logged_in_user_info_url(&self) -> (r: &'static str)
        ensures
            r@ == "https://oauth.reddit.com/api/v1/me"@,
    {
        "https://oauth.reddit.com/api/v1/me"
    }

    pub fn oauth_scopes(&self) -> (r: Vec<&'static str>)
        ensures
            r@.len() == 1,
            r@[0]@ == "identity"@,
    {
        let mut r: Vec<&'static str> = Vec::new();
        r.push("identity");
        r
    }

    pub fn auth_url(&self) -> (r: &'static str)
        ensures
            r@ == "https://www.reddit.com/api/v1/authorize?duration=temporary"@,
    {
        "https://www.reddit.com/api/v1/authorize?duration=temporary"
    }

    pub fn token_url(&self) -> (r: &'static str)
        ensures
            r@ == "https://www.reddit.com/api/v1/access_token"@,
    {
        "https://www.reddit.com/api/v1/access_token"
    }

    /// The path on this site that the service redirects back to.
    pub fn redirect_path(&self) -> (r: &'static str)
        ensures
            r@ == "login/reddit_redirect"@,
    {
        "login/reddit_redirect"
    }
}

/// A Reddit user.
pub struct RedditUserInfo {
    pub id: String,
    pub name: String,
    pub icon_img: Option<String>,
}

impl RedditUserInfo {
    /// The user name, as a player name to start from.
    pub fn name_suggestion(&self) -> (r: Option<String>)
        ensures
            r matches Some(n) && n@ == self.name@,
    {
        Some(self.name.clone())
    }
}

/// A name for a player whose service gives none: `anon` and five digits.
pub fn anon_name_suggestion(n: u16) -> (r: String)
    ensures
        r@ == "anon"@ + decimal_padded(n as nat, 5),
{
    let mut s = lit_string("anon");
    push_decimal_padded(&mut s, n as u64, 5);
    s
}

/// Where Discord keeps avatar images.
pub const DISCORD_IMG_BASE: &'static str = "https://cdn.discordapp.com/";

/// The default avatar picked by a Discord discriminator: its number, read as the
/// standard library reads a `u16` (0 where it cannot), modulo 5.
pub open spec fn default_avatar_number(discriminator: Seq<u8>) -> int {
    match parse_unsigned(discriminator, 65535) {
        Ok(v) => v as int % 5,
        Err(_) => 0,
    }
}

/// The path of a Discord avatar below `DISCORD_IMG_BASE`: the user's own image
/// when there is one, otherwise the default one for the discriminator.
pub open spec fn avatar_path_text(
    user_id: Seq<char>,
    avatar: Option<Seq<char>>,
    discriminator: Seq<u8>,
    ext: ImageExt,
    size: ImageSize,
) -> Seq<char> {
    match avatar {
        Some(hash) => "avatars/"@ + user_id + "/"@ + hash + "."@ + ext.spec_text() + "?size="@
            + decimal(size.spec_pixels() as nat),
        None => "embed/avatars/"@ + decimal(default_avatar_number(discriminator) as nat) + ".png?size="@
            + decimal(size.spec_pixels() as nat),
    }
}

/// The path of a Discord avatar below `DISCORD_IMG_BASE`.
pub fn avatar_path(user_id: &str, avatar: &Option<String>, discriminator: &str, ext: ImageExt, size: ImageSize) -> (r: String)
    ensures
        r@ == avatar_path_text(user_id@, match avatar {
            Some(h) => Some(h@),
            None => None,
        }, discriminator.spec_bytes(), ext, size),
{
    match avatar {
        Some(hash) => {
            let mut s = lit_string("avatars/");
            s.append(user_id);
            s.append("/");
            s.append(hash.as_str());
            s.append(".");
            let e = ext.to_string();
            s.append(e.as_str());
            s.append("?size=");
            push_decimal(&mut s, size.pixels() as u64);
            assert(s@ =~= "avatars/"@ + user_id@ + "/"@ + hash@ + "."@ + ext.spec_text() + "?size="@
                + decimal(size.spec_pixels() as nat));
            s
        },
        None => {
            let b = discriminator.as_bytes();
            let number: u16 = match parse_u16(b, 0, b.len()) {
                Ok(v) => v % 5,
                Err(_) => 0,
            };
            proof {
                assert(b@.subrange(0, b@.len() as int) =~= discriminator.spec_bytes());
            }
            let mut s = lit_string("embed/avatars/");
            push_decimal(&mut s, number as u64);
            s.append(".png?size=");
            push_decimal(&mut s, size.pixels() as u64);
            s
        },
    }
}

/// Can the url crate place the avatar path on Discord's image base?
pub open spec fn avatar_url_ok(
    user_id: Seq<char>,
    avatar: Option<Seq<char>>,
    discriminator: Seq<u8>,
    ext: ImageExt,
    size: ImageSize,
) -> bool {
    url_joined(DISCORD_IMG_BASE@, avatar_path_text(user_id, avatar, discriminator, ext, size)) is Some
}

/// The URL of a Discord avatar image.
pub fn avatar_url(user_id: &str, avatar: &Option<String>, discriminator: &str, ext: ImageExt, size: ImageSize) -> (r: String)
    requires
        avatar_url_ok(user_id@, match avatar {
            Some(h) => Some(h@),
            None => None,
        }, discriminator.spec_bytes(), ext, size),
    ensures
        url_joined(DISCORD_IMG_BASE@, avatar_path_text(user_id@, match avatar {
            Some(h) => Some(h@),
            None => None,
        }, discriminator.spec_bytes(), ext, size)) == Some(r@),
{
    let path = avatar_path(user_id, avatar, discriminator, ext, size);
    match join_url(DISCORD_IMG_BASE, path.as_str()) {
        Some(u) => u,
        None => String::new(),
    }
}

/// The URL of a Discord avatar image, or `None` where the url crate cannot make one.
pub fn avatar_url_checked(user_id: &str, avatar: &Option<String>, discriminator: &str, ext: ImageExt, size: ImageSize)
    -> (r: Option<String>)
    ensures
        match r {
            Some(u) => url_joined(DISCORD_IMG_BASE@, avatar_path_text(user_id@, match avatar {
                Some(h) => Some(h@),
                None => None,
            }, discriminator.spec_bytes(), ext, size)) == Some(u@),
            None => !avatar_url_ok(user_id@, match avatar {
                Some(h) => Some(h@),
                None => None,
            }, discriminator.spec_bytes(), ext, size),
        },
{
    let path = avatar_path(user_id, avatar, discriminator, ext, size);
    match join_url(DISCORD_IMG_BASE, path.as_str()) {
        Some(_) => Some(avatar_url(user_id, avatar, discriminator, ext, size)),
        None => None,
    }
}

/// A service players can log in with.
#[derive(Debug, PartialEq, Eq, Structural, Clone, Copy)]
pub enum AuthService {
    Discord,
    Google,
    Reddit,
}

/// The service named in an image-update request: "discord", "google" or "reddit".
pub fn service_for_name(name: &str) -> (r: Option<AuthService>)
    ensures
        r == if name@ == "discord"@ {
            Some(AuthService::Discord)
        } else if name@ == "google"@ {
            Some(AuthService::Google)
        } else if name@ == "reddit"@ {
            Some(AuthService::Reddit)
        } else {
            None
        },
{
    let n = lit_string(name);
    if n == lit_string("discord") {
        Some(AuthService::Discord)
    } else if n == lit_string("google") {
        Some(AuthService::Google)
    } else if n == lit_string("reddit") {
        Some(AuthService::Reddit)
    } else {
        None
    }
}

} // verus!
