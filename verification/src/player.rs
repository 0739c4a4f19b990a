//! Players: their ids, the rules their names follow, and how they logged in.

use vstd::prelude::*;
use vstd::string::*;
use vstd::utf8::{encode_utf8, is_ascii_chars, is_ascii_chars_encode_utf8, is_continuation_byte};

use crate::auth::{
    anon_name_suggestion,
    avatar_path_text, avatar_url, DiscordAuthProvider, GoogleAuthProvider, ImageExt, ImageSize,
    RedditAuthProvider, DISCORD_IMG_BASE,
};
use crate::basho_id::BashoId;
use crate::rank::Rank;
use crate::utf8_text::{lit_string, owned};
use crate::text::{decimal, decimal_padded, push_char, push_decimal};
use crate::web_url::{parse_url, url_joined, url_parsed};

verus! {

/// The id of a player.
#[derive(Copy, Clone, Debug, PartialEq, Eq, Structural, Hash)]
pub struct PlayerId(pub i32);

/// The shortest player name, in bytes.
pub const NAME_LENGTH_MIN: usize = 3;
/// The longest player name, in bytes.
pub const NAME_LENGTH_MAX: usize = 14;
/// The pattern player names follow.
pub const NAME_REGEX: &'static str = "^[a-zA-Z][a-zA-Z0-9]*$";

/// Is `c` an ASCII letter?
pub open spec fn is_ascii_letter(c: char) -> bool {
    ('a' <= c <= 'z') || ('A' <= c <= 'Z')
}

/// Is `c` an ASCII letter or digit?
pub open spec fn is_ascii_alnum(c: char) -> bool {
    is_ascii_letter(c) || ('0' <= c <= '9')
}

/// The texts that `NAME_REGEX` matches: a letter, then letters and digits.
pub open spec fn name_shape(s: Seq<char>) -> bool {
    &&& s.len() >= 1
    &&& is_ascii_letter(s[0])
    &&& forall|i: int| 1 <= i < s.len() ==> is_ascii_alnum(#[trigger] s[i])
}

/// Whether the regex built from `pattern` matches `text`; `None` where the
/// pattern does not build.
pub uninterp spec fn regex_matches(pattern: Seq<char>, text: Seq<char>) -> Option<bool>;

/// `regex::RegexBuilder::new(pattern).build()`, then `Regex::is_match(text)`.
/// Its result is named `regex_matches`; for `NAME_REGEX` it states what the
/// regex syntax documents of that pattern: anchored at both ends, one ASCII
/// letter, then any number of ASCII letters and digits.
#[verifier::external_body]
fn regex_is_match(pattern: &str, text: &str) -> (r: Option<bool>)
    ensures
        r == regex_matches(pattern@, text@),
        pattern@ == NAME_REGEX@ ==> r == Some(name_shape(text@)),
{
    match regex::RegexBuilder::new(pattern).build() {
        Ok(re) => Some(re.is_match(text)),
        Err(_) => None,
    }
}

/// May a player take this name: 3 to 14 bytes, a letter and then letters and
/// digits?
pub fn name_is_valid(name: &str) -> (r: bool)
    ensures
        r == (NAME_LENGTH_MIN <= name.spec_bytes().len() <= NAME_LENGTH_MAX && name_shape(name@)),
{
    let n = name.as_bytes().len();
    if n < NAME_LENGTH_MIN || n > NAME_LENGTH_MAX {
        return false;
    }
    match regex_is_match(NAME_REGEX, name) {
        Some(m) => m,
        None => false,
    }
}

/// The page of the player named `name`.
pub fn url_path_for_name(name: &str) -> (r: String)
    ensures
        r@ == "/player/"@ + name@,
{
    let mut s = lit_string("/player/");
    s.append(name);
    s
}

/// `s` with each match of `from`, left to right and not overlapping, replaced by `to`.
pub open spec fn replaced(s: Seq<char>, from: Seq<char>, to: Seq<char>) -> Seq<char>
    decreases s.len(),
{
    if s.len() == 0 {
        s
    } else if from.len() > 0 && s.len() >= from.len() && s.take(from.len() as int) == from {
        to + replaced(s.skip(from.len() as int), from, to)
    } else {
        seq![s[0]] + replaced(s.skip(1), from, to)
    }
}

/// `str::replace`: every match of `from`, left to right and not overlapping,
/// replaced by `to`, as its documentation says.
#[verifier::external_body]
fn str_replace(s: &str, from: &str, to: &str) -> (r: String)
    requires
        from@.len() > 0,
    ensures
        r@ == replaced(s@, from@, to@),
{
    s.replace(from, to)
}

/// The image shown for a player without one.
pub const DEFAULT_IMAGE: &'static str = "/static/img/oicho-silhouette.png";

/// How a player logged in: the records kept of each service.
pub struct PlayerLogins {
    pub discord_user_id: Option<String>,
    pub discord_avatar: Option<String>,
    pub discord_discriminator: Option<String>,
    pub google_picture: Option<String>,
    pub reddit_icon: Option<String>,
}

/// A string option by its view.
pub open spec fn opt_view(o: Option<String>) -> Option<Seq<char>> {
    match o {
        Some(s) => Some(s@),
        None => None,
    }
}

impl PlayerLogins {
    /// The service the player logged in with: Discord, then Google, then Reddit,
    /// by which records there are.
    pub fn login_service_name(&self) -> (r: &'static str)
        ensures
            r@ == if self.discord_user_id is Some {
                "Discord"@
            } else if self.google_picture is Some {
                "Google"@
            } else if self.reddit_icon is Some {
                "Reddit"@
            } else {
                "unknown"@
            },
    {
        if self.discord_user_id.is_some() {
            DiscordAuthProvider.service_name()
        } else if self.google_picture.is_some() {
            GoogleAuthProvider.service_name()
        } else if self.reddit_icon.is_some() {
            RedditAuthProvider.service_name()
        } else {
            "unknown"
        }
    }

    /// The discriminator used for the Discord avatar, "0" when none is kept.
    pub open spec fn discriminator_text(&self) -> Seq<char> {
        match self.discord_discriminator {
            Some(d) => d@,
            None => "0"@,
        }
    }

    /// The player's image: the Discord avatar; else the Reddit icon (with
    /// `&amp;` read as `&`) or the Google picture, as the url crate reads them,
    /// or the default image where it cannot; else the default image.
    pub open spec fn spec_image_url(&self, size: ImageSize) -> Option<Seq<char>> {
        match self.discord_user_id {
            Some(user_id) => url_joined(DISCORD_IMG_BASE@, avatar_path_text(user_id@, opt_view(self.discord_avatar),
                encode_utf8(self.discriminator_text()), ImageExt::Png, size)),
            None => match self.reddit_icon {
                Some(icon) => match url_parsed(replaced(icon@, "&amp;"@, "&"@)) {
                    Some(u) => Some(u),
                    None => Some(DEFAULT_IMAGE@),
                },
                None => match self.google_picture {
                    Some(p) => match url_parsed(p@) {
                        Some(u) => Some(u),
                        None => Some(DEFAULT_IMAGE@),
                    },
                    None => Some(DEFAULT_IMAGE@),
                },
            },
        }
    }

    /// The player's image at `size` (see `spec_image_url`).
    pub fn image_url(&self, size: ImageSize) -> (r: String)
        requires
            self.spec_image_url(size) is Some,
        ensures
            self.spec_image_url(size) == Some(r@),
    {
        match &self.discord_user_id {
            Some(user_id) => {
                let zero = lit_string("0");
                let d = match &self.discord_discriminator {
                    Some(d) => d,
                    None => &zero,
                };
                avatar_url(user_id.as_str(), &self.discord_avatar, d.as_str(), ImageExt::Png, size)
            },
            None => match &self.reddit_icon {
                Some(icon) => {
                    proof { reveal_strlit("&amp;"); }
                    let unescaped = str_replace(icon.as_str(), "&amp;", "&");
                    match parse_url(unescaped.as_str()) {
                        Some(u) => u,
                        None => lit_string(DEFAULT_IMAGE),
                    }
                },
                None => match &self.google_picture {
                    Some(p) => match parse_url(p.as_str()) {
                        Some(u) => u,
                        None => lit_string(DEFAULT_IMAGE),
                    },
                    None => lit_string(DEFAULT_IMAGE),
                },
            },
        }
    }

    /// The player's image, or `None` where the url crate cannot place the
    /// Discord avatar.
    pub fn image_url_checked(&self, size: ImageSize) -> (r: Option<String>)
        ensures
            match r {
                Some(u) => self.spec_image_url(size) == Some(u@),
                None => self.spec_image_url(size) is None,
            },
    {
        match &self.discord_user_id {
            Some(user_id) => {
                let zero = lit_string("0");
                let d = match &self.discord_discriminator {
                    Some(d) => d,
                    None => &zero,
                };
                match crate::auth::avatar_url_checked(user_id.as_str(), &self.discord_avatar, d.as_str(), ImageExt::Png, size) {
                    Some(_) => Some(self.image_url(size)),
                    None => None,
                }
            },
            None => Some(self.image_url(size)),
        }
    }

    /// The image at the small size.
    pub fn tiny_thumb(&self) -> (r: String)
        requires
            self.spec_image_url(ImageSize::Tiny) is Some,
        ensures
            self.spec_image_url(ImageSize::Tiny) == Some(r@),
    {
        self.image_url(ImageSize::Tiny)
    }

    /// The image at the medium size.
    pub fn medium_thumb(&self) -> (r: String)
        requires
            self.spec_image_url(ImageSize::Medium) is Some,
        ensures
            self.spec_image_url(ImageSize::Medium) == Some(r@),
    {
        self.image_url(ImageSize::Medium)
    }
}

/// A rikishi a player picked in a basho, with his record there.
#[derive(Debug)]
pub struct PlayerBashoRikishi {
    pub name: String,
    pub wins: u8,
    pub losses: u8,
}

/// A picked rikishi's row: the basho, his family name, rank, wins and losses.
pub struct PickedRikishiRow {
    pub basho_id: BashoId,
    pub name: String,
    pub rank: Rank,
    pub wins: u8,
    pub losses: u8,
}

/// The row among the first `n` that fills slot `g` of basho `b`: the last of that
/// basho whose rank is in that group.
pub open spec fn slot_row(rows: Seq<PickedRikishiRow>, b: BashoId, g: int, n: int) -> Option<int>
    decreases n,
{
    if n <= 0 {
        None
    } else if rows[n - 1].basho_id == b && rows[n - 1].rank.spec_group().0 - 1 == g {
        Some(n - 1)
    } else {
        slot_row(rows, b, g, n - 1)
    }
}

/// The picks of basho `b`, by rank group, from a player's picked rikishi rows.
pub fn picks_of_basho(rows: &Vec<PickedRikishiRow>, b: BashoId) -> (r: Vec<Option<PlayerBashoRikishi>>)
    requires
        forall|i: int| 0 <= i < rows@.len() ==> 1 <= (#[trigger] rows@[i]).rank.spec_group().0 <= 5,
    ensures
        r@.len() == 5,
        forall|g: int| 0 <= g < 5 ==> match slot_row(rows@, b, g, rows@.len() as int) {
            Some(i) => (#[trigger] r@[g]) matches Some(p) && p.name@ == rows@[i].name@
                && p.wins == rows@[i].wins && p.losses == rows@[i].losses,
            None => r@[g] is None,
        },
{
    let mut slots: Vec<Option<PlayerBashoRikishi>> = vec![None, None, None, None, None];
    let mut i: usize = 0;
    while i < rows.len()
        invariant
            i <= rows@.len(),
            slots@.len() == 5,
            forall|i: int| 0 <= i < rows@.len() ==> 1 <= (#[trigger] rows@[i]).rank.spec_group().0 <= 5,
            forall|g: int| 0 <= g < 5 ==> match slot_row(rows@, b, g, i as int) {
                Some(k) => (#[trigger] slots@[g]) matches Some(p) && p.name@ == rows@[k].name@
                    && p.wins == rows@[k].wins && p.losses == rows@[k].losses,
                None => slots@[g] is None,
            },
        decreases rows@.len() - i,
    {
        let row = &rows[i];
        if row.basho_id == b {
            let g = row.rank.group().as_index();
            slots.set(g, Some(PlayerBashoRikishi { name: row.name.clone(), wins: row.wins, losses: row.losses }));
        }
        i = i + 1;
    }
    slots
}

/// The form's name, refused with a message unless it is a valid player name.
pub fn check_new_name(name: &str) -> (r: Result<(), String>)
    ensures
        r is Ok <==> (NAME_LENGTH_MIN <= name.spec_bytes().len() <= NAME_LENGTH_MAX && name_shape(name@)),
        r matches Err(m) ==> m@ == "Invalid name: "@ + name@,
{
    if name_is_valid(name) {
        Ok(())
    } else {
        let mut m = lit_string("Invalid name: ");
        m.append(name);
        Err(m)
    }
}

/// Is `b` the byte of an ASCII letter?
pub open spec fn is_letter_byte(b: u8) -> bool {
    (0x61 <= b <= 0x7a) || (0x41 <= b <= 0x5a)
}

/// Is `b` the byte of an ASCII letter or digit?
pub open spec fn is_alnum_byte(b: u8) -> bool {
    is_letter_byte(b) || (0x30 <= b <= 0x39)
}

/// Is `b` a space or an underscore, which a suggested name drops?
pub open spec fn is_blank_byte(b: u8) -> bool {
    b == 0x20 || b == 0x5f
}

/// The bytes of `b` without its spaces and underscores.
pub open spec fn without_blanks(b: Seq<u8>) -> Seq<u8> {
    b.filter(|x: u8| !is_blank_byte(x))
}

/// The first `n` bytes of `b`, or all of them where there are fewer.
pub open spec fn first_bytes(b: Seq<u8>, n: nat) -> Seq<u8> {
    if b.len() <= n { b } else { b.take(n as int) }
}

/// Can `b` be cut after its first `n` bytes without splitting a character?
pub open spec fn cut_ok(b: Seq<u8>, n: nat) -> bool {
    b.len() <= n || !is_continuation_byte(b[n as int])
}

/// Do these bytes spell a valid player name: 3 to 14 of them, an ASCII letter
/// and then ASCII letters and digits?
pub open spec fn name_bytes_valid(b: Seq<u8>) -> bool {
    &&& NAME_LENGTH_MIN <= b.len() <= NAME_LENGTH_MAX
    &&& is_letter_byte(b[0])
    &&& forall|i: int| 1 <= i < b.len() ==> is_alnum_byte(#[trigger] b[i])
}

/// ASCII bytes read as characters.
pub open spec fn ascii_text(b: Seq<u8>) -> Seq<char> {
    b.map_values(|x: u8| x as char)
}

/// What a service's user name leaves for a player name: its bytes without
/// spaces and underscores, cut to the longest name allowed.
pub open spec fn suggested_bytes(name: Seq<u8>) -> Seq<u8> {
    first_bytes(without_blanks(name), NAME_LENGTH_MAX as nat)
}

proof fn lemma_ascii_name_valid(s: Seq<char>, b: Seq<u8>)
    requires
        s == ascii_text(b),
        forall|i: int| 0 <= i < b.len() ==> b[i] < 0x80,
    ensures
        encode_utf8(s) == b,
        name_shape(s) && NAME_LENGTH_MIN <= b.len() <= NAME_LENGTH_MAX <==> name_bytes_valid(b),
{
    assert(is_ascii_chars(s)) by {
        assert forall|i: int| 0 <= i < s.len() implies '\0' <= #[trigger] s[i] <= '\u{7f}' by {
            assert(s[i] == b[i] as char);
        }
    }
    is_ascii_chars_encode_utf8(s);
    assert(encode_utf8(s) =~= b) by {
        assert forall|i: int| 0 <= i < b.len() implies encode_utf8(s)[i] == b[i] by {
            assert(s[i] as u8 == encode_utf8(s)[i]);
            assert(s[i] == b[i] as char);
        }
    }
    if b.len() >= 1 {
        assert(s[0] == b[0] as char);
        assert(is_ascii_letter(s[0]) <==> is_letter_byte(b[0]));
    }
    assert((forall|i: int| 1 <= i < s.len() ==> is_ascii_alnum(#[trigger] s[i]))
        <==> (forall|i: int| 1 <= i < b.len() ==> is_alnum_byte(#[trigger] b[i]))) by {
        assert forall|i: int| 1 <= i < b.len() implies (is_ascii_alnum(#[trigger] s[i]) <==> is_alnum_byte(b[i])) by {
            assert(s[i] == b[i] as char);
        }
    }
}

/// The name a service's user name suggests for a new player: the user name
/// without spaces and underscores, cut to the longest name allowed; `None` where
/// that is no valid player name.
pub fn name_from_suggestion(suggestion: &str) -> (r: Option<String>)
    requires
        cut_ok(without_blanks(suggestion.spec_bytes()), NAME_LENGTH_MAX as nat),
    ensures
        match r {
            Some(n) => name_bytes_valid(suggested_bytes(suggestion.spec_bytes()))
                && n@ == ascii_text(suggested_bytes(suggestion.spec_bytes())),
            None => !name_bytes_valid(suggested_bytes(suggestion.spec_bytes())),
        },
{
    let bytes = suggestion.as_bytes();
    let mut kept: Vec<u8> = Vec::new();
    let mut i: usize = 0;
    while i < bytes.len()
        invariant
            i <= bytes@.len(),
            bytes@ == suggestion.spec_bytes(),
            kept@ == without_blanks(bytes@.take(i as int)),
        decreases bytes@.len() - i,
    {
        proof {
            assert(bytes@.take(i + 1).drop_last() =~= bytes@.take(i as int));
            reveal(Seq::filter);
        }
        let b = bytes[i];
        if b != 0x20 && b != 0x5f {
            kept.push(b);
        }
        i = i + 1;
    }
    proof {
        assert(bytes@.take(bytes@.len() as int) =~= bytes@);
    }
    let n: usize = if kept.len() <= NAME_LENGTH_MAX { kept.len() } else { NAME_LENGTH_MAX };
    let ghost t = suggested_bytes(suggestion.spec_bytes());
    assert(t =~= kept@.take(n as int));
    let mut s = String::new();
    let mut j: usize = 0;
    while j < n
        invariant
            j <= n <= kept@.len(),
            t == kept@.take(n as int),
            t == suggested_bytes(suggestion.spec_bytes()),
            s@ == ascii_text(t.take(j as int)),
            forall|k: int| 0 <= k < j ==> t[k] < 0x80,
        decreases n - j,
    {
        let b = kept[j];
        if b >= 0x80 {
            assert(t[j as int] == b && t.len() == n);
            assert(!is_alnum_byte(t[j as int]) && !is_letter_byte(t[j as int]));
            return None;
        }
        push_char(&mut s, b as char);
        proof {
            assert(ascii_text(t.take(j + 1)) =~= ascii_text(t.take(j as int)).push(b as char));
        }
        j = j + 1;
    }
    proof {
        assert(t.take(n as int) =~= t);
        lemma_ascii_name_valid(s@, t);
    }
    if name_is_valid(s.as_str()) {
        Some(s)
    } else {
        None
    }
}

/// A new player's name: the one the service's user name suggests where it is
/// valid, else `anon` and the five digits of `anon_number`.
pub fn new_player_name(suggestion: Option<&str>, anon_number: u16) -> (r: String)
    requires
        suggestion matches Some(s) ==> cut_ok(without_blanks(s.spec_bytes()), NAME_LENGTH_MAX as nat),
    ensures
        r@ == match suggestion {
            Some(s) if name_bytes_valid(suggested_bytes(s.spec_bytes())) => ascii_text(suggested_bytes(s.spec_bytes())),
            _ => "anon"@ + decimal_padded(anon_number as nat, 5),
        },
{
    match suggestion {
        Some(s) => match name_from_suggestion(s) {
            Some(n) => n,
            None => anon_name_suggestion(anon_number),
        },
        None => anon_name_suggestion(anon_number),
    }
}

/// The name tried for a new player: the suggestion, then, where that is taken,
/// the suggestion followed by a number.
pub fn candidate_name(base: &str, suffix: Option<u16>) -> (r: String)
    ensures
        r@ == base@ + match suffix {
            Some(k) => decimal(k as nat),
            None => Seq::<char>::empty(),
        },
{
    let mut s = owned(base);
    match suffix {
        Some(k) => {
            push_decimal(&mut s, k as u64);
        },
        None => {
            assert(s@ + Seq::<char>::empty() =~= s@);
        },
    }
    s
}

} // verus!
