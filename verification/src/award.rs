//! Awards that players win in a basho, and their stored forms.

use vstd::prelude::*;
use vstd::string::*;
use vstd::utf8::encode_utf8;

use crate::text::{comma_pieces, lemma_comma_pieces_nonempty, lemma_pieces_prefix};
use crate::utf8_text::{bytes_eq, lit_string};

verus! {

/// An award of a basho.
#[derive(Debug, PartialEq, Eq, Structural, Copy, Clone)]
pub enum Award {
    EmperorsCup,
}

impl Award {
    /// The number the award is stored as.
    pub open spec fn spec_number(self) -> int {
        match self {
            Award::EmperorsCup => 1,
        }
    }

    /// The number the award is stored as.
    pub fn number(self) -> (r: u8)
        ensures
            r == self.spec_number(),
    {
        match self {
            Award::EmperorsCup => 1,
        }
    }

    /// The award stored as `n`, if any.
    pub fn from_number(n: i64) -> (r: Option<Award>)
        ensures
            r == if n == 1 { Some(Award::EmperorsCup) } else { None },
    {
        if n == 1 { Some(Award::EmperorsCup) } else { None }
    }

    /// The emoji shown for the award (its `Display` form).
    pub fn emoji(self) -> (r: &'static str)
        ensures
            r@ == "\u{1F3C6}"@,
    {
        match self {
            Award::EmperorsCup => "\u{1F3C6}",
        }
    }

    /// The award's name, as the query API shows it.
    pub fn display_name(self) -> (r: &'static str)
        ensures
            r@ == "Emperor's Cup"@,
    {
        match self {
            Award::EmperorsCup => "Emperor's Cup",
        }
    }

    /// The award's kind, as the query API shows it (its `Debug` form).
    pub fn kind_name(self) -> (r: &'static str)
        ensures
            r@ == "EmperorsCup"@,
    {
        match self {
            Award::EmperorsCup => "EmperorsCup",
        }
    }

    /// The emoji as a `String`.
    pub fn to_string(&self) -> (r: String)
        ensures
            r@ == "\u{1F3C6}"@,
    {
        lit_string(self.emoji())
    }

    /// Reads an award from its stored text: "1" is the Emperor's Cup.
    pub fn from_str(s: &str) -> (r: Result<Award, String>)
        ensures
            s.spec_bytes() == seq![0x31u8] ==> r == Ok::<Award, String>(Award::EmperorsCup),
            s.spec_bytes() != seq![0x31u8] ==> (r matches Err(e) && e@ == "unknown award type "@ + s@),
    {
        let one: [u8; 1] = [0x31];
        if crate::utf8_text::str_is(s, &one) {
            assert(one@ =~= seq![0x31u8]);
            Ok(Award::EmperorsCup)
        } else {
            assert(one@ =~= seq![0x31u8]);
            let mut e = lit_string("unknown award type ");
            e.append(s);
            Err(e)
        }
    }

    /// The awards in a comma-separated list as stored: each piece that reads as an
    /// award, in order; pieces that do not are passed over, and no text or empty
    /// text is no award.
    pub fn parse_list(opt_string: Option<String>) -> (r: Vec<Award>)
        ensures
            match opt_string {
                None => r@.len() == 0,
                Some(s) => if s@.len() == 0 {
                    r@.len() == 0
                } else {
                    r@ == awards_in(comma_pieces(encode_utf8(s@)), comma_pieces(encode_utf8(s@)).len() as int)
                },
            },
    {
        match opt_string {
            None => Vec::new(),
            Some(s) => {
                if s.as_str().is_empty() {
                    Vec::new()
                } else {
                    awards_of_text(s.as_str())
                }
            },
        }
    }
}

/// The awards among the first `n` pieces: one Emperor's Cup for each piece "1".
pub open spec fn awards_in(pieces: Seq<Seq<u8>>, n: int) -> Seq<Award>
    decreases n,
{
    if n <= 0 {
        seq![]
    } else if pieces[n - 1] == seq![0x31u8] {
        awards_in(pieces, n - 1).push(Award::EmperorsCup)
    } else {
        awards_in(pieces, n - 1)
    }
}

/// The awards of each comma-separated piece of `text`.
fn awards_of_text(text: &str) -> (r: Vec<Award>)
    ensures
        r@ == awards_in(comma_pieces(text.spec_bytes()), comma_pieces(text.spec_bytes()).len() as int),
{
    let b = text.as_bytes();
    let ghost all = b@;
    let one: [u8; 1] = [0x31];
    assert(one@ =~= seq![0x31u8]);
    let mut out: Vec<Award> = Vec::new();
    let mut count: usize = 0;
    let mut start: usize = 0;
    let mut i: usize = 0;
    proof {
        assert(all.take(0) =~= Seq::<u8>::empty());
        assert(all.subrange(0, 0) =~= Seq::<u8>::empty());
    }
    while i < b.len()
        invariant
            b@ == all,
            all == text.spec_bytes(),
            one@ == seq![0x31u8],
            start <= i <= all.len(),
            count <= i,
            count == comma_pieces(all.take(i as int)).len() - 1,
            comma_pieces(all.take(i as int)).last() == all.subrange(start as int, i as int),
            forall|k: int| 0 <= k < count ==> #[trigger] comma_pieces(all.take(i as int))[k] == comma_pieces(all)[k],
            out@ == awards_in(comma_pieces(all), count as int),
        decreases all.len() - i,
    {
        let ghost before = comma_pieces(all.take(i as int));
        proof {
            assert(all.take(i + 1).drop_last() =~= all.take(i as int));
            lemma_comma_pieces_nonempty(all.take(i as int));
            lemma_pieces_prefix(all, i + 1, all.len() as int);
            assert(all.take(all.len() as int) =~= all);
        }
        if b[i] == 0x2c {
            assert(comma_pieces(all.take(i + 1))[count as int] == before[count as int]);
            assert(comma_pieces(all)[count as int] == all.subrange(start as int, i as int));
            if bytes_eq(b, start, i, &one) {
                out.push(Award::EmperorsCup);
            }
            count = count + 1;
            start = i + 1;
            proof {
                assert(all.subrange(start as int, i + 1) =~= Seq::<u8>::empty());
            }
        } else {
            proof {
                assert(all.subrange(start as int, i + 1) =~= all.subrange(start as int, i as int).push(all[i as int]));
            }
        }
        i = i + 1;
    }
    proof {
        assert(all.take(all.len() as int) =~= all);
        lemma_comma_pieces_nonempty(all);
    }
    if bytes_eq(b, start, b.len(), &one) {
        out.push(Award::EmperorsCup);
    }
    out
}

} // verus!
