//! Byte-level views of strings: ASCII classes, substrings by byte offsets, and
//! the facts about UTF-8 boundaries that the parsers need.

use vstd::prelude::*;
use vstd::utf8::*;
use vstd::string::*;

verus! {

/// The bytes of an ASCII character sequence.
pub open spec fn ascii_bytes(cs: Seq<char>) -> Seq<u8> {
    cs.map_values(|c: char| c as u8)
}

/// ASCII whitespace as `str::split_ascii_whitespace` understands it.
pub open spec fn is_ascii_ws(b: u8) -> bool {
    b == 0x20 || b == 0x09 || b == 0x0a || b == 0x0c || b == 0x0d
}

/// Is `c` an ASCII lowercase letter?
pub open spec fn is_ascii_lower(c: char) -> bool {
    'a' <= c <= 'z'
}

/// A boundary at an ASCII byte is followed by another boundary.
proof fn lemma_boundary_after_ascii(b: Seq<u8>, i: int)
    requires
        valid_utf8(b),
        0 <= i < b.len(),
        is_char_boundary(b, i),
        b[i] < 0x80,
    ensures
        is_char_boundary(b, i + 1),
    decreases b.len(),
{
    reveal_with_fuel(is_char_boundary, 2);
    let l = length_of_first_scalar(b);
    let p = pop_first_scalar(b);
    if i == 0 {
        assert(l == 1);
        assert(is_char_boundary(p, 0));
    } else {
        assert(is_char_boundary(p, i - l));
        assert(p[i - l] == b[i]);
        lemma_boundary_after_ascii(p, i - l);
    }
}

/// In valid UTF-8, the byte after an ASCII byte starts a character.
pub proof fn lemma_after_ascii_is_boundary(b: Seq<u8>, j: int)
    requires
        valid_utf8(b),
        0 < j <= b.len(),
        b[j - 1] < 0x80,
    ensures
        is_char_boundary(b, j),
{
    is_char_boundary_iff_not_is_continuation_byte(b, j - 1);
    lemma_boundary_after_ascii(b, j - 1);
}

/// In valid UTF-8, an ASCII byte starts a character.
pub proof fn lemma_ascii_is_boundary(b: Seq<u8>, j: int)
    requires
        valid_utf8(b),
        0 <= j < b.len(),
        b[j] < 0x80,
    ensures
        is_char_boundary(b, j),
{
    is_char_boundary_iff_not_is_continuation_byte(b, j);
}

/// The UTF-8 encoding of ASCII characters is their bytes.
pub proof fn lemma_ascii_encode(cs: Seq<char>)
    requires
        is_ascii_chars(cs),
    ensures
        encode_utf8(cs) == ascii_bytes(cs),
{
    is_ascii_chars_encode_utf8(cs);
    assert(encode_utf8(cs) =~= ascii_bytes(cs));
}

/// The bytes of a string form valid UTF-8.
pub proof fn lemma_str_valid(s: &str)
    ensures
        valid_utf8(s.spec_bytes()),
        is_char_boundary(s.spec_bytes(), 0),
        is_char_boundary(s.spec_bytes(), s.spec_bytes().len() as int),
{
    encode_utf8_valid_utf8(s@);
    is_char_boundary_start_end_of_seq(s.spec_bytes());
}

/// The part of `s` between two byte offsets that start characters.
pub fn substr(s: &str, start: usize, end: usize) -> (r: &str)
    requires
        start <= end <= s.spec_bytes().len(),
        is_char_boundary(s.spec_bytes(), start as int),
        is_char_boundary(s.spec_bytes(), end as int),
    ensures
        r.spec_bytes() == s.spec_bytes().subrange(start as int, end as int),
{
    let ghost b = s.spec_bytes();
    proof { lemma_str_valid(s); }
    let (_, rest) = s.split_at(start);
    let ghost rb = rest.spec_bytes();
    proof {
        assert(rb =~= b.subrange(start as int, b.len() as int));
        lemma_str_valid(rest);
        if end < b.len() {
            is_char_boundary_iff_not_is_continuation_byte(b, end as int);
            assert(rb[end - start] == b[end as int]);
            is_char_boundary_iff_not_is_continuation_byte(rb, end - start);
        } else {
            assert(rb.len() == end - start);
        }
    }
    let (mid, _) = rest.split_at(end - start);
    proof {
        assert(mid.spec_bytes() =~= b.subrange(start as int, end as int));
    }
    mid
}

/// Does `b[start..end]` equal `lit`?
pub fn bytes_eq(b: &[u8], start: usize, end: usize, lit: &[u8]) -> (r: bool)
    requires
        start <= end <= b@.len(),
    ensures
        r == (b@.subrange(start as int, end as int) == lit@),
{
    if end - start != lit.len() {
        proof {
            assert(b@.subrange(start as int, end as int).len() != lit@.len());
        }
        return false;
    }
    let mut k: usize = 0;
    while k < lit.len()
        invariant
            end - start == lit@.len(),
            start <= end <= b@.len(),
            k <= lit@.len(),
            forall|j: int| 0 <= j < k ==> b@[start + j] == lit@[j],
        decreases lit@.len() - k,
    {
        if b[start + k] != lit[k] {
            proof {
                assert(b@.subrange(start as int, end as int)[k as int] != lit@[k as int]);
            }
            return false;
        }
        k = k + 1;
    }
    proof {
        assert(b@.subrange(start as int, end as int) =~= lit@);
    }
    true
}

/// Does the whole string `s` consist of the bytes `lit`?
pub fn str_is(s: &str, lit: &[u8]) -> (r: bool)
    ensures
        r == (s.spec_bytes() == lit@),
{
    let b = s.as_bytes();
    let r = bytes_eq(b, 0, b.len(), lit);
    proof {
        assert(b@.subrange(0, b@.len() as int) =~= b@);
    }
    r
}

/// A copy of a string slice.
pub fn owned(s: &str) -> (r: String)
    ensures
        r@ == s@,
{
    s.to_owned()
}

/// A `String` holding the text of a string literal.
pub fn lit_string(s: &str) -> (r: String)
    ensures
        r@ == s@,
{
    s.to_owned()
}

} // verus!
