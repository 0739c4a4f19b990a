//! Text helpers: decimal rendering and parsing of unsigned integers, and
//! building strings out of characters.

use vstd::prelude::*;

verus! {

/// The character of a decimal digit `d < 10`.
pub open spec fn digit_char(d: nat) -> char {
    if d == 0 { '0' }
    else if d == 1 { '1' }
    else if d == 2 { '2' }
    else if d == 3 { '3' }
    else if d == 4 { '4' }
    else if d == 5 { '5' }
    else if d == 6 { '6' }
    else if d == 7 { '7' }
    else if d == 8 { '8' }
    else { '9' }
}

/// The shortest decimal rendering of `n`, with no sign and no leading zero.
pub open spec fn decimal(n: nat) -> Seq<char>
    decreases n,
{
    if n < 10 {
        seq![digit_char(n)]
    } else {
        decimal(n / 10).push(digit_char(n % 10))
    }
}

/// The decimal rendering of `n`, left-padded with zeros to at least `width` characters.
pub open spec fn decimal_padded(n: nat, width: nat) -> Seq<char> {
    let d = decimal(n);
    if d.len() >= width {
        d
    } else {
        Seq::new((width - d.len()) as nat, |i: int| '0') + d
    }
}

/// Is `b` the ASCII code of a decimal digit?
pub open spec fn is_dec_digit(b: u8) -> bool {
    0x30 <= b <= 0x39
}

/// Is `b` the ASCII code of a hexadecimal digit (either case)?
pub open spec fn is_hex_digit(b: u8) -> bool {
    (0x30 <= b <= 0x39) || (0x41 <= b <= 0x46) || (0x61 <= b <= 0x66)
}

/// The value of a hexadecimal digit.
pub open spec fn hex_value(b: u8) -> nat {
    if 0x30 <= b <= 0x39 {
        (b - 0x30) as nat
    } else if 0x41 <= b <= 0x46 {
        (b - 0x41 + 10) as nat
    } else {
        (b - 0x61 + 10) as nat
    }
}

/// Why text failed to parse as an unsigned integer.
#[derive(Debug, Clone, Copy, PartialEq, Eq, Structural)]
pub enum IntErrorKind {
    Empty,
    InvalidDigit,
    PosOverflow,
}

/// Decimal digits read left to right onto an accumulator `acc`, as the standard
/// library's unsigned parser does: a byte that is not a digit fails with
/// `InvalidDigit`; a value above `max` fails with `PosOverflow`; whichever comes first.
pub open spec fn dec_digits_value(digits: Seq<u8>, acc: nat, max: nat) -> Result<nat, IntErrorKind>
    decreases digits.len(),
{
    if digits.len() == 0 {
        Ok(acc)
    } else if !is_dec_digit(digits[0]) {
        Err(IntErrorKind::InvalidDigit)
    } else {
        let next = acc * 10 + (digits[0] - 0x30) as nat;
        if next > max {
            Err(IntErrorKind::PosOverflow)
        } else {
            dec_digits_value(digits.drop_first(), next, max)
        }
    }
}

/// The result of parsing the bytes `b` of a string as an unsigned decimal integer
/// no greater than `max`: an optional leading `+`, then one or more decimal digits.
pub open spec fn parse_unsigned(b: Seq<u8>, max: nat) -> Result<nat, IntErrorKind> {
    if b.len() == 0 {
        Err(IntErrorKind::Empty)
    } else if b[0] == 0x2b {
        if b.len() == 1 {
            Err(IntErrorKind::InvalidDigit)
        } else {
            dec_digits_value(b.drop_first(), 0, max)
        }
    } else {
        dec_digits_value(b, 0, max)
    }
}

proof fn lemma_dec_digits_bounded(digits: Seq<u8>, acc: nat, max: nat)
    requires
        acc <= max,
    ensures
        dec_digits_value(digits, acc, max) matches Ok(v) ==> v <= max,
    decreases digits.len(),
{
    if digits.len() > 0 && is_dec_digit(digits[0]) {
        let next = acc * 10 + (digits[0] - 0x30) as nat;
        if next <= max {
            lemma_dec_digits_bounded(digits.drop_first(), next, max);
        }
    }
}

/// Parses the bytes `b[start..end]` as a `u16`, with the standard library's rules.
pub fn parse_u16(b: &[u8], start: usize, end: usize) -> (res: Result<u16, IntErrorKind>)
    requires
        start <= end <= b@.len(),
    ensures
        match parse_unsigned(b@.subrange(start as int, end as int), 65535) {
            Ok(v) => res == Ok::<u16, IntErrorKind>(v as u16),
            Err(k) => res == Err::<u16, IntErrorKind>(k),
        },
        parse_unsigned(b@.subrange(start as int, end as int), 65535) matches Ok(v) ==> v <= 65535,
{
    let ghost s = b@.subrange(start as int, end as int);
    proof {
        lemma_dec_digits_bounded(s, 0, 65535);
        if s.len() > 0 {
            lemma_dec_digits_bounded(s.drop_first(), 0, 65535);
        }
    }
    if start == end {
        return Err(IntErrorKind::Empty);
    }
    let mut i = start;
    if b[start] == 0x2b {
        if end - start == 1 {
            return Err(IntErrorKind::InvalidDigit);
        }
        i = start + 1;
        assert(b@.subrange(i as int, end as int) =~= s.drop_first());
    } else {
        assert(b@.subrange(i as int, end as int) =~= s);
    }
    let mut acc: u32 = 0;
    while i < end
        invariant
            start < i <= end <= b@.len() || (start == i && i < end <= b@.len()),
            acc <= 65535,
            s == b@.subrange(start as int, end as int),
            dec_digits_value(b@.subrange(i as int, end as int), acc as nat, 65535)
                == parse_unsigned(s, 65535),
        decreases end - i,
    {
        let c = b[i];
        let ghost rest = b@.subrange(i as int, end as int);
        assert(rest[0] == c);
        assert(rest.drop_first() =~= b@.subrange(i + 1, end as int));
        if c < 0x30 || c > 0x39 {
            return Err(IntErrorKind::InvalidDigit);
        }
        let next = acc * 10 + (c - 0x30) as u32;
        if next > 65535 {
            return Err(IntErrorKind::PosOverflow);
        }
        acc = next;
        i = i + 1;
    }
    assert(b@.subrange(i as int, end as int) =~= Seq::<u8>::empty());
    Ok(acc as u16)
}

/// Appends one character to a string (`String::push`).
#[verifier::external_body]
pub(crate) fn push_char(s: &mut String, c: char)
    ensures
        final(s)@ == old(s)@.push(c),
{
    s.push(c);
}

/// The character of a decimal digit.
pub fn digit_to_char(d: u32) -> (c: char)
    requires
        d < 10,
    ensures
        c == digit_char(d as nat),
{
    if d == 0 { '0' }
    else if d == 1 { '1' }
    else if d == 2 { '2' }
    else if d == 3 { '3' }
    else if d == 4 { '4' }
    else if d == 5 { '5' }
    else if d == 6 { '6' }
    else if d == 7 { '7' }
    else if d == 8 { '8' }
    else { '9' }
}

proof fn lemma_decimal_len(n: nat)
    ensures
        decimal(n).len() >= 1,
        n < 10 ==> decimal(n).len() == 1,
        n >= 10 ==> decimal(n).len() == decimal(n / 10).len() + 1,
    decreases n,
{
    if n >= 10 {
        lemma_decimal_len(n / 10);
    }
}

/// Appends the decimal rendering of `n` to `s`.
pub fn push_decimal(s: &mut String, n: u64)
    ensures
        final(s)@ == old(s)@ + decimal(n as nat),
    decreases n,
{
    if n >= 10 {
        push_decimal(s, n / 10);
        push_char(s, digit_to_char((n % 10) as u32));
    } else {
        push_char(s, digit_to_char(n as u32));
    }
    proof {
        assert(old(s)@ + decimal(n as nat) =~= if n >= 10 {
            (old(s)@ + decimal((n / 10) as nat)).push(digit_char((n % 10) as nat))
        } else {
            old(s)@.push(digit_char(n as nat))
        });
    }
}

/// Appends the decimal rendering of `n`, zero-padded to `width` characters, to `s`.
pub fn push_decimal_padded(s: &mut String, n: u64, width: u64)
    ensures
        final(s)@ == old(s)@ + decimal_padded(n as nat, width as nat),
{
    let len = decimal_len(n);
    let ghost start = s@;
    if len < width {
        let mut k: u64 = 0;
        while k < width - len
            invariant
                len < width,
                k <= width - len,
                s@ == start + Seq::new(k as nat, |i: int| '0'),
            decreases width - len - k,
        {
            push_char(s, '0');
            k = k + 1;
            assert(s@ =~= start + Seq::new(k as nat, |i: int| '0'));
        }
    }
    let ghost mid = s@;
    push_decimal(s, n);
    proof {
        assert(s@ =~= start + decimal_padded(n as nat, width as nat));
    }
}

/// The number of characters in the decimal rendering of `n`.
pub fn decimal_len(n: u64) -> (len: u64)
    ensures
        len == decimal(n as nat).len(),
        1 <= len <= 20,
    decreases n,
{
    proof {
        lemma_decimal_len(n as nat);
        reveal_with_fuel(pow10, 21);
        lemma_decimal_len_le(n as nat, 20);
    }
    if n < 10 {
        1
    } else {
        let l = decimal_len(n / 10);
        l + 1
    }
}

proof fn lemma_decimal_len_le(n: nat, k: nat)
    requires
        1 <= k,
        n < pow10(k),
    ensures
        decimal(n).len() <= k,
    decreases k,
{
    lemma_decimal_len(n);
    if n >= 10 {
        if k == 1 {
            reveal_with_fuel(pow10, 2);
        } else {
            lemma_div_pow10(n, (k - 1) as nat);
            lemma_decimal_len_le(n / 10, (k - 1) as nat);
        }
    }
}

pub open spec fn pow10(k: nat) -> nat
    decreases k,
{
    if k == 0 { 1 } else { 10 * pow10((k - 1) as nat) }
}

proof fn lemma_div_pow10(n: nat, k: nat)
    requires
        n < pow10(k + 1),
    ensures
        n / 10 < pow10(k),
{
    assert(pow10(k + 1) == 10 * pow10(k));
    assert(n / 10 < pow10(k)) by (nonlinear_arith)
        requires n < 10 * pow10(k);
}

/// The decimal text of an integer, with a minus sign when negative.
pub open spec fn signed_decimal(v: int) -> Seq<char> {
    if v < 0 { seq!['-'] + decimal((-v) as nat) } else { decimal(v as nat) }
}

/// Appends the decimal text of a signed integer.
pub fn push_signed_decimal(s: &mut String, v: i64)
    ensures
        final(s)@ == old(s)@ + signed_decimal(v as int),
{
    if v < 0 {
        push_char(s, '-');
        let m: u64 = if v == i64::MIN { 9223372036854775808u64 } else { (-v) as u64 };
        push_decimal(s, m);
        proof {
            assert(old(s)@ + signed_decimal(v as int) =~= old(s)@.push('-') + decimal(m as nat));
        }
    } else {
        push_decimal(s, v as u64);
    }
}

/// The comma-separated pieces of `b`, as `str::split(',')` gives them.
pub open spec fn comma_pieces(b: Seq<u8>) -> Seq<Seq<u8>>
    decreases b.len(),
{
    if b.len() == 0 {
        seq![Seq::<u8>::empty()]
    } else if b.last() == 0x2c {
        comma_pieces(b.drop_last()).push(Seq::<u8>::empty())
    } else {
        let p = comma_pieces(b.drop_last());
        p.update(p.len() - 1, p.last().push(b.last()))
    }
}

/// There is always at least one piece.
pub proof fn lemma_comma_pieces_nonempty(b: Seq<u8>)
    ensures
        comma_pieces(b).len() >= 1,
    decreases b.len(),
{
    if b.len() > 0 {
        lemma_comma_pieces_nonempty(b.drop_last());
    }
}

/// The pieces of a prefix that are complete stay the pieces of any longer prefix.
pub proof fn lemma_pieces_prefix(b: Seq<u8>, i: int, j: int)
    requires
        0 <= i <= j <= b.len(),
    ensures
        comma_pieces(b.take(j)).len() >= comma_pieces(b.take(i)).len(),
        forall|k: int| 0 <= k < comma_pieces(b.take(i)).len() - 1
            ==> #[trigger] comma_pieces(b.take(j))[k] == comma_pieces(b.take(i))[k],
    decreases j - i,
{
    if i < j {
        lemma_pieces_prefix(b, i, j - 1);
        lemma_comma_pieces_nonempty(b.take(j - 1));
        assert(b.take(j).drop_last() =~= b.take(j - 1));
    }
}

/// Reading one more digit: the value read so far, times ten, plus the digit.
proof fn lemma_digits_push(s: Seq<u8>, d: u8, acc: nat, max: nat)
    ensures
        dec_digits_value(s.push(d), acc, max) == match dec_digits_value(s, acc, max) {
            Ok(v) => if !is_dec_digit(d) {
                Err(IntErrorKind::InvalidDigit)
            } else if v * 10 + (d - 0x30) as nat > max {
                Err(IntErrorKind::PosOverflow)
            } else {
                Ok((v * 10 + (d - 0x30) as nat) as nat)
            },
            Err(e) => Err(e),
        },
    decreases s.len(),
{
    if s.len() == 0 {
        assert(s.push(d).drop_first() =~= Seq::<u8>::empty());
        assert(s.push(d)[0] == d);
        reveal_with_fuel(dec_digits_value, 2);
    } else {
        assert(s.push(d)[0] == s[0]);
        assert(s.push(d).drop_first() =~= s.drop_first().push(d));
        if is_dec_digit(s[0]) {
            let next = acc * 10 + (s[0] - 0x30) as nat;
            lemma_digits_push(s.drop_first(), d, next, max);
        }
    }
}

/// The ASCII bytes of the decimal rendering of `n`.
pub open spec fn decimal_bytes(n: nat) -> Seq<u8> {
    decimal(n).map_values(|c: char| c as u8)
}

/// Every character of a decimal rendering is a digit.
pub proof fn lemma_decimal_digits(n: nat)
    ensures
        decimal(n).len() >= 1,
        forall|i: int| 0 <= i < decimal(n).len() ==> '0' <= #[trigger] decimal(n)[i] <= '9',
    decreases n,
{
    if n >= 10 {
        lemma_decimal_digits(n / 10);
    }
}

/// The ASCII code of a digit's character.
proof fn lemma_digit_char_byte(d: nat)
    requires
        d < 10,
    ensures
        digit_char(d) as u8 == 0x30 + d,
        '0' <= digit_char(d) <= '9',
{
}

/// The decimal rendering of a number up to 65535 reads back as that number.
pub proof fn lemma_decimal_parses(n: nat)
    requires
        n <= 65535,
    ensures
        dec_digits_value(decimal_bytes(n), 0, 65535) == Ok::<nat, IntErrorKind>(n),
        parse_unsigned(decimal_bytes(n), 65535) == Ok::<nat, IntErrorKind>(n),
    decreases n,
{
    lemma_decimal_digits(n);
    if n < 10 {
        lemma_digit_char_byte(n);
        assert(decimal_bytes(n) =~= seq![(0x30 + n) as u8]);
        assert(decimal_bytes(n).drop_first() =~= Seq::<u8>::empty());
        reveal_with_fuel(dec_digits_value, 2);
    } else {
        lemma_decimal_parses(n / 10);
        lemma_digit_char_byte(n % 10);
        let d = (0x30 + n % 10) as u8;
        assert(decimal_bytes(n) =~= decimal_bytes(n / 10).push(d));
        lemma_digits_push(decimal_bytes(n / 10), d, 0, 65535);
        assert((n / 10) * 10 + n % 10 == n);
    }
    assert(decimal_bytes(n)[0] == decimal(n)[0] as u8);
}

} // verus!
