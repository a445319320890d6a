//! Small arithmetic and formatting helpers.

use vstd::prelude::*;

verus! {

/// `a - b` where that is positive, zero otherwise.
pub open spec fn safe_subtract_spec(a: u32, b: u32) -> u32 {
    if a > b {
        (a - b) as u32
    } else {
        0
    }
}

/// `x`, or the largest `u32` where `x` is above it.
pub open spec fn clamp_u32(x: int) -> u32 {
    if x > u32::MAX {
        u32::MAX
    } else {
        x as u32
    }
}

/// Subtracts without wrapping: the difference where `a > b`, zero otherwise.
pub fn safe_subtract(a: u32, b: u32) -> (sub: u32)
    ensures
        sub == safe_subtract_spec(a, b),
{
    let mut sub: u32 = 0;
    if a > b {
        sub = a - b;
    }
    sub
}

/// The character of the decimal digit `d`.
pub open spec fn digit_char(d: int) -> char {
    (48 + d) as char
}

/// The decimal digits of `n`, the most significant first, without leading
/// zeros; the one digit `0` for zero.
pub open spec fn decimal(n: nat) -> Seq<char>
    decreases n,
{
    if n < 10 {
        seq![digit_char(n as int)]
    } else {
        decimal(n / 10).push(digit_char((n % 10) as int))
    }
}

/// `s` with as many `fill` before it as bring it to `width` characters;
/// `s` itself where it has that many.
pub open spec fn pad_left(s: Seq<char>, width: nat, fill: char) -> Seq<char> {
    if s.len() >= width {
        s
    } else {
        Seq::new((width - s.len()) as nat, |i: int| fill) + s
    }
}

/// A time in milliseconds written as minutes, seconds and milliseconds:
/// the minutes in at least three places, filled with blanks, a colon, the
/// seconds in two places, a point, the milliseconds in three places.
pub open spec fn milliseconds_text(ms: u32) -> Seq<char> {
    pad_left(decimal((ms / 60_000) as nat), 3, ' ') + seq![':'] + pad_left(
        decimal((ms / 1000 % 60) as nat),
        2,
        '0',
    ) + seq!['.'] + pad_left(decimal((ms % 1000) as nat), 3, '0')
}

/// The count of decimal digits of `n`.
fn decimal_len(n: u32) -> (len: usize)
    ensures
        len == decimal(n as nat).len(),
        1 <= len <= 10,
    decreases n,
{
    if n >= 10 {
        let front: usize = decimal_len(n / 10);
        assert(n / 10 < 1_000_000_000 ==> front <= 9) by {
            lemma_decimal_len_bound((n / 10) as nat);
        }
        front + 1
    } else {
        1
    }
}

/// How many digits a number has at most, by its size.
pub proof fn lemma_decimal_len_bound(n: nat)
    ensures
        n < 10 ==> decimal(n).len() == 1,
        n < 100 ==> decimal(n).len() <= 2,
        n < 1_000 ==> decimal(n).len() <= 3,
        n < 10_000 ==> decimal(n).len() <= 4,
        n < 100_000 ==> decimal(n).len() <= 5,
        n < 1_000_000 ==> decimal(n).len() <= 6,
        n < 10_000_000 ==> decimal(n).len() <= 7,
        n < 100_000_000 ==> decimal(n).len() <= 8,
        n < 1_000_000_000 ==> decimal(n).len() <= 9,
    decreases n,
{
    if n >= 10 {
        lemma_decimal_len_bound(n / 10);
    }
}

/// Appends the decimal digits of `n`.
fn push_decimal(text: &mut String, n: u32)
    ensures
        final(text)@ == old(text)@ + decimal(n as nat),
    decreases n,
{
    if n >= 10 {
        push_decimal(text, n / 10);
    }
    let digit: char = (48u8 + (n % 10) as u8) as char;
    text.push(digit);
    assert(text@ =~= old(text)@ + decimal(n as nat));
}

/// Appends the decimal digits of `n`, with `fill` before them up to `width`
/// characters.
fn push_padded(text: &mut String, n: u32, width: usize, fill: char)
    ensures
        final(text)@ == old(text)@ + pad_left(decimal(n as nat), width as nat, fill),
{
    let len: usize = decimal_len(n);
    let mut i: usize = len;
    while i < width
        invariant
            len <= i,
            i <= width || i == len,
            text@ == old(text)@ + Seq::new((i - len) as nat, |j: int| fill),
        decreases width - i,
    {
        text.push(fill);
        i += 1;
        assert(text@ =~= old(text)@ + Seq::new((i - len) as nat, |j: int| fill));
    }
    push_decimal(text, n);
    assert(text@ =~= old(text)@ + pad_left(decimal(n as nat), width as nat, fill));
}

/// Writes a time in milliseconds as minutes, seconds and milliseconds.
pub fn milliseconds_to_string(ms: u32) -> (s: String)
    ensures
        s@ == milliseconds_text(ms),
{
    let millis: u32 = ms % 1000;
    let all_seconds: u32 = ms / 1000;
    let seconds: u32 = all_seconds % 60;
    let minutes: u32 = all_seconds / 60;
    let mut s = String::new();
    push_padded(&mut s, minutes, 3, ' ');
    s.push(':');
    push_padded(&mut s, seconds, 2, '0');
    s.push('.');
    push_padded(&mut s, millis, 3, '0');
    assert(s@ =~= milliseconds_text(ms));
    s
}

} // verus!
