//! Times as the user writes them: `[minutes:]seconds[.milliseconds]`.

use vstd::prelude::*;
use vstd::string::StringSliceAdditionalSpecFns;
use crate::util::{decimal, lemma_decimal_len_bound, milliseconds_text, pad_left};

verus! {

/// Why a piece of text is no number.
#[derive(Clone, Copy, Debug, PartialEq, Eq, Structural)]
pub enum NumberError {
    /// The text is empty.
    Empty,
    /// The text holds a character that is no decimal digit, or nothing
    /// behind a sign.
    InvalidDigit,
    /// The number is above the largest `u32`.
    TooLarge,
}

/// The part of a time that a number stands for.
#[derive(Clone, Copy, Debug, PartialEq, Eq, Structural)]
pub enum TimeField {
    Minutes,
    Seconds,
    Milliseconds,
}

/// Why a piece of text is no time.
#[derive(Clone, Copy, Debug, PartialEq, Eq, Structural)]
pub enum TimeParseError {
    /// The text holds more than one colon; `separators` counts them.
    TooManyColons { separators: usize },
    /// The text behind the colon holds more than one point; `separators`
    /// counts them.
    TooManyPoints { separators: usize },
    /// One of the numbers is none.
    InvalidNumber { field: TimeField, reason: NumberError },
    /// The time in milliseconds is above the largest `u32`.
    OutOfRange,
}

/// The number that the decimal digits from `i` up to `hi` spell behind the
/// number `acc` that the digits before them spelled. The first character
/// that is no digit, or the first digit with which the number is above the
/// largest `u32`, decides the error.
pub open spec fn digits_in(s: Seq<u8>, i: int, hi: int, acc: nat) -> Result<u32, NumberError>
    decreases hi - i,
{
    if i >= hi {
        Ok(acc as u32)
    } else if !(48 <= s[i] <= 57) {
        Err(NumberError::InvalidDigit)
    } else {
        let next = acc * 10 + (s[i] - 48) as nat;
        if next > u32::MAX {
            Err(NumberError::TooLarge)
        } else {
            digits_in(s, i + 1, hi, next)
        }
    }
}

/// The number that the bytes from `lo` up to `hi` spell: decimal digits,
/// before which a plus sign may stand.
pub open spec fn number_in(s: Seq<u8>, lo: int, hi: int) -> Result<u32, NumberError> {
    if lo >= hi {
        Err(NumberError::Empty)
    } else {
        let start = if s[lo] == 43 {
            lo + 1
        } else {
            lo
        };
        if start >= hi {
            Err(NumberError::InvalidDigit)
        } else {
            digits_in(s, start, hi, 0)
        }
    }
}

/// How often the byte `b` stands among the bytes from `lo` up to `hi`.
pub open spec fn count_in(s: Seq<u8>, lo: int, hi: int, b: u8) -> nat
    decreases hi - lo,
{
    if lo >= hi {
        0
    } else {
        count_in(s, lo, hi - 1, b) + if s[hi - 1] == b {
            1nat
        } else {
            0nat
        }
    }
}

/// The first place from `lo` up to `hi` at which the byte `b` stands, and
/// `hi` where it stands at none.
pub open spec fn first_in(s: Seq<u8>, lo: int, hi: int, b: u8) -> int
    decreases hi - lo,
{
    if lo >= hi {
        hi
    } else if s[lo] == b {
        lo
    } else {
        first_in(s, lo + 1, hi, b)
    }
}

/// The milliseconds of a time of `minutes`, `seconds` and `millis`.
pub open spec fn total_milliseconds(minutes: u32, seconds: u32, millis: u32) -> int {
    1000 * (60 * minutes + seconds) + millis
}

/// The seconds and milliseconds that the bytes from `lo` on spell, behind
/// `minutes` minutes: at most one point, before it the seconds, behind it
/// the milliseconds as a number of their own.
pub open spec fn seconds_in(s: Seq<u8>, lo: int, minutes: u32) -> Result<u32, TimeParseError> {
    let hi = s.len() as int;
    let points = count_in(s, lo, hi, 46);
    if points > 1 {
        Err(TimeParseError::TooManyPoints { separators: points as usize })
    } else {
        let point = first_in(s, lo, hi, 46);
        match number_in(s, lo, point) {
            Err(reason) => Err(
                TimeParseError::InvalidNumber { field: TimeField::Seconds, reason },
            ),
            Ok(seconds) => {
                let millis = if points == 1 {
                    number_in(s, point + 1, hi)
                } else {
                    Ok(0u32)
                };
                match millis {
                    Err(reason) => Err(
                        TimeParseError::InvalidNumber { field: TimeField::Milliseconds, reason },
                    ),
                    Ok(millis) => if total_milliseconds(minutes, seconds, millis) > u32::MAX {
                        Err(TimeParseError::OutOfRange)
                    } else {
                        Ok(total_milliseconds(minutes, seconds, millis) as u32)
                    },
                }
            },
        }
    }
}

/// The milliseconds of the time that the bytes spell.
///
/// At most one colon, before it the minutes; behind it, or in all the text
/// where there is none, the seconds, and behind at most one point the
/// milliseconds. Each of the three is a decimal number of its own: `1.5` is
/// one second and five milliseconds. The defects are looked for in this
/// order: the colons, the minutes, the points, the seconds, the
/// milliseconds, the range of the result.
pub open spec fn parse_milliseconds_spec(s: Seq<u8>) -> Result<u32, TimeParseError> {
    let hi = s.len() as int;
    let colons = count_in(s, 0, hi, 58);
    if colons > 1 {
        Err(TimeParseError::TooManyColons { separators: colons as usize })
    } else if colons == 1 {
        let colon = first_in(s, 0, hi, 58);
        match number_in(s, 0, colon) {
            Err(reason) => Err(
                TimeParseError::InvalidNumber { field: TimeField::Minutes, reason },
            ),
            Ok(minutes) => seconds_in(s, colon + 1, minutes),
        }
    } else {
        seconds_in(s, 0, 0)
    }
}

/// Reads the number that the bytes from `lo` up to `hi` spell.
fn parse_number_in(bytes: &[u8], lo: usize, hi: usize) -> (r: Result<u32, NumberError>)
    requires
        lo <= hi <= bytes@.len(),
    ensures
        r == number_in(bytes@, lo as int, hi as int),
{
    if lo >= hi {
        return Err(NumberError::Empty);
    }
    let mut i: usize = if bytes[lo] == 43 {
        lo + 1
    } else {
        lo
    };
    if i >= hi {
        return Err(NumberError::InvalidDigit);
    }
    let ghost start = i;
    let mut acc: u32 = 0;
    while i < hi
        invariant
            start <= i <= hi <= bytes@.len(),
            number_in(bytes@, lo as int, hi as int) == digits_in(
                bytes@,
                start as int,
                hi as int,
                0,
            ),
            digits_in(bytes@, start as int, hi as int, 0) == digits_in(
                bytes@,
                i as int,
                hi as int,
                acc as nat,
            ),
        decreases hi - i,
    {
        let c: u8 = bytes[i];
        if c < 48 || c > 57 {
            return Err(NumberError::InvalidDigit);
        }
        let digit: u32 = (c - 48) as u32;
        let next: u64 = acc as u64 * 10 + digit as u64;
        if next > u32::MAX as u64 {
            return Err(NumberError::TooLarge);
        }
        acc = next as u32;
        i += 1;
    }
    Ok(acc)
}

/// Counts the byte `b` among the bytes from `lo` on and finds the first
/// place at which it stands.
fn count_and_find(bytes: &[u8], lo: usize, b: u8) -> (r: (usize, usize))
    requires
        lo <= bytes@.len(),
    ensures
        r.0 == count_in(bytes@, lo as int, bytes@.len() as int, b),
        r.1 == first_in(bytes@, lo as int, bytes@.len() as int, b),
        lo <= r.1 <= bytes@.len(),
        r.0 > 0 ==> r.1 < bytes@.len() <= usize::MAX,
{
    let hi: usize = bytes.len();
    let mut count: usize = 0;
    let mut first: usize = hi;
    let mut i: usize = lo;
    while i < hi
        invariant
            lo <= i <= hi == bytes@.len(),
            count == count_in(bytes@, lo as int, i as int, b),
            count <= i - lo,
            count == 0 ==> first == hi,
            count > 0 ==> lo <= first < i && first == first_in(bytes@, lo as int, i as int, b),
            count == 0 ==> first_in(bytes@, lo as int, i as int, b) == i,
        decreases hi - i,
    {
        proof {
            lemma_first_in_extend(bytes@, lo as int, i as int, b);
        }
        if bytes[i] == b {
            if count == 0 {
                first = i;
            }
            count += 1;
        }
        i += 1;
    }
    proof {
        if count == 0 {
            assert(first == hi);
        }
    }
    (count, first)
}

/// The first place of a byte in a range that grows by one at its end: it
/// stays where the byte was found before, and is the new place where the
/// byte stands there and nowhere before.
proof fn lemma_first_in_extend(s: Seq<u8>, lo: int, hi: int, b: u8)
    requires
        0 <= lo <= hi < s.len(),
    ensures
        first_in(s, lo, hi + 1, b) == if first_in(s, lo, hi, b) < hi {
            first_in(s, lo, hi, b)
        } else if s[hi] == b {
            hi
        } else {
            hi + 1
        },
        lo <= first_in(s, lo, hi, b) <= hi,
    decreases hi - lo,
{
    if lo < hi {
        if s[lo] != b {
            lemma_first_in_extend(s, lo + 1, hi, b);
            assert(first_in(s, lo, hi, b) == first_in(s, lo + 1, hi, b));
            assert(first_in(s, lo, hi + 1, b) == first_in(s, lo + 1, hi + 1, b));
        }
    } else {
        assert(first_in(s, lo, hi, b) == hi);
        assert(first_in(s, hi + 1, hi + 1, b) == hi + 1);
    }
}

/// Reads a decimal number, before which a plus sign may stand.
pub fn parseu32(s: &str) -> (r: Result<u32, NumberError>)
    ensures
        r == number_in(s.spec_bytes(), 0, s.spec_bytes().len() as int),
{
    let bytes = s.as_bytes();
    parse_number_in(bytes, 0, bytes.len())
}

/// Reads the seconds and milliseconds from `lo` on, behind `minutes`
/// minutes.
fn parse_seconds_in(bytes: &[u8], lo: usize, minutes: u32) -> (r: Result<u32, TimeParseError>)
    requires
        lo <= bytes@.len(),
    ensures
        r == seconds_in(bytes@, lo as int, minutes),
{
    let hi: usize = bytes.len();
    let (points, point) = count_and_find(bytes, lo, 46);
    if points > 1 {
        return Err(TimeParseError::TooManyPoints { separators: points });
    }
    let seconds: u32 = match parse_number_in(bytes, lo, point) {
        Ok(v) => v,
        Err(reason) => {
            return Err(TimeParseError::InvalidNumber { field: TimeField::Seconds, reason });
        },
    };
    let mut milli: u32 = 0;
    if points == 1 {
        milli = match parse_number_in(bytes, point + 1, hi) {
            Ok(v) => v,
            Err(reason) => {
                return Err(
                    TimeParseError::InvalidNumber { field: TimeField::Milliseconds, reason },
                );
            },
        };
    }
    let total: u64 = 1000 * (60 * minutes as u64 + seconds as u64) + milli as u64;
    if total > u32::MAX as u64 {
        Err(TimeParseError::OutOfRange)
    } else {
        Ok(total as u32)
    }
}

/// Reads a time written as `[minutes:]seconds[.milliseconds]` and gives it
/// in milliseconds.
pub fn parse_milliseconds(s: &str) -> (r: Result<u32, TimeParseError>)
    ensures
        r == parse_milliseconds_spec(s.spec_bytes()),
{
    let bytes = s.as_bytes();
    let (colons, colon) = count_and_find(bytes, 0, 58);
    if colons > 1 {
        return Err(TimeParseError::TooManyColons { separators: colons });
    }
    if colons == 1 {
        let minutes: u32 = match parse_number_in(bytes, 0, colon) {
            Ok(v) => v,
            Err(reason) => {
                return Err(TimeParseError::InvalidNumber { field: TimeField::Minutes, reason });
            },
        };
        parse_seconds_in(bytes, colon + 1, minutes)
    } else {
        parse_seconds_in(bytes, 0, 0)
    }
}

/// The number that the decimal digits from `lo` up to `hi` spell.
pub open spec fn digits_value(s: Seq<u8>, lo: int, hi: int) -> nat
    decreases hi - lo,
{
    if hi <= lo {
        0
    } else {
        digits_value(s, lo, hi - 1) * 10 + (s[hi - 1] - 48) as nat
    }
}

/// Whether all bytes from `lo` up to `hi` are decimal digits.
pub open spec fn all_digits(s: Seq<u8>, lo: int, hi: int) -> bool {
    forall|k: int| lo <= k < hi ==> 48 <= #[trigger] s[k] <= 57
}

/// The number that digits spell does not get smaller with more digits.
proof fn lemma_digits_value_grows(s: Seq<u8>, lo: int, i: int, j: int)
    requires
        lo <= i <= j,
        all_digits(s, lo, j),
    ensures
        digits_value(s, lo, i) <= digits_value(s, lo, j),
    decreases j - i,
{
    if i < j {
        lemma_digits_value_grows(s, lo, i, j - 1);
        assert(48 <= s[j - 1] <= 57);
    }
}

/// Reading digits one behind the other gives the number that they spell,
/// where a `u32` holds it.
proof fn lemma_digits_in_value(s: Seq<u8>, lo: int, i: int, hi: int)
    requires
        lo <= i <= hi,
        all_digits(s, lo, hi),
        digits_value(s, lo, hi) <= u32::MAX,
    ensures
        digits_in(s, i, hi, digits_value(s, lo, i)) == Ok::<u32, NumberError>(
            digits_value(s, lo, hi) as u32,
        ),
    decreases hi - i,
{
    if i < hi {
        assert(48 <= s[i] <= 57);
        assert(digits_value(s, lo, i + 1) == digits_value(s, lo, i) * 10 + (s[i] - 48) as nat);
        lemma_digits_value_grows(s, lo, i + 1, hi);
        lemma_digits_in_value(s, lo, i + 1, hi);
    }
}

/// Digits that spell a number a `u32` holds are read as that number.
pub proof fn lemma_number_in_digits(s: Seq<u8>, lo: int, hi: int)
    requires
        lo < hi,
        all_digits(s, lo, hi),
        digits_value(s, lo, hi) <= u32::MAX,
    ensures
        number_in(s, lo, hi) == Ok::<u32, NumberError>(digits_value(s, lo, hi) as u32),
{
    assert(48 <= s[lo] <= 57);
    lemma_digits_in_value(s, lo, lo, hi);
}

/// Zeros before digits do not change the number that the digits spell.
proof fn lemma_leading_zeros(s: Seq<u8>, lo: int, mid: int, hi: int)
    requires
        lo <= mid <= hi,
        forall|k: int| lo <= k < mid ==> #[trigger] s[k] == 48,
    ensures
        digits_value(s, lo, hi) == digits_value(s, mid, hi),
    decreases hi - lo,
{
    if hi > mid {
        lemma_leading_zeros(s, lo, mid, hi - 1);
    } else if mid > lo {
        lemma_leading_zeros(s, lo, mid - 1, mid - 1);
        assert(s[mid - 1] == 48);
    }
}

/// The bytes of the characters of a text in which every character is one
/// byte.
pub open spec fn ascii_bytes(text: Seq<char>) -> Seq<u8> {
    Seq::new(text.len(), |i: int| text[i] as u8)
}

/// Where the decimal digits of `n` stand from `lo` on, they are digits and
/// spell `n`.
proof fn lemma_decimal_spells(s: Seq<u8>, lo: int, n: nat)
    requires
        0 <= lo,
        lo + decimal(n).len() <= s.len(),
        forall|k: int| 0 <= k < decimal(n).len() ==> s[lo + k] == #[trigger] decimal(n)[k] as u8,
    ensures
        all_digits(s, lo, lo + decimal(n).len()),
        digits_value(s, lo, lo + decimal(n).len()) == n,
    decreases n,
{
    let d = decimal(n);
    let hi = lo + d.len();
    if n < 10 {
        assert(d.len() == 1);
        assert(s[lo] == d[0] as u8);
        assert(digits_value(s, lo, lo) == 0);
        assert forall|k: int| lo <= k < hi implies 48 <= #[trigger] s[k] <= 57 by {
            assert(k == lo);
        }
    } else {
        let front = decimal(n / 10);
        assert(d == front.push(crate::util::digit_char((n % 10) as int)));
        assert forall|k: int| 0 <= k < front.len() implies s[lo + k]
            == #[trigger] front[k] as u8 by {
            assert(d[k] == front[k]);
            assert(s[lo + k] == d[k] as u8);
        }
        lemma_decimal_spells(s, lo, n / 10);
        assert(s[hi - 1] == d[d.len() - 1] as u8);
        assert(s[hi - 1] == 48 + n % 10);
        assert forall|k: int| lo <= k < hi implies 48 <= #[trigger] s[k] <= 57 by {
            if k < hi - 1 {
                assert(all_digits(s, lo, hi - 1));
            }
        }
    }
}

/// Where the decimal digits of `n` stand from `lo` on with zeros before
/// them up to `width` places, all of that are digits and spell `n`.
proof fn lemma_padded_decimal_spells(s: Seq<u8>, lo: int, n: nat, width: nat)
    requires
        0 <= lo,
        lo + pad_left(decimal(n), width, '0').len() <= s.len(),
        forall|k: int|
            0 <= k < pad_left(decimal(n), width, '0').len() ==> s[lo + k] == #[trigger] pad_left(
                decimal(n),
                width,
                '0',
            )[k] as u8,
    ensures
        all_digits(s, lo, lo + pad_left(decimal(n), width, '0').len()),
        digits_value(s, lo, lo + pad_left(decimal(n), width, '0').len()) == n,
{
    let d = decimal(n);
    let p = pad_left(d, width, '0');
    let zeros = p.len() - d.len();
    let mid = lo + zeros;
    assert forall|k: int| 0 <= k < d.len() implies s[mid + k] == #[trigger] d[k] as u8 by {
        assert(p[zeros + k] == d[k]);
        assert(s[lo + (zeros + k)] == p[zeros + k] as u8);
    }
    lemma_decimal_spells(s, mid, n);
    assert forall|k: int| lo <= k < mid implies #[trigger] s[k] == 48 by {
        assert(p[k - lo] == '0');
        assert(s[lo + (k - lo)] == p[k - lo] as u8);
    }
    lemma_leading_zeros(s, lo, mid, lo + p.len());
    assert forall|k: int| lo <= k < lo + p.len() implies 48 <= #[trigger] s[k] <= 57 by {
        if k >= mid {
            assert(all_digits(s, mid, mid + d.len()));
        }
    }
}

/// A byte that stands nowhere in a range is counted zero times there, and
/// is first found behind it.
proof fn lemma_byte_not_there(s: Seq<u8>, lo: int, hi: int, b: u8)
    requires
        lo <= hi,
        forall|k: int| lo <= k < hi ==> #[trigger] s[k] != b,
    ensures
        count_in(s, lo, hi, b) == 0,
        first_in(s, lo, hi, b) == hi,
    decreases hi - lo,
{
    if lo < hi {
        assert(s[lo] != b);
        assert(s[hi - 1] != b);
        lemma_byte_not_there(s, lo, hi - 1, b);
        lemma_byte_not_there(s, lo + 1, hi, b);
    }
}

/// A count over a range is the sum of the counts over its two parts.
proof fn lemma_count_split(s: Seq<u8>, lo: int, mid: int, hi: int, b: u8)
    requires
        lo <= mid <= hi,
    ensures
        count_in(s, lo, hi, b) == count_in(s, lo, mid, b) + count_in(s, mid, hi, b),
    decreases hi - mid,
{
    if mid < hi {
        lemma_count_split(s, lo, mid, hi - 1, b);
    }
}

/// A byte is first found at the first place at which it stands.
proof fn lemma_first_found(s: Seq<u8>, lo: int, p: int, hi: int, b: u8)
    requires
        lo <= p < hi,
        forall|k: int| lo <= k < p ==> #[trigger] s[k] != b,
        s[p] == b,
    ensures
        first_in(s, lo, hi, b) == p,
    decreases p - lo,
{
    if lo < p {
        assert(s[lo] != b);
        lemma_first_found(s, lo + 1, p, hi, b);
    }
}

/// A time in milliseconds written as minutes, seconds and milliseconds,
/// without blanks before it.
pub open spec fn written_time(ms: u32) -> Seq<char> {
    decimal((ms / 60_000) as nat) + seq![':'] + pad_left(decimal((ms / 1000 % 60) as nat), 2, '0')
        + seq!['.'] + pad_left(decimal((ms % 1000) as nat), 3, '0')
}

/// Whether the bytes are three numbers in decimal digits, the first of `a`
/// digits, a colon behind it, the second of two digits, a point behind it,
/// and the third of three digits; and the numbers are those given.
spec fn time_layout(s: Seq<u8>, a: int, minutes: nat, seconds: nat, millis: nat) -> bool {
    &&& 1 <= a
    &&& s.len() == a + 7
    &&& all_digits(s, 0, a)
    &&& digits_value(s, 0, a) == minutes
    &&& s[a] == 58
    &&& all_digits(s, a + 1, a + 3)
    &&& digits_value(s, a + 1, a + 3) == seconds
    &&& s[a + 3] == 46
    &&& all_digits(s, a + 4, a + 7)
    &&& digits_value(s, a + 4, a + 7) == millis
}

/// A written time is laid out as three numbers with a colon and a point.
proof fn lemma_written_time_layout(ms: u32)
    ensures
        time_layout(
            ascii_bytes(written_time(ms)),
            decimal((ms / 60_000) as nat).len() as int,
            (ms / 60_000) as nat,
            (ms / 1000 % 60) as nat,
            (ms % 1000) as nat,
        ),
{
    let minutes = (ms / 60_000) as nat;
    let seconds = (ms / 1000 % 60) as nat;
    let millis = (ms % 1000) as nat;
    let m = decimal(minutes);
    let sec = pad_left(decimal(seconds), 2, '0');
    let mil = pad_left(decimal(millis), 3, '0');
    lemma_decimal_len_bound(seconds);
    lemma_decimal_len_bound(millis);
    assert(sec.len() == 2);
    assert(mil.len() == 3);
    let t = written_time(ms);
    let s = ascii_bytes(t);
    let a = m.len() as int;
    assert(t.len() == a + 7);
    assert forall|k: int| 0 <= k < a implies s[k] == #[trigger] m[k] as u8 by {
        assert(t[k] == m[k]);
    }
    assert(t[a] == ':');
    assert forall|k: int| 0 <= k < 2 implies s[a + 1 + k] == #[trigger] sec[k] as u8 by {
        assert(t[a + 1 + k] == sec[k]);
    }
    assert(t[a + 3] == '.');
    assert forall|k: int| 0 <= k < 3 implies s[a + 4 + k] == #[trigger] mil[k] as u8 by {
        assert(t[a + 4 + k] == mil[k]);
    }
    lemma_decimal_spells(s, 0, minutes);
    lemma_padded_decimal_spells(s, a + 1, seconds, 2);
    lemma_padded_decimal_spells(s, a + 4, millis, 3);
}

/// Bytes that are laid out as a time are read as that time.
proof fn lemma_layout_is_read(s: Seq<u8>, a: int, minutes: nat, seconds: nat, millis: nat)
    requires
        time_layout(s, a, minutes, seconds, millis),
        1000 * (60 * minutes + seconds) + millis <= u32::MAX,
    ensures
        parse_milliseconds_spec(s) == Ok::<u32, TimeParseError>(
            (1000 * (60 * minutes + seconds) + millis) as u32,
        ),
{
    let len = a + 7;
    lemma_colon_behind_minutes(s, a);
    lemma_point_behind_seconds(s, a);
    lemma_number_in_digits(s, 0, a);
    lemma_number_in_digits(s, a + 1, a + 3);
    lemma_number_in_digits(s, a + 4, len);
    assert(number_in(s, 0, a) == Ok::<u32, NumberError>(minutes as u32));
    assert(number_in(s, a + 1, a + 3) == Ok::<u32, NumberError>(seconds as u32));
    assert(number_in(s, a + 4, len) == Ok::<u32, NumberError>(millis as u32));
    assert(total_milliseconds(minutes as u32, seconds as u32, millis as u32) == 1000 * (60
        * minutes + seconds) + millis);
    assert(seconds_in(s, a + 1, minutes as u32) == Ok::<u32, TimeParseError>(
        (1000 * (60 * minutes + seconds) + millis) as u32,
    ));
}

/// In bytes laid out as a time the one colon stands behind the minutes.
proof fn lemma_colon_behind_minutes(s: Seq<u8>, a: int)
    requires
        1 <= a,
        s.len() == a + 7,
        all_digits(s, 0, a),
        s[a] == 58,
        all_digits(s, a + 1, a + 3),
        s[a + 3] == 46,
        all_digits(s, a + 4, a + 7),
    ensures
        count_in(s, 0, a + 7, 58) == 1,
        first_in(s, 0, a + 7, 58) == a,
{
    let len = a + 7;
    assert forall|k: int| 0 <= k < a implies #[trigger] s[k] != 58 by {
        assert(48 <= s[k] <= 57);
    }
    assert forall|k: int| a + 1 <= k < len implies #[trigger] s[k] != 58 by {
        if k != a + 3 {
            assert(48 <= s[k] <= 57);
        }
    }
    lemma_byte_not_there(s, 0, a, 58);
    lemma_byte_not_there(s, a + 1, len, 58);
    lemma_count_split(s, 0, a, len, 58);
    lemma_count_split(s, a, a + 1, len, 58);
    assert(count_in(s, a, a + 1, 58) == 1) by {
        assert(count_in(s, a, a, 58) == 0);
    }
    lemma_first_found(s, 0, a, len, 58);
}

/// In bytes laid out as a time the one point behind the colon stands
/// behind the seconds.
proof fn lemma_point_behind_seconds(s: Seq<u8>, a: int)
    requires
        1 <= a,
        s.len() == a + 7,
        all_digits(s, a + 1, a + 3),
        s[a + 3] == 46,
        all_digits(s, a + 4, a + 7),
    ensures
        count_in(s, a + 1, a + 7, 46) == 1,
        first_in(s, a + 1, a + 7, 46) == a + 3,
{
    let len = a + 7;
    assert forall|k: int| a + 1 <= k < a + 3 implies #[trigger] s[k] != 46 by {
        assert(48 <= s[k] <= 57);
    }
    assert forall|k: int| a + 4 <= k < len implies #[trigger] s[k] != 46 by {
        assert(48 <= s[k] <= 57);
    }
    lemma_byte_not_there(s, a + 1, a + 3, 46);
    lemma_byte_not_there(s, a + 4, len, 46);
    lemma_count_split(s, a + 1, a + 3, len, 46);
    lemma_count_split(s, a + 3, a + 4, len, 46);
    assert(count_in(s, a + 3, a + 4, 46) == 1) by {
        assert(count_in(s, a + 3, a + 3, 46) == 0);
    }
    lemma_first_found(s, a + 1, a + 3, len, 46);
}

/// The blanks that fill the minutes of a written time to three places.
pub open spec fn blanks_before(ms: u32) -> Seq<char> {
    let digits = decimal((ms / 60_000) as nat).len();
    Seq::new(
        if digits < 3 {
            (3 - digits) as nat
        } else {
            0
        },
        |i: int| ' ',
    )
}

/// Reading undoes writing: a time that is written as minutes, seconds and
/// milliseconds is read as the time it was. What is written with blanks
/// before it is that text behind the blanks.
pub proof fn lemma_written_time_round_trip(ms: u32)
    ensures
        parse_milliseconds_spec(ascii_bytes(written_time(ms))) == Ok::<u32, TimeParseError>(ms),
        milliseconds_text(ms) == blanks_before(ms) + written_time(ms),
{
    let minutes = (ms / 60_000) as nat;
    let seconds = (ms / 1000 % 60) as nat;
    let millis = (ms % 1000) as nat;
    let a = decimal(minutes).len() as int;
    lemma_written_time_layout(ms);
    assert(1000 * (60 * minutes + seconds) + millis == ms);
    lemma_layout_is_read(ascii_bytes(written_time(ms)), a, minutes, seconds, millis);
    let m = decimal(minutes);
    let rest = seq![':'] + pad_left(decimal(seconds), 2, '0') + seq!['.'] + pad_left(
        decimal(millis),
        3,
        '0',
    );
    assert(written_time(ms) =~= m + rest);
    assert(milliseconds_text(ms) =~= pad_left(m, 3, ' ') + rest);
    assert(pad_left(m, 3, ' ') =~= blanks_before(ms) + m);
    assert(milliseconds_text(ms) =~= blanks_before(ms) + written_time(ms));
}

} // verus!
