//! The byte-level decoder: a cursor over the bytes of a file, and the fields
//! that are read at it.
//!
//! Every function here has a mathematical counterpart over the bytes as a
//! `Seq<u8>` and a [`Cursor`]; the executable function returns what that
//! counterpart gives and moves the cursor as it says.

use vstd::prelude::*;
use crate::midi::ParseError;

verus! {

/// The bytes being decoded and the position in them, with the running status
/// of the track being scanned.
///
/// `last_status` is the kind of the last channel-voice status byte, its bits
/// 4 to 6, and `last_channel` its channel. `last_status == 7` means that no
/// usable status is in force.
pub struct ParseState {
    pub data: Vec<u8>,
    pub offset: usize,
    pub last_status: u8,
    pub last_channel: u8,
}

/// The part of a [`ParseState`] that decoding changes.
pub struct Cursor {
    pub offset: int,
    pub last_status: u8,
    pub last_channel: u8,
}

impl Cursor {
    /// This cursor at another position.
    pub open spec fn at(self, offset: int) -> Cursor {
        Cursor { offset, last_status: self.last_status, last_channel: self.last_channel }
    }
}

impl ParseState {
    /// The cursor of this state.
    pub open spec fn cursor(&self) -> Cursor {
        Cursor {
            offset: self.offset as int,
            last_status: self.last_status,
            last_channel: self.last_channel,
        }
    }

    /// A state at the beginning of `data`, with no status in force.
    pub fn new(data: Vec<u8>) -> (state: ParseState)
        ensures
            state.data == data,
            state.cursor() == (Cursor { offset: 0, last_status: 7, last_channel: 0 }),
    {
        ParseState { data, offset: 0, last_status: 7, last_channel: 0 }
    }
}

/// The error for bytes that end at or behind `offset`.
pub open spec fn truncated(offset: int) -> ParseError {
    ParseError::Truncated { offset: offset as usize }
}

/// Whether `data` holds `n` bytes from `offset` on.
pub open spec fn has_bytes(data: Seq<u8>, offset: int, n: int) -> bool {
    0 <= offset && 0 <= n && offset + n <= data.len()
}

/// The cursor `n` bytes further on, without reading them. A cursor is a
/// machine index: a position that `usize` cannot hold lies behind the end of
/// every buffer, and moving there is reported as truncation.
pub open spec fn advance(c: Cursor, n: int) -> Result<Cursor, ParseError> {
    if c.offset + n <= usize::MAX {
        Ok(c.at(c.offset + n))
    } else {
        Err(truncated(c.offset))
    }
}

/// The number that the bytes spell, most significant byte first.
pub open spec fn be_value(bytes: Seq<u8>) -> nat
    decreases bytes.len(),
{
    if bytes.len() == 0 {
        0
    } else {
        be_value(bytes.drop_last()) * 256 + bytes.last() as nat
    }
}

/// The characters that the bytes stand for, one for each byte, by its number.
pub open spec fn latin1(bytes: Seq<u8>) -> Seq<char> {
    Seq::new(bytes.len(), |i: int| bytes[i] as char)
}

/// The four-byte big-endian number at the cursor.
pub open spec fn spec_get_usize(data: Seq<u8>, c: Cursor) -> Result<(usize, Cursor), ParseError> {
    if has_bytes(data, c.offset, 4) {
        Ok((be_value(data.subrange(c.offset, c.offset + 4)) as usize, c.at(c.offset + 4)))
    } else {
        Err(truncated(c.offset))
    }
}

/// The four characters at the cursor.
pub open spec fn spec_get_chunk_type(data: Seq<u8>, c: Cursor) -> Result<
    (Seq<char>, Cursor),
    ParseError,
> {
    if has_bytes(data, c.offset, 4) {
        Ok((latin1(data.subrange(c.offset, c.offset + 4)), c.at(c.offset + 4)))
    } else {
        Err(truncated(c.offset))
    }
}

/// The variable-length quantity whose first `count` bytes gave `acc` and
/// whose next byte stands at `offset`: seven bits a byte, the most
/// significant first, a set top bit announcing one more byte, four bytes at
/// most.
pub open spec fn vlq_from(data: Seq<u8>, offset: int, count: nat, acc: nat) -> Result<
    (nat, int),
    ParseError,
>
    decreases 4 - count,
{
    if count >= 4 {
        Ok((acc, offset))
    } else if !has_bytes(data, offset, 1) {
        Err(truncated(offset))
    } else {
        let b = data[offset];
        let next = acc * 128 + (b % 128) as nat;
        if b < 128 {
            Ok((next, offset + 1))
        } else {
            vlq_from(data, offset + 1, count + 1, next)
        }
    }
}

/// The variable-length quantity at the cursor.
pub open spec fn spec_get_variable_length_quantity(data: Seq<u8>, c: Cursor) -> Result<
    (u32, Cursor),
    ParseError,
> {
    match vlq_from(data, c.offset, 0, 0) {
        Ok((v, offset)) => Ok((v as u32, c.at(offset))),
        Err(e) => Err(e),
    }
}

/// The quantity of a meta event that begins at the cursor: behind the two
/// bytes of its head a byte gives the count of the bytes that follow and
/// spell the number, of which the low 32 bits are kept.
pub open spec fn spec_get_sized_quantity(data: Seq<u8>, c: Cursor) -> Result<
    (u32, Cursor),
    ParseError,
> {
    if !has_bytes(data, c.offset, 3) {
        Err(truncated(c.offset))
    } else {
        let n = data[c.offset + 2] as int;
        let first = c.offset + 3;
        if !has_bytes(data, first, n) {
            Err(truncated(first))
        } else {
            Ok(
                (
                    (be_value(data.subrange(first, first + n)) % 0x1_0000_0000) as u32,
                    c.at(first + n),
                ),
            )
        }
    }
}

/// The `length` characters at the cursor.
pub open spec fn spec_get_string(data: Seq<u8>, c: Cursor, length: u32) -> Result<
    (Seq<char>, Cursor),
    ParseError,
> {
    if has_bytes(data, c.offset, length as int) {
        Ok((latin1(data.subrange(c.offset, c.offset + length)), c.at(c.offset + length)))
    } else {
        Err(truncated(c.offset))
    }
}

/// `String::push` of the standard library appends the character to the end
/// of the string.
pub assume_specification[ String::push ](s: &mut String, c: char)
    ensures
        final(s)@ == old(s)@.push(c),
;

/// The number that bytes spell with one more byte behind them.
pub proof fn lemma_be_value_push(bytes: Seq<u8>, b: u8)
    ensures
        be_value(bytes.push(b)) == be_value(bytes) * 256 + b as nat,
{
    assert(bytes.push(b).drop_last() =~= bytes);
}

/// The number that four bytes spell, written out; a `u32` holds it.
pub proof fn lemma_be_value_of_four(bytes: Seq<u8>)
    requires
        bytes.len() == 4,
    ensures
        be_value(bytes) == ((bytes[0] as nat * 256 + bytes[1] as nat) * 256 + bytes[2] as nat)
            * 256 + bytes[3] as nat,
        be_value(bytes) <= u32::MAX,
{
    let b3 = bytes.drop_last();
    let b2 = b3.drop_last();
    let b1 = b2.drop_last();
    assert(b1.drop_last().len() == 0);
    assert(be_value(b1.drop_last()) == 0);
    assert(be_value(b1) == bytes[0] as nat);
    assert(be_value(b2) == bytes[0] as nat * 256 + bytes[1] as nat);
    assert(be_value(b3) == (bytes[0] as nat * 256 + bytes[1] as nat) * 256 + bytes[2] as nat);
}

/// Whether `state` holds `n` bytes from its cursor on.
fn remaining_at_least(state: &ParseState, n: usize) -> (b: bool)
    ensures
        b == has_bytes(state.data@, state.offset as int, n as int),
        state.data@.len() <= usize::MAX,
{
    state.offset <= state.data.len() && state.data.len() - state.offset >= n
}

/// Reads the four-byte big-endian number at the cursor and moves behind it.
/// Fails, leaving the state as it was, where fewer than four bytes are left.
pub fn get_usize(state: &mut ParseState) -> (r: Result<usize, ParseError>)
    ensures
        match r {
            Ok(v) => spec_get_usize(old(state).data@, old(state).cursor()) == Ok::<
                (usize, Cursor),
                ParseError,
            >((v, final(state).cursor())),
            Err(e) => spec_get_usize(old(state).data@, old(state).cursor()) == Err::<
                (usize, Cursor),
                ParseError,
            >(e) && final(state).cursor() == old(state).cursor(),
        },
        final(state).data == old(state).data,
{
    if !remaining_at_least(state, 4) {
        return Err(ParseError::Truncated { offset: state.offset });
    }
    let offs: usize = state.offset;
    let b0: u32 = state.data[offs] as u32;
    let b1: u32 = state.data[offs + 1] as u32;
    let b2: u32 = state.data[offs + 2] as u32;
    let b3: u32 = state.data[offs + 3] as u32;
    let ret: u32 = ((b0 * 256 + b1) * 256 + b2) * 256 + b3;
    proof {
        lemma_be_value_of_four(state.data@.subrange(offs as int, offs + 4));
    }
    state.offset = offs + 4;
    Ok(ret as usize)
}

/// Reads `length` bytes at the cursor as characters and moves behind them.
/// Fails, leaving the state as it was, where fewer bytes are left.
pub fn get_string(state: &mut ParseState, length: u32) -> (r: Result<String, ParseError>)
    ensures
        match r {
            Ok(text) => spec_get_string(old(state).data@, old(state).cursor(), length) == Ok::<
                (Seq<char>, Cursor),
                ParseError,
            >((text@, final(state).cursor())),
            Err(e) => spec_get_string(old(state).data@, old(state).cursor(), length) == Err::<
                (Seq<char>, Cursor),
                ParseError,
            >(e) && final(state).cursor() == old(state).cursor(),
        },
        final(state).data == old(state).data,
{
    if !remaining_at_least(state, length as usize) {
        return Err(ParseError::Truncated { offset: state.offset });
    }
    let mut text = String::new();
    let start: usize = state.offset;
    let next_offset: usize = start + length as usize;
    let mut i: usize = start;
    while i < next_offset
        invariant
            start <= i <= next_offset <= state.data@.len(),
            text@ == latin1(state.data@.subrange(start as int, i as int)),
        decreases next_offset - i,
    {
        let cdata: char = state.data[i] as char;
        text.push(cdata);
        i += 1;
        assert(text@ =~= latin1(state.data@.subrange(start as int, i as int)));
    }
    state.offset = next_offset;
    Ok(text)
}

/// Reads the four characters of a chunk's tag at the cursor and moves behind
/// them. Fails, leaving the state as it was, where fewer than four bytes are
/// left.
pub fn get_chunk_type(state: &mut ParseState) -> (r: Result<String, ParseError>)
    ensures
        match r {
            Ok(tag) => spec_get_chunk_type(old(state).data@, old(state).cursor()) == Ok::<
                (Seq<char>, Cursor),
                ParseError,
            >((tag@, final(state).cursor())),
            Err(e) => spec_get_chunk_type(old(state).data@, old(state).cursor()) == Err::<
                (Seq<char>, Cursor),
                ParseError,
            >(e) && final(state).cursor() == old(state).cursor(),
        },
        final(state).data == old(state).data,
{
    get_string(state, 4)
}

/// Reads the variable-length quantity at the cursor and moves behind it.
/// Fails, leaving the state as it was, where the bytes end inside it.
pub fn get_variable_length_quantity(state: &mut ParseState) -> (r: Result<u32, ParseError>)
    ensures
        match r {
            Ok(v) => spec_get_variable_length_quantity(old(state).data@, old(state).cursor())
                == Ok::<(u32, Cursor), ParseError>((v, final(state).cursor())),
            Err(e) => spec_get_variable_length_quantity(old(state).data@, old(state).cursor())
                == Err::<(u32, Cursor), ParseError>(e) && final(state).cursor()
                == old(state).cursor(),
        },
        final(state).data == old(state).data,
{
    let start: usize = state.offset;
    let mut quantity: u32 = 0;
    let mut offs: usize = start;
    let mut count: usize = 0;
    let mut done = false;
    while count < 4 && !done
        invariant
            count <= 4,
            offs == start + count,
            count == 0 ==> quantity == 0,
            count == 1 ==> quantity < 0x80,
            count == 2 ==> quantity < 0x4000,
            count == 3 ==> quantity < 0x20_0000,
            count == 4 ==> quantity < 0x1000_0000,
            *state == *old(state),
            start == state.offset,
            vlq_from(state.data@, start as int, 0, 0) == if done {
                Ok::<(nat, int), ParseError>((quantity as nat, offs as int))
            } else {
                vlq_from(state.data@, offs as int, count as nat, quantity as nat)
            },
        decreases 4 - count + if done { 0int } else { 1int },
    {
        if offs >= state.data.len() {
            return Err(ParseError::Truncated { offset: offs });
        }
        let b: u8 = state.data[offs];
        quantity = quantity * 128 + (b % 128) as u32;
        done = b < 128;
        offs += 1;
        count += 1;
    }
    state.offset = offs;
    Ok(quantity)
}

/// Reads the sized quantity of the meta event that begins at the cursor and
/// moves behind it. Fails, leaving the state as it was, where the bytes end
/// before the event does.
pub fn get_sized_quantity(state: &mut ParseState) -> (r: Result<u32, ParseError>)
    ensures
        match r {
            Ok(v) => spec_get_sized_quantity(old(state).data@, old(state).cursor()) == Ok::<
                (u32, Cursor),
                ParseError,
            >((v, final(state).cursor())),
            Err(e) => spec_get_sized_quantity(old(state).data@, old(state).cursor()) == Err::<
                (u32, Cursor),
                ParseError,
            >(e) && final(state).cursor() == old(state).cursor(),
        },
        final(state).data == old(state).data,
{
    if !remaining_at_least(state, 3) {
        return Err(ParseError::Truncated { offset: state.offset });
    }
    let offs: usize = state.offset + 2;
    let n_bytes: usize = state.data[offs] as usize;
    let first: usize = offs + 1;
    if state.data.len() - first < n_bytes {
        return Err(ParseError::Truncated { offset: first });
    }
    let mut quantity: u32 = 0;
    let mut i: usize = first;
    while i < first + n_bytes
        invariant
            first <= i <= first + n_bytes <= state.data@.len() <= usize::MAX,
            quantity == be_value(state.data@.subrange(first as int, i as int)) % 0x1_0000_0000,
        decreases first + n_bytes - i,
    {
        let b: u8 = state.data[i];
        proof {
            let before = state.data@.subrange(first as int, i as int);
            let x = be_value(before);
            assert(state.data@.subrange(first as int, i + 1) =~= before.push(b));
            lemma_be_value_push(before, b);
            lemma_low_bits_step(x, b);
        }
        quantity = ((quantity as u64 * 256 + b as u64) % 0x1_0000_0000) as u32;
        i += 1;
    }
    state.offset = first + n_bytes;
    Ok(quantity)
}

/// Taking the low 32 bits of a number commutes with appending a byte to it.
proof fn lemma_low_bits_step(x: nat, b: u8)
    ensures
        ((x % 0x1_0000_0000) * 256 + b as nat) % 0x1_0000_0000 == (x * 256 + b as nat)
            % 0x1_0000_0000,
{
    let m = 0x1_0000_0000int;
    let k = x as int / m;
    let q = x as int % m;
    assert(x == m * k + q) by {
        vstd::arithmetic::div_mod::lemma_fundamental_div_mod(x as int, m);
    }
    assert(x * 256 + b == m * (k * 256) + (q * 256 + b));
    vstd::arithmetic::div_mod::lemma_mod_multiples_vanish(k * 256, q * 256 + b, m);
}

/// The bytes of a variable-length quantity that are followed by more: the
/// seven-bit groups of `v`, the most significant first, each with its top
/// bit set.
pub open spec fn vlq_leading(v: nat) -> Seq<u8>
    decreases v,
{
    if v < 128 {
        seq![(128 + v) as u8]
    } else {
        vlq_leading(v / 128).push((128 + v % 128) as u8)
    }
}

/// The canonical encoding of `v` as a variable-length quantity: its
/// seven-bit groups from the first that is not zero on, the most
/// significant first, the top bit set in all but the last.
pub open spec fn vlq_encode(v: nat) -> Seq<u8> {
    if v < 128 {
        seq![v as u8]
    } else {
        vlq_leading(v / 128).push((v % 128) as u8)
    }
}

/// The variable-length quantity that bytes with the given seven-bit
/// groups spell, where all bytes but the last have their top bit set.
proof fn lemma_vlq_decode(data: Seq<u8>, o: int, n: int, g0: nat, g1: nat, g2: nat, g3: nat)
    requires
        1 <= n <= 4,
        has_bytes(data, o, n),
        g0 < 128 && g1 < 128 && g2 < 128 && g3 < 128,
        data[o] == g0 + (if n > 1 { 128nat } else { 0 }),
        n > 1 ==> data[o + 1] == g1 + (if n > 2 { 128nat } else { 0 }),
        n > 2 ==> data[o + 2] == g2 + (if n > 3 { 128nat } else { 0 }),
        n > 3 ==> data[o + 3] == g3,
    ensures
        n == 1 ==> vlq_from(data, o, 0, 0) == Ok::<(nat, int), ParseError>((g0, o + 1)),
        n == 2 ==> vlq_from(data, o, 0, 0) == Ok::<(nat, int), ParseError>(
            (g0 * 128 + g1, o + 2),
        ),
        n == 3 ==> vlq_from(data, o, 0, 0) == Ok::<(nat, int), ParseError>(
            ((g0 * 128 + g1) * 128 + g2, o + 3),
        ),
        n == 4 ==> vlq_from(data, o, 0, 0) == Ok::<(nat, int), ParseError>(
            (((g0 * 128 + g1) * 128 + g2) * 128 + g3, o + 4),
        ),
{
    reveal_with_fuel(vlq_from, 5);
}

/// The bytes of the canonical encoding, written out for each length.
proof fn lemma_vlq_encode_bytes(v: nat)
    requires
        v < 0x1000_0000,
    ensures
        v < 0x80 ==> vlq_encode(v) == seq![v as u8],
        0x80 <= v < 0x4000 ==> vlq_encode(v) == seq![(128 + v / 128) as u8, (v % 128) as u8],
        0x4000 <= v < 0x20_0000 ==> vlq_encode(v) == seq![
            (128 + v / 0x4000) as u8,
            (128 + v / 128 % 128) as u8,
            (v % 128) as u8,
        ],
        0x20_0000 <= v ==> vlq_encode(v) == seq![
            (128 + v / 0x20_0000) as u8,
            (128 + v / 0x4000 % 128) as u8,
            (128 + v / 128 % 128) as u8,
            (v % 128) as u8,
        ],
{
    reveal_with_fuel(vlq_leading, 4);
    let w = v / 128;
    if v < 0x80 {
    } else if v < 0x4000 {
        assert(vlq_leading(w) == seq![(128 + w) as u8]);
        assert(vlq_encode(v) =~= seq![(128 + v / 128) as u8, (v % 128) as u8]);
    } else if v < 0x20_0000 {
        assert(w / 128 == v / 0x4000);
        assert(vlq_leading(w / 128) == seq![(128 + w / 128) as u8]);
        assert(vlq_leading(w) =~= seq![(128 + v / 0x4000) as u8, (128 + v / 128 % 128) as u8]);
        assert(vlq_encode(v) =~= seq![
            (128 + v / 0x4000) as u8,
            (128 + v / 128 % 128) as u8,
            (v % 128) as u8,
        ]);
    } else {
        let x = w / 128;
        assert(x == v / 0x4000);
        assert(x / 128 == v / 0x20_0000);
        assert(vlq_leading(x / 128) == seq![(128 + x / 128) as u8]);
        assert(vlq_leading(x) =~= seq![(128 + v / 0x20_0000) as u8, (128 + x % 128) as u8]);
        assert(vlq_leading(w) =~= seq![
            (128 + v / 0x20_0000) as u8,
            (128 + v / 0x4000 % 128) as u8,
            (128 + v / 128 % 128) as u8,
        ]);
        assert(vlq_encode(v) =~= seq![
            (128 + v / 0x20_0000) as u8,
            (128 + v / 0x4000 % 128) as u8,
            (128 + v / 128 % 128) as u8,
            (v % 128) as u8,
        ]);
    }
}

/// Decoding undoes encoding: where the canonical encoding of a number
/// below 2^28 stands at the cursor, the variable-length quantity read there
/// is that number, and the cursor stands behind the encoding.
pub proof fn lemma_vlq_round_trip(data: Seq<u8>, c: Cursor, v: nat)
    requires
        v < 0x1000_0000,
        has_bytes(data, c.offset, vlq_encode(v).len() as int),
        data.subrange(c.offset, c.offset + vlq_encode(v).len()) == vlq_encode(v),
    ensures
        spec_get_variable_length_quantity(data, c) == Ok::<(u32, Cursor), ParseError>(
            (v as u32, c.at(c.offset + vlq_encode(v).len())),
        ),
        1 <= vlq_encode(v).len() <= 4,
{
    lemma_vlq_encode_bytes(v);
    let enc = vlq_encode(v);
    let o = c.offset;
    assert forall|i: int| 0 <= i < enc.len() implies data[o + i] == enc[i] by {
        assert(data.subrange(o, o + enc.len())[i] == data[o + i]);
    }
    if v < 0x80 {
        assert(data[o] == enc[0]);
        lemma_vlq_decode(data, o, 1, v, 0, 0, 0);
    } else if v < 0x4000 {
        assert(data[o] == enc[0] && data[o + 1] == enc[1]);
        lemma_vlq_decode(data, o, 2, v / 128, v % 128, 0, 0);
    } else if v < 0x20_0000 {
        assert(data[o] == enc[0] && data[o + 1] == enc[1] && data[o + 2] == enc[2]);
        lemma_vlq_decode(data, o, 3, v / 0x4000, v / 128 % 128, v % 128, 0);
    } else {
        assert(data[o] == enc[0] && data[o + 1] == enc[1] && data[o + 2] == enc[2] && data[o
            + 3] == enc[3]);
        lemma_vlq_decode(data, o, 4, v / 0x20_0000, v / 0x4000 % 128, v / 128 % 128, v % 128);
    }
}

} // verus!
