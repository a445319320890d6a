//! Decoding of one track event: the delta time, then a channel-voice
//! message, a meta event or a system-exclusive message.

use vstd::prelude::*;
use crate::decode::{
    advance, get_sized_quantity, get_string, get_variable_length_quantity, has_bytes,
    spec_get_sized_quantity, spec_get_string, spec_get_variable_length_quantity, truncated,
    Cursor, ParseState,
};
use crate::midi::{
    ChannelPrefix, ControlChange, Copyright, Device, EndOfTrack, Event, EventView,
    InstrumentName, KeySignature, Lyric, Marker, MetaEvent, MetaEventView, MidiEvent, NoteOff,
    NoteOn, ParseError, PitchWheel, Port, ProgramChange, SequenceNumber, SequenceTrackName,
    SequencerEvent, SetTempo, SmpteOffset, SysexEvent, Text, TimeSignature, TrackEvent,
    TrackEventView,
};

verus! {

/// The cursor once the byte `b` at it has been looked at as a possible
/// status byte: a byte with its top bit set is one, is consumed, and sets
/// the running status; any other byte is data and leaves the cursor alone.
pub open spec fn with_status(c: Cursor, b: u8) -> Cursor {
    if b >= 0x80 {
        Cursor { offset: c.offset + 1, last_status: (b / 16 % 8) as u8, last_channel: b % 16 }
    } else {
        c
    }
}

/// The status byte that the running status of `c` stands for.
pub open spec fn status_byte(c: Cursor) -> u8 {
    ((8 + c.last_status % 8) * 16 + c.last_channel % 16) as u8
}

/// The number of data bytes that follow a status of the given kind. Kind 7
/// has none that this decoder could tell.
pub open spec fn data_byte_count(kind: u8) -> int {
    if kind == 4 || kind == 5 {
        1
    } else if kind < 7 {
        2
    } else {
        0
    }
}

/// The message of the given kind on `channel` with data bytes `d0` and `d1`.
/// Key pressure (kind 2) and channel pressure (kind 5) are not interpreted.
pub open spec fn channel_event(c: Cursor, d0: u8, d1: u8) -> MidiEvent {
    let channel = c.last_channel;
    if c.last_status == 0 {
        MidiEvent::NoteOff(NoteOff { channel, key: d0, velocity: d1 })
    } else if c.last_status == 1 {
        MidiEvent::NoteOn(NoteOn { channel, key: d0, velocity: d1 })
    } else if c.last_status == 3 {
        MidiEvent::ControlChange(ControlChange { channel, number: d0, value: d1 })
    } else if c.last_status == 4 {
        MidiEvent::ProgramChange(ProgramChange { channel, program: d0 })
    } else if c.last_status == 6 {
        MidiEvent::PitchWheel(PitchWheel { channel, bend: ((d1 % 128) * 128 + d0 % 128) as u16 })
    } else {
        MidiEvent::Undef { status: status_byte(c) }
    }
}

/// Whether the event is a channel message whose kind could not be told: no
/// status was in force, or the status byte was none of a channel message.
/// Behind such an event the decoder may be out of step with the bytes.
pub open spec fn status_undetermined(e: MidiEvent) -> bool {
    e matches MidiEvent::Undef { status } && status >= 0xF0
}

/// The channel-voice message at the cursor.
///
/// A first byte with its top bit set is the status byte; otherwise the
/// running status applies and the byte is the first data byte. A message of
/// a kind that is not interpreted is passed over by the data bytes that its
/// kind implies. Where the kind cannot be told the result is `Undef`, the
/// position stays where the message began, and the status read stays in
/// force.
pub open spec fn spec_get_midi_event(data: Seq<u8>, c: Cursor) -> Result<
    (MidiEvent, Cursor),
    ParseError,
> {
    if !has_bytes(data, c.offset, 1) {
        Err(truncated(c.offset))
    } else {
        let c1 = with_status(c, data[c.offset]);
        let n = data_byte_count(c1.last_status);
        if c1.last_status >= 7 {
            Ok((MidiEvent::Undef { status: status_byte(c1) }, c1.at(c.offset)))
        } else if !has_bytes(data, c1.offset, n) {
            Err(truncated(c1.offset))
        } else {
            let d0 = data[c1.offset];
            let d1 = if n == 2 {
                data[c1.offset + 1]
            } else {
                0
            };
            Ok((channel_event(c1, d0, d1), c1.at(c1.offset + n)))
        }
    }
}

/// Running status: where a note-on with its status byte is followed by two
/// data bytes with no status byte before them, the two are the key and the
/// velocity of a second note-on on the same channel.
pub proof fn lemma_running_status_repeats_note_on(data: Seq<u8>, c: Cursor, channel: u8)
    requires
        channel < 16,
        has_bytes(data, c.offset, 5),
        data[c.offset] == 0x90 + channel,
        data[c.offset + 3] < 0x80,
    ensures
        spec_get_midi_event(data, c) == Ok::<(MidiEvent, Cursor), ParseError>(
            (
                MidiEvent::NoteOn(
                    NoteOn { channel, key: data[c.offset + 1], velocity: data[c.offset + 2] },
                ),
                Cursor { offset: c.offset + 3, last_status: 1, last_channel: channel },
            ),
        ),
        spec_get_midi_event(
            data,
            Cursor { offset: c.offset + 3, last_status: 1, last_channel: channel },
        ) == Ok::<(MidiEvent, Cursor), ParseError>(
            (
                MidiEvent::NoteOn(
                    NoteOn { channel, key: data[c.offset + 3], velocity: data[c.offset + 4] },
                ),
                Cursor { offset: c.offset + 5, last_status: 1, last_channel: channel },
            ),
        ),
{
}

/// Decodes the channel-voice message at the cursor and moves behind it.
/// Fails, leaving the state as it was, where the bytes end inside the
/// message.
pub fn get_midi_event(state: &mut ParseState) -> (r: Result<MidiEvent, ParseError>)
    ensures
        match r {
            Ok(ev) => spec_get_midi_event(old(state).data@, old(state).cursor()) == Ok::<
                (MidiEvent, Cursor),
                ParseError,
            >((ev, final(state).cursor())),
            Err(e) => spec_get_midi_event(old(state).data@, old(state).cursor()) == Err::<
                (MidiEvent, Cursor),
                ParseError,
            >(e) && final(state).cursor() == old(state).cursor(),
        },
        final(state).data == old(state).data,
{
    let start: usize = state.offset;
    let len: usize = state.data.len();
    if start >= len {
        return Err(ParseError::Truncated { offset: start });
    }
    let first: u8 = state.data[start];
    let mut offs: usize = start;
    let mut kind: u8 = state.last_status;
    let mut channel: u8 = state.last_channel;
    if first >= 0x80 {
        kind = first / 16 % 8;
        channel = first % 16;
        offs += 1;
    }
    if kind >= 7 {
        state.last_status = kind;
        state.last_channel = channel;
        return Ok(MidiEvent::Undef { status: (8 + kind % 8) * 16 + channel % 16 });
    }
    let n: usize = if kind == 4 || kind == 5 {
        1
    } else {
        2
    };
    if len - offs < n {
        return Err(ParseError::Truncated { offset: offs });
    }
    let d0: u8 = state.data[offs];
    let d1: u8 = if n == 2 {
        state.data[offs + 1]
    } else {
        0
    };
    let midi_event = if kind == 0 {
        MidiEvent::NoteOff(NoteOff { channel, key: d0, velocity: d1 })
    } else if kind == 1 {
        MidiEvent::NoteOn(NoteOn { channel, key: d0, velocity: d1 })
    } else if kind == 3 {
        MidiEvent::ControlChange(ControlChange { channel, number: d0, value: d1 })
    } else if kind == 4 {
        MidiEvent::ProgramChange(ProgramChange { channel, program: d0 })
    } else if kind == 6 {
        let lllllll: u16 = (d0 % 128) as u16;
        let mmmmmmm: u16 = (d1 % 128) as u16;
        MidiEvent::PitchWheel(PitchWheel { channel, bend: mmmmmmm * 128 + lllllll })
    } else {
        MidiEvent::Undef { status: (8 + kind % 8) * 16 + channel % 16 }
    };
    state.last_status = kind;
    state.last_channel = channel;
    state.offset = offs + n;
    Ok(midi_event)
}

/// Whether the meta event kind carries text.
pub open spec fn is_text_code(code: u8) -> bool {
    1 <= code <= 6 || code == 9
}

/// The text meta event of kind `code` with the given characters.
pub open spec fn text_event(code: u8, chars: Seq<char>) -> MetaEventView {
    if code == 1 {
        MetaEventView::Text(chars)
    } else if code == 2 {
        MetaEventView::Copyright(chars)
    } else if code == 3 {
        MetaEventView::SequenceTrackName(chars)
    } else if code == 4 {
        MetaEventView::InstrumentName(chars)
    } else if code == 5 {
        MetaEventView::Lyric(chars)
    } else if code == 6 {
        MetaEventView::Marker(chars)
    } else {
        MetaEventView::Device(chars)
    }
}

/// The byte as a number in two's complement.
pub open spec fn signed_byte(b: u8) -> i16 {
    if b < 128 {
        b as i16
    } else {
        (b - 256) as i16
    }
}

/// A meta event whose head holds a one-byte count `data[offs + 2]`, whose
/// `fixed` payload bytes are read, and behind which the cursor stands as far
/// as the count says.
pub open spec fn counted_meta_event(data: Seq<u8>, c: Cursor, fixed: int, ev: MetaEventView)
    -> Result<(MetaEventView, Cursor), ParseError> {
    if !has_bytes(data, c.offset, 3 + fixed) {
        Err(truncated(c.offset))
    } else {
        match advance(c.at(c.offset + 3), data[c.offset + 2] as int) {
            Ok(c2) => Ok((ev, c2)),
            Err(e) => Err(e),
        }
    }
}

/// A meta event with a variable-length count, of which the first payload
/// byte is read: the channel prefix and the port.
pub open spec fn one_byte_meta_event(data: Seq<u8>, c: Cursor, code: u8) -> Result<
    (MetaEventView, Cursor),
    ParseError,
> {
    match spec_get_variable_length_quantity(data, c.at(c.offset + 2)) {
        Err(e) => Err(e),
        Ok((length, c2)) => if !has_bytes(data, c2.offset, 1) {
            Err(truncated(c2.offset))
        } else {
            match advance(c2, length as int) {
                Err(e) => Err(e),
                Ok(c3) => Ok(
                    (
                        if code == 0x20 {
                            MetaEventView::ChannelPrefix(data[c2.offset])
                        } else {
                            MetaEventView::Port(data[c2.offset])
                        },
                        c3,
                    ),
                ),
            }
        },
    }
}

/// A meta event with a variable-length count and as many bytes of text.
pub open spec fn text_meta_event(data: Seq<u8>, c: Cursor, code: u8) -> Result<
    (MetaEventView, Cursor),
    ParseError,
> {
    match spec_get_variable_length_quantity(data, c.at(c.offset + 2)) {
        Err(e) => Err(e),
        Ok((length, c2)) => match spec_get_string(data, c2, length) {
            Err(e) => Err(e),
            Ok((chars, c3)) => Ok((text_event(code, chars), c3)),
        },
    }
}

/// The sequencer-specific meta event: a variable-length count and as many
/// bytes, kept as they are.
pub open spec fn sequencer_meta_event(data: Seq<u8>, c: Cursor) -> Result<
    (MetaEventView, Cursor),
    ParseError,
> {
    match spec_get_variable_length_quantity(data, c.at(c.offset + 2)) {
        Err(e) => Err(e),
        Ok((length, c2)) => if !has_bytes(data, c2.offset, length as int) {
            Err(truncated(c2.offset))
        } else {
            Ok(
                (
                    MetaEventView::SequencerEvent(
                        data.subrange(c2.offset, c2.offset + length),
                    ),
                    c2.at(c2.offset + length),
                ),
            )
        },
    }
}

/// A meta event of a kind that is not interpreted: a variable-length count
/// and as many bytes, which are passed over unread.
pub open spec fn unknown_meta_event(data: Seq<u8>, c: Cursor, code: u8) -> Result<
    (MetaEventView, Cursor),
    ParseError,
> {
    match spec_get_variable_length_quantity(data, c.at(c.offset + 2)) {
        Err(e) => Err(e),
        Ok((length, c2)) => match advance(c2, length as int) {
            Err(e) => Err(e),
            Ok(c3) => Ok((MetaEventView::Undef { code, length }, c3)),
        },
    }
}

/// The meta event that begins at the cursor with its byte `0xFF`; the kind
/// byte follows.
///
/// Kinds `0x00`, `0x2F` and `0x54` carry a one-byte count, kinds `0x58` and
/// `0x59` a count that is read over and a payload of four and of two bytes,
/// kind `0x51` a sized quantity, all others a variable-length count.
pub open spec fn spec_get_meta_event(data: Seq<u8>, c: Cursor) -> Result<
    (MetaEventView, Cursor),
    ParseError,
> {
    let offs = c.offset;
    if !has_bytes(data, offs, 2) {
        Err(truncated(offs))
    } else {
        let code = data[offs + 1];
        if code == 0x00 {
            counted_meta_event(
                data,
                c,
                2,
                MetaEventView::SequenceNumber((data[offs + 3] * 256 + data[offs + 4]) as u16),
            )
        } else if is_text_code(code) {
            text_meta_event(data, c, code)
        } else if code == 0x20 || code == 0x21 {
            one_byte_meta_event(data, c, code)
        } else if code == 0x2f {
            counted_meta_event(data, c, 0, MetaEventView::EndOfTrack)
        } else if code == 0x51 {
            match spec_get_sized_quantity(data, c) {
                Err(e) => Err(e),
                Ok((v, c2)) => Ok((MetaEventView::SetTempo(v), c2)),
            }
        } else if code == 0x54 {
            counted_meta_event(
                data,
                c,
                5,
                MetaEventView::SmpteOffset(
                    SmpteOffset {
                        hr: data[offs + 3],
                        mn: data[offs + 4],
                        se: data[offs + 5],
                        fr: data[offs + 6],
                        ff: data[offs + 7],
                    },
                ),
            )
        } else if code == 0x58 {
            if !has_bytes(data, offs, 7) {
                Err(truncated(offs))
            } else {
                Ok(
                    (
                        MetaEventView::TimeSignature(
                            TimeSignature {
                                nn: data[offs + 3],
                                dd: data[offs + 4],
                                cc: data[offs + 5],
                                bb: data[offs + 6],
                            },
                        ),
                        c.at(offs + 7),
                    ),
                )
            }
        } else if code == 0x59 {
            if !has_bytes(data, offs, 5) {
                Err(truncated(offs))
            } else {
                Ok(
                    (
                        MetaEventView::KeySignature(
                            KeySignature {
                                sf: signed_byte(data[offs + 3]),
                                mi: data[offs + 4] != 0,
                            },
                        ),
                        c.at(offs + 5),
                    ),
                )
            }
        } else if code == 0x7f {
            sequencer_meta_event(data, c)
        } else {
            unknown_meta_event(data, c, code)
        }
    }
}

/// Moves the cursor `n` bytes on without reading. Fails, leaving the state
/// as it was, where no `usize` holds the new position.
fn skip(state: &mut ParseState, n: usize) -> (r: Result<(), ParseError>)
    ensures
        match r {
            Ok(_) => advance(old(state).cursor(), n as int) == Ok::<Cursor, ParseError>(
                final(state).cursor(),
            ),
            Err(e) => advance(old(state).cursor(), n as int) == Err::<Cursor, ParseError>(e)
                && final(state).cursor() == old(state).cursor(),
        },
        final(state).data == old(state).data,
{
    match state.offset.checked_add(n) {
        Some(next) => {
            state.offset = next;
            Ok(())
        },
        None => Err(ParseError::Truncated { offset: state.offset }),
    }
}

/// Copies `length` bytes at the cursor and moves behind them. Fails, leaving
/// the state as it was, where fewer bytes are left.
fn get_bytes(state: &mut ParseState, length: u32) -> (r: Result<Vec<u8>, ParseError>)
    ensures
        match r {
            Ok(bytes) => has_bytes(old(state).data@, old(state).offset as int, length as int)
                && bytes@ == old(state).data@.subrange(
                old(state).offset as int,
                old(state).offset + length,
            ) && final(state).cursor() == old(state).cursor().at(old(state).offset + length),
            Err(e) => !has_bytes(old(state).data@, old(state).offset as int, length as int)
                && e == truncated(old(state).offset as int) && final(state).cursor()
                == old(state).cursor(),
        },
        final(state).data == old(state).data,
{
    let start: usize = state.offset;
    let len: usize = state.data.len();
    if start > len || len - start < length as usize {
        return Err(ParseError::Truncated { offset: start });
    }
    let end: usize = start + length as usize;
    let mut bytes: Vec<u8> = Vec::new();
    let mut i: usize = start;
    while i < end
        invariant
            start <= i <= end <= state.data@.len(),
            bytes@ == state.data@.subrange(start as int, i as int),
        decreases end - i,
    {
        bytes.push(state.data[i]);
        i += 1;
        assert(bytes@ =~= state.data@.subrange(start as int, i as int));
    }
    state.offset = end;
    Ok(bytes)
}

/// Decodes the meta event that begins at the cursor and moves behind it.
/// Fails, leaving the state as it was, where the bytes end inside the event
/// or the event's count leads where no cursor can stand.
pub fn get_meta_event(state: &mut ParseState) -> (r: Result<MetaEvent, ParseError>)
    requires
        has_bytes(old(state).data@, old(state).offset as int, 1),
        old(state).data@[old(state).offset as int] == 0xff,
    ensures
        match r {
            Ok(ev) => spec_get_meta_event(old(state).data@, old(state).cursor()) == Ok::<
                (MetaEventView, Cursor),
                ParseError,
            >((ev@, final(state).cursor())),
            Err(e) => spec_get_meta_event(old(state).data@, old(state).cursor()) == Err::<
                (MetaEventView, Cursor),
                ParseError,
            >(e) && final(state).cursor() == old(state).cursor(),
        },
        final(state).data == old(state).data,
{
    let offs: usize = state.offset;
    let len: usize = state.data.len();
    if len - offs < 2 {
        return Err(ParseError::Truncated { offset: offs });
    }
    let code: u8 = state.data[offs + 1];
    match code {
        0x00 => {
            if len - offs < 5 {
                return Err(ParseError::Truncated { offset: offs });
            }
            let length: usize = state.data[offs + 2] as usize;
            let hi: u16 = state.data[offs + 3] as u16;
            let lo: u16 = state.data[offs + 4] as u16;
            state.offset = offs + 3;
            match skip(state, length) {
                Ok(_) => Ok(MetaEvent::SequenceNumber(SequenceNumber { number: hi * 256 + lo })),
                Err(e) => {
                    state.offset = offs;
                    Err(e)
                },
            }
        },
        0x01 | 0x02 | 0x03 | 0x04 | 0x05 | 0x06 | 0x09 => {
            state.offset = offs + 2;
            let length: u32 = match get_variable_length_quantity(state) {
                Ok(v) => v,
                Err(e) => {
                    state.offset = offs;
                    return Err(e);
                },
            };
            let text: String = match get_string(state, length) {
                Ok(t) => t,
                Err(e) => {
                    state.offset = offs;
                    return Err(e);
                },
            };
            Ok(
                match code {
                    0x01 => MetaEvent::Text(Text { name: text }),
                    0x02 => MetaEvent::Copyright(Copyright { name: text }),
                    0x03 => MetaEvent::SequenceTrackName(SequenceTrackName { name: text }),
                    0x04 => MetaEvent::InstrumentName(InstrumentName { name: text }),
                    0x05 => MetaEvent::Lyric(Lyric { name: text }),
                    0x06 => MetaEvent::Marker(Marker { name: text }),
                    _ => MetaEvent::Device(Device { name: text }),
                },
            )
        },
        0x20 | 0x21 => {
            state.offset = offs + 2;
            let length: u32 = match get_variable_length_quantity(state) {
                Ok(v) => v,
                Err(e) => {
                    state.offset = offs;
                    return Err(e);
                },
            };
            let at: usize = state.offset;
            if at >= len {
                state.offset = offs;
                return Err(ParseError::Truncated { offset: at });
            }
            let value: u8 = state.data[at];
            match skip(state, length as usize) {
                Ok(_) => Ok(
                    if code == 0x20 {
                        MetaEvent::ChannelPrefix(ChannelPrefix { channel: value })
                    } else {
                        MetaEvent::Port(Port { port: value })
                    },
                ),
                Err(e) => {
                    state.offset = offs;
                    Err(e)
                },
            }
        },
        0x2f => {
            if len - offs < 3 {
                return Err(ParseError::Truncated { offset: offs });
            }
            let n_bytes: usize = state.data[offs + 2] as usize;
            state.offset = offs + 3;
            match skip(state, n_bytes) {
                Ok(_) => Ok(MetaEvent::EndOfTrack(EndOfTrack {  })),
                Err(e) => {
                    state.offset = offs;
                    Err(e)
                },
            }
        },
        0x51 => {
            match get_sized_quantity(state) {
                Ok(v) => Ok(MetaEvent::SetTempo(SetTempo { tttttt: v })),
                Err(e) => Err(e),
            }
        },
        0x54 => {
            if len - offs < 8 {
                return Err(ParseError::Truncated { offset: offs });
            }
            let n_bytes: usize = state.data[offs + 2] as usize;
            let smpte_offset = SmpteOffset {
                hr: state.data[offs + 3],
                mn: state.data[offs + 4],
                se: state.data[offs + 5],
                fr: state.data[offs + 6],
                ff: state.data[offs + 7],
            };
            state.offset = offs + 3;
            match skip(state, n_bytes) {
                Ok(_) => Ok(MetaEvent::SmpteOffset(smpte_offset)),
                Err(e) => {
                    state.offset = offs;
                    Err(e)
                },
            }
        },
        0x58 => {
            if len - offs < 7 {
                return Err(ParseError::Truncated { offset: offs });
            }
            let time_signature = TimeSignature {
                nn: state.data[offs + 3],
                dd: state.data[offs + 4],
                cc: state.data[offs + 5],
                bb: state.data[offs + 6],
            };
            state.offset = offs + 7;
            Ok(MetaEvent::TimeSignature(time_signature))
        },
        0x59 => {
            if len - offs < 5 {
                return Err(ParseError::Truncated { offset: offs });
            }
            let raw: u8 = state.data[offs + 3];
            let sf: i16 = if raw < 128 {
                raw as i16
            } else {
                raw as i16 - 256
            };
            let key_signature = KeySignature { sf, mi: state.data[offs + 4] != 0 };
            state.offset = offs + 5;
            Ok(MetaEvent::KeySignature(key_signature))
        },
        0x7f => {
            state.offset = offs + 2;
            let length: u32 = match get_variable_length_quantity(state) {
                Ok(v) => v,
                Err(e) => {
                    state.offset = offs;
                    return Err(e);
                },
            };
            match get_bytes(state, length) {
                Ok(bytes) => Ok(MetaEvent::SequencerEvent(SequencerEvent { data: bytes })),
                Err(e) => {
                    state.offset = offs;
                    Err(e)
                },
            }
        },
        _ => {
            state.offset = offs + 2;
            let length: u32 = match get_variable_length_quantity(state) {
                Ok(v) => v,
                Err(e) => {
                    state.offset = offs;
                    return Err(e);
                },
            };
            match skip(state, length as usize) {
                Ok(_) => Ok(MetaEvent::Undef { code, length }),
                Err(e) => {
                    state.offset = offs;
                    Err(e)
                },
            }
        },
    }
}

/// The system-exclusive message that begins at the cursor with its byte
/// `0xF0` or `0xF7`: a variable-length count and as many bytes, which are
/// passed over unread.
pub open spec fn spec_skip_sysex(data: Seq<u8>, c: Cursor) -> Result<Cursor, ParseError> {
    match spec_get_variable_length_quantity(data, c.at(c.offset + 1)) {
        Err(e) => Err(e),
        Ok((length, c2)) => advance(c2, length as int),
    }
}

/// The track event at the cursor: a variable-length delta time, and the
/// event that the byte behind it announces: `0xFF` a meta event, `0xF0` and
/// `0xF7` a system-exclusive message, any other a channel-voice message.
#[verifier::opaque]
pub open spec fn spec_get_track_event(data: Seq<u8>, c: Cursor) -> Result<
    (TrackEventView, Cursor),
    ParseError,
> {
    match spec_get_variable_length_quantity(data, c) {
        Err(e) => Err(e),
        Ok((delta_time, c1)) => if !has_bytes(data, c1.offset, 1) {
            Err(truncated(c1.offset))
        } else {
            let first = data[c1.offset];
            if first == 0xff {
                match spec_get_meta_event(data, c1) {
                    Err(e) => Err(e),
                    Ok((me, c2)) => Ok(
                        (TrackEventView { delta_time, event: EventView::MetaEvent(me) }, c2),
                    ),
                }
            } else if first == 0xf0 || first == 0xf7 {
                match spec_skip_sysex(data, c1) {
                    Err(e) => Err(e),
                    Ok(c2) => Ok((TrackEventView { delta_time, event: EventView::SysexEvent }, c2)),
                }
            } else {
                match spec_get_midi_event(data, c1) {
                    Err(e) => Err(e),
                    Ok((me, c2)) => Ok(
                        (TrackEventView { delta_time, event: EventView::MidiEvent(me) }, c2),
                    ),
                }
            }
        },
    }
}

/// Decodes the track event at the cursor and moves behind it. Fails,
/// leaving the state as it was, where the bytes end inside the event or a
/// count leads where no cursor can stand.
pub fn get_track_event(state: &mut ParseState) -> (r: Result<TrackEvent, ParseError>)
    ensures
        match r {
            Ok(te) => spec_get_track_event(old(state).data@, old(state).cursor()) == Ok::<
                (TrackEventView, Cursor),
                ParseError,
            >((te@, final(state).cursor())),
            Err(e) => spec_get_track_event(old(state).data@, old(state).cursor()) == Err::<
                (TrackEventView, Cursor),
                ParseError,
            >(e) && final(state).cursor() == old(state).cursor(),
        },
        final(state).data == old(state).data,
{
    reveal(spec_get_track_event);
    let start: usize = state.offset;
    let delta_time: u32 = match get_variable_length_quantity(state) {
        Ok(v) => v,
        Err(e) => {
            return Err(e);
        },
    };
    let at: usize = state.offset;
    if at >= state.data.len() {
        state.offset = start;
        return Err(ParseError::Truncated { offset: at });
    }
    let event_first_byte: u8 = state.data[at];
    let decoded: Result<Event, ParseError> = match event_first_byte {
        0xff => {
            match get_meta_event(state) {
                Ok(meta_event) => Ok(Event::MetaEvent(meta_event)),
                Err(e) => Err(e),
            }
        },
        0xf0 | 0xf7 => {
            state.offset = at + 1;
            match get_variable_length_quantity(state) {
                Ok(length) => match skip(state, length as usize) {
                    Ok(_) => Ok(Event::SysexEvent(SysexEvent {  })),
                    Err(e) => Err(e),
                },
                Err(e) => Err(e),
            }
        },
        _ => {
            match get_midi_event(state) {
                Ok(midi_event) => Ok(Event::MidiEvent(midi_event)),
                Err(e) => Err(e),
            }
        },
    };
    match decoded {
        Ok(event) => Ok(TrackEvent { delta_time, event }),
        Err(e) => {
            state.offset = start;
            Err(e)
        },
    }
}

} // verus!
