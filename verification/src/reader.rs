//! Decoding of whole chunks: the header, a track, all tracks of a file.

use vstd::prelude::*;
use crate::decode::{
    advance, get_chunk_type, get_usize, has_bytes, spec_get_chunk_type, spec_get_usize,
    truncated, vlq_from, Cursor, ParseState,
};
use crate::events::{get_track_event, spec_get_track_event, status_undetermined};
use crate::midi::{
    Event, EventView, MetaEvent, MetaEventView, Midi, MidiEvent, MidiView, ParseError, Track,
    TrackEvent, TrackEventView,
};

verus! {

/// The tag of the header chunk.
pub open spec fn header_tag() -> Seq<char> {
    seq!['M', 'T', 'h', 'd']
}

/// The tag of a track chunk.
pub open spec fn track_tag() -> Seq<char> {
    seq!['M', 'T', 'r', 'k']
}

/// Whether the event ends its track.
pub open spec fn is_end_of_track(te: TrackEventView) -> bool {
    te.event == EventView::MetaEvent(MetaEventView::EndOfTrack)
}

/// A track event that decodes leaves the cursor behind where it began.
pub proof fn lemma_track_event_advances(data: Seq<u8>, c: Cursor)
    requires
        spec_get_track_event(data, c) is Ok,
    ensures
        spec_get_track_event(data, c)->Ok_0.1.offset > c.offset,
{
    reveal(spec_get_track_event);
    reveal_with_fuel(vlq_from, 5);
}

/// The events of a track body from the cursor up to `end`, behind those in
/// `acc`: events are decoded until one ends the track or the cursor has
/// reached `end`, whichever comes first.
pub open spec fn scan_events(data: Seq<u8>, c: Cursor, end: int, acc: Seq<TrackEventView>)
    -> Result<Seq<TrackEventView>, ParseError>
    decreases
            if c.offset < end {
                end - c.offset
            } else {
                0
            },
    via scan_events_decreases
{
    if c.offset >= end {
        Ok(acc)
    } else {
        match spec_get_track_event(data, c) {
            Err(e) => Err(e),
            Ok((te, c2)) => if is_end_of_track(te) {
                Ok(acc.push(te))
            } else {
                scan_events(data, c2, end, acc.push(te))
            },
        }
    }
}

#[via_fn]
proof fn scan_events_decreases(data: Seq<u8>, c: Cursor, end: int, acc: Seq<TrackEventView>) {
    match spec_get_track_event(data, c) {
        Ok((te, c2)) => {
            lemma_track_event_advances(data, c);
            assert(c2.offset > c.offset);
        },
        Err(_) => {},
    }
}

/// The cursor with no status in force.
pub open spec fn without_status(c: Cursor) -> Cursor {
    Cursor { offset: c.offset, last_status: 7, last_channel: 0 }
}

/// The track chunk at the cursor: the tag `MTrk`, the length of the body as
/// a four-byte number, and the events of the body, scanned with no status in
/// force at first. Behind the chunk the cursor stands at the end that the
/// length declares, wherever the scan of the events stopped.
pub open spec fn spec_read_track(data: Seq<u8>, c: Cursor) -> Result<
    (Seq<TrackEventView>, Cursor),
    ParseError,
> {
    match spec_get_chunk_type(data, c) {
        Err(e) => Err(e),
        Ok((tag, c1)) => if tag != track_tag() {
            Err(ParseError::BadTrackTag { offset: c1.offset as usize })
        } else {
            match spec_get_usize(data, c1) {
                Err(e) => Err(e),
                Ok((length, c2)) => match advance(without_status(c2), length as int) {
                    Err(e) => Err(e),
                    Ok(c_end) => match scan_events(
                        data,
                        without_status(c2),
                        c_end.offset,
                        Seq::empty(),
                    ) {
                        Err(e) => Err(e),
                        Ok(events) => Ok((events, c_end)),
                    },
                },
            }
        },
    }
}

/// What `n` track chunks from the cursor on add to `tracks`: the tracks that
/// decode, up to the first that does not, and the error of that one.
pub open spec fn spec_read_tracks(
    data: Seq<u8>,
    c: Cursor,
    n: nat,
    tracks: Seq<Seq<TrackEventView>>,
) -> (Seq<Seq<TrackEventView>>, Option<ParseError>, Cursor)
    decreases n,
{
    if n == 0 {
        (tracks, None, c)
    } else {
        match spec_read_track(data, c) {
            Err(e) => (tracks, Some(e), c),
            Ok((events, c2)) => spec_read_tracks(data, c2, (n - 1) as nat, tracks.push(events)),
        }
    }
}

/// The two-byte big-endian number at `offset`.
pub open spec fn be16(data: Seq<u8>, offset: int) -> u16 {
    (data[offset] * 256 + data[offset + 1]) as u16
}

/// The header fields of a file whose first fourteen bytes are there: the
/// format, the track count, and the time division. A division with its top
/// bit clear counts ticks in a quarter note. With the top bit set its first
/// byte is the negative SMPTE format and its second the ticks in a frame;
/// the ticks in a quarter note are taken to be the two multiplied, the
/// first as the positive number it negates.
pub open spec fn header_fields(data: Seq<u8>) -> MidiView {
    let smpte = data[12] >= 0x80;
    MidiView {
        error: None,
        format: be16(data, 8),
        ntrks: be16(data, 10),
        ticks_per_quarter_note: if smpte {
            ((0x100 - data[12]) * data[13]) as u16
        } else {
            be16(data, 12)
        },
        negative_smpte_format: if smpte {
            data[12] % 128
        } else {
            0
        },
        ticks_per_frame: if smpte {
            data[13]
        } else {
            0
        },
        tracks: Seq::empty(),
    }
}

/// A file of which nothing has been decoded.
pub open spec fn empty_midi() -> MidiView {
    MidiView {
        error: None,
        format: 0xffff,
        ntrks: 0,
        ticks_per_quarter_note: 0,
        negative_smpte_format: 0,
        ticks_per_frame: 0,
        tracks: Seq::empty(),
    }
}

/// `m` with the given error.
pub open spec fn failed(m: MidiView, e: ParseError) -> MidiView {
    MidiView { error: Some(e), ..m }
}

/// What the bytes of a Standard MIDI File decode to.
///
/// The file begins with the header chunk: the tag `MThd`, the length 6 as a
/// four-byte number, and three two-byte fields. Format 0 is followed by one
/// track chunk, formats 1 and 2 by as many as the header counts. The first
/// defect ends the decoding and is the error of the result; tracks decoded
/// before it stay.
pub open spec fn spec_parse_midi(data: Seq<u8>) -> MidiView {
    let c0 = Cursor { offset: 0, last_status: 7, last_channel: 0 };
    match spec_get_chunk_type(data, c0) {
        Err(e) => failed(empty_midi(), e),
        Ok((tag, c1)) => if tag != header_tag() {
            failed(empty_midi(), ParseError::BadHeaderTag)
        } else {
            match spec_get_usize(data, c1) {
                Err(e) => failed(empty_midi(), e),
                Ok((length, c2)) => if !has_bytes(data, 8, 6) {
                    failed(empty_midi(), truncated(8))
                } else {
                    let header = header_fields(data);
                    if length != 6 {
                        failed(header, ParseError::BadHeaderLength { length })
                    } else if header.format > 2 {
                        failed(header, ParseError::UnsupportedFormat { format: header.format })
                    } else {
                        let n: nat = if header.format == 0 {
                            1
                        } else {
                            header.ntrks as nat
                        };
                        let (tracks, error, _c) = spec_read_tracks(
                            data,
                            c0.at(14),
                            n,
                            Seq::empty(),
                        );
                        MidiView { error, tracks, ..header }
                    }
                },
            }
        },
    }
}

/// `m` with one more track.
pub open spec fn with_track(m: MidiView, events: Seq<TrackEventView>) -> MidiView {
    MidiView { tracks: m.tracks.push(events), ..m }
}

/// `m` with the error `e` unless it has one already.
pub open spec fn with_error(m: MidiView, e: ParseError) -> MidiView {
    MidiView {
        error: if m.error is None {
            Some(e)
        } else {
            m.error
        },
        ..m
    }
}

impl Midi {
    /// Decodes the track chunk at the cursor. Where it decodes, the track is
    /// added and the cursor stands at the end that the chunk declares. Where
    /// it does not, its error is recorded and the state is left as it was.
    pub fn read_track(&mut self, state: &mut ParseState)
        ensures
            final(state).data == old(state).data,
            match spec_read_track(old(state).data@, old(state).cursor()) {
                Ok((events, c2)) => final(self)@ == with_track(old(self)@, events)
                    && final(state).cursor() == c2,
                Err(e) => final(self)@ == with_error(old(self)@, e) && final(state).cursor()
                    == old(state).cursor(),
            },
    {
        let start: usize = state.offset;
        let saved_status: u8 = state.last_status;
        let saved_channel: u8 = state.last_channel;
        let chunk_type: String = match get_chunk_type(state) {
            Ok(tag) => tag,
            Err(e) => {
                self.set_error(e);
                return ;
            },
        };
        let mtrk: String = String::from_str("MTrk");
        proof {
            reveal_strlit("MTrk");
            assert(mtrk@ =~= track_tag());
        }
        if !(chunk_type == mtrk) {
            let offset: usize = state.offset;
            state.offset = start;
            self.set_error(ParseError::BadTrackTag { offset });
            return ;
        }
        let length: usize = match get_usize(state) {
            Ok(v) => v,
            Err(e) => {
                state.offset = start;
                self.set_error(e);
                return ;
            },
        };
        let body: usize = state.offset;
        let offset_eot: usize = match body.checked_add(length) {
            Some(v) => v,
            None => {
                state.offset = start;
                self.set_error(ParseError::Truncated { offset: body });
                return ;
            },
        };
        state.last_status = 7;
        state.last_channel = 0;
        let ghost first = state.cursor();
        let mut track = Track { track_events: Vec::<TrackEvent>::new() };
        let mut got_eot = false;
        assert(track@ =~= Seq::<TrackEventView>::empty());
        while !got_eot && state.offset < offset_eot
            invariant
                state.data == old(state).data,
                *self == *old(self),
                start == old(state).offset,
                saved_status == old(state).last_status,
                saved_channel == old(state).last_channel,
                spec_read_track(old(state).data@, old(state).cursor()) == match scan_events(
                    state.data@,
                    first,
                    offset_eot as int,
                    Seq::empty(),
                ) {
                    Err(e) => Err::<(Seq<TrackEventView>, Cursor), ParseError>(e),
                    Ok(events) => Ok((events, first.at(offset_eot as int))),
                },
                scan_events(state.data@, first, offset_eot as int, Seq::empty()) == if got_eot {
                    Ok::<Seq<TrackEventView>, ParseError>(track@)
                } else {
                    scan_events(state.data@, state.cursor(), offset_eot as int, track@)
                },
            decreases
                    if got_eot {
                        0
                    } else if state.offset < offset_eot {
                        offset_eot - state.offset + 1
                    } else {
                        1
                    },
        {
            let ghost before = state.cursor();
            let ghost events_before = track@;
            match get_track_event(state) {
                Ok(track_event) => {
                    proof {
                        lemma_track_event_advances(state.data@, before);
                    }
                    got_eot = match track_event.event {
                        Event::MetaEvent(MetaEvent::EndOfTrack(_)) => true,
                        _ => false,
                    };
                    let ghost pushed = track_event@;
                    track.track_events.push(track_event);
                    assert(track@ =~= events_before.push(pushed));
                },
                Err(e) => {
                    state.offset = start;
                    state.last_status = saved_status;
                    state.last_channel = saved_channel;
                    self.set_error(e);
                    return ;
                },
            }
        }
        let ghost tracks_before = self@.tracks;
        let ghost events = track@;
        self.tracks.push(track);
        assert(self@.tracks =~= tracks_before.push(events));
        state.offset = offset_eot;
        state.last_status = 7;
        state.last_channel = 0;
    }

    /// Decodes the one track chunk of a file of format 0, as
    /// [`Midi::read_track`] does.
    pub fn read_one_track(&mut self, state: &mut ParseState)
        ensures
            final(state).data == old(state).data,
            match spec_read_track(old(state).data@, old(state).cursor()) {
                Ok((events, c2)) => final(self)@ == with_track(old(self)@, events)
                    && final(state).cursor() == c2,
                Err(e) => final(self)@ == with_error(old(self)@, e) && final(state).cursor()
                    == old(state).cursor(),
            },
    {
        self.read_track(state);
    }

    /// Decodes as many track chunks as the header counts, one behind the
    /// other, up to the first that does not decode. Does nothing where an
    /// error is recorded already.
    pub fn read_tracks(&mut self, state: &mut ParseState)
        ensures
            final(state).data == old(state).data,
            old(self).error is Some ==> final(self)@ == old(self)@ && final(state).cursor()
                == old(state).cursor(),
            old(self).error is None ==> ({
                let (tracks, error, c) = spec_read_tracks(
                    old(state).data@,
                    old(state).cursor(),
                    old(self).ntrks as nat,
                    old(self)@.tracks,
                );
                final(self)@ == (MidiView { error, tracks, ..old(self)@ })
                    && final(state).cursor() == c
            }),
    {
        let ntrks: u16 = self.ntrks;
        let mut itrack: u16 = 0;
        while itrack < ntrks
            invariant
                itrack <= ntrks,
                ntrks == old(self).ntrks,
                state.data == old(state).data,
                old(self).error is Some ==> self@ == old(self)@ && state.cursor()
                    == old(state).cursor(),
                self@ == (MidiView { error: self@.error, tracks: self@.tracks, ..old(self)@ }),
                old(self).error is None ==> spec_read_tracks(
                    old(state).data@,
                    old(state).cursor(),
                    ntrks as nat,
                    old(self)@.tracks,
                ) == if self.error is None {
                    spec_read_tracks(
                        state.data@,
                        state.cursor(),
                        (ntrks - itrack) as nat,
                        self@.tracks,
                    )
                } else {
                    (self@.tracks, self.error, state.cursor())
                },
            decreases ntrks - itrack,
        {
            if self.ok() {
                self.read_track(state);
            }
            itrack += 1;
        }
    }
}

/// Decodes the bytes of a Standard MIDI File. The result holds an error
/// where the bytes are none, and is [`Midi::ok`] otherwise.
pub fn parse_midi(data: Vec<u8>) -> (midi: Midi)
    ensures
        midi@ == spec_parse_midi(data@),
{
    let mut midi = Midi {
        error: None,
        format: 0xffff,
        ntrks: 0,
        ticks_per_quarter_note: 0,
        negative_smpte_format: 0,
        ticks_per_frame: 0,
        tracks: Vec::<Track>::new(),
    };
    assert(midi@.tracks =~= Seq::<Seq<TrackEventView>>::empty());
    let mut parse_state = ParseState::new(data);
    let mthd: String = match get_chunk_type(&mut parse_state) {
        Ok(tag) => tag,
        Err(e) => {
            midi.set_error(e);
            return midi;
        },
    };
    let expected: String = String::from_str("MThd");
    proof {
        reveal_strlit("MThd");
        assert(expected@ =~= header_tag());
    }
    if !(mthd == expected) {
        midi.set_error(ParseError::BadHeaderTag);
        return midi;
    }
    let length: usize = match get_usize(&mut parse_state) {
        Ok(v) => v,
        Err(e) => {
            midi.set_error(e);
            return midi;
        },
    };
    if parse_state.data.len() < 14 {
        midi.set_error(ParseError::Truncated { offset: 8 });
        return midi;
    }
    midi.format = parse_state.data[8] as u16 * 256 + parse_state.data[9] as u16;
    midi.ntrks = parse_state.data[10] as u16 * 256 + parse_state.data[11] as u16;
    let first: u8 = parse_state.data[12];
    let second: u8 = parse_state.data[13];
    if first < 0x80 {
        midi.ticks_per_quarter_note = first as u16 * 256 + second as u16;
    } else {
        midi.negative_smpte_format = first % 128;
        midi.ticks_per_frame = second;
        assert((0x100 - first) * second <= 0x80 * 0xff) by (nonlinear_arith)
            requires
                0x80 <= first <= 0xff,
                second <= 0xff,
        ;
        midi.ticks_per_quarter_note = (0x100u16 - first as u16) * (second as u16);
    }
    assert(midi@ == header_fields(data@));
    if length != 6 {
        midi.set_error(ParseError::BadHeaderLength { length });
        return midi;
    }
    parse_state.offset = 14;
    proof {
        reveal_with_fuel(spec_read_tracks, 2);
    }
    if midi.format == 0 {
        midi.read_one_track(&mut parse_state);
    } else if midi.format <= 2 {
        midi.read_tracks(&mut parse_state);
    } else {
        midi.set_error(ParseError::UnsupportedFormat { format: midi.format });
    }
    midi
}

/// Whether the decoder may have been out of step with the bytes of the
/// track: one of its events is a channel message whose kind could not be
/// told. What stands behind such an event was decoded as well as could be.
pub open spec fn track_desynchronized(events: Seq<TrackEventView>) -> bool {
    exists|i: int|
        0 <= i < events.len() && ((#[trigger] events[i]).event matches EventView::MidiEvent(me)
            && status_undetermined(me))
}

impl Track {
    /// Tells whether the decoder may have been out of step with the bytes
    /// of this track.
    pub fn desynchronized(&self) -> (b: bool)
        ensures
            b == track_desynchronized(self@),
    {
        let n: usize = self.track_events.len();
        let mut i: usize = 0;
        while i < n
            invariant
                i <= n == self.track_events@.len(),
                forall|j: int|
                    0 <= j < i ==> !((#[trigger] self@[j]).event matches EventView::MidiEvent(me)
                        && status_undetermined(me)),
            decreases n - i,
        {
            assert(self@[i as int] == self.track_events@[i as int]@);
            match &self.track_events[i].event {
                Event::MidiEvent(MidiEvent::Undef { status }) => {
                    if *status >= 0xF0 {
                        return true;
                    }
                },
                _ => {},
            }
            i += 1;
        }
        false
    }
}

impl Midi {
    /// Tells whether the decoder may have been out of step with the bytes
    /// of one of the tracks.
    pub fn desynchronized(&self) -> (b: bool)
        ensures
            b == exists|t: int|
                0 <= t < self@.tracks.len() && track_desynchronized(#[trigger] self@.tracks[t]),
    {
        let n: usize = self.tracks.len();
        let mut t: usize = 0;
        while t < n
            invariant
                t <= n == self.tracks@.len(),
                forall|j: int| 0 <= j < t ==> !track_desynchronized(#[trigger] self@.tracks[j]),
            decreases n - t,
        {
            assert(self@.tracks[t as int] == self.tracks@[t as int]@);
            if self.tracks[t].desynchronized() {
                return true;
            }
            t += 1;
        }
        false
    }
}

} // verus!
