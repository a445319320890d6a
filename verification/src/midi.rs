//! The events, tracks and header of a Standard MIDI File, with the
//! mathematical view of each.

use vstd::prelude::*;

verus! {

/// Channel-voice message `0x8n`: a key is released.
#[derive(Clone, Copy, Debug, PartialEq, Eq, Structural)]
pub struct NoteOff {
    pub channel: u8,
    pub key: u8,
    pub velocity: u8,
}

/// Channel-voice message `0x9n`: a key is pressed. With velocity zero it
/// stands for a release.
#[derive(Clone, Copy, Debug, PartialEq, Eq, Structural)]
pub struct NoteOn {
    pub channel: u8,
    pub key: u8,
    pub velocity: u8,
}

/// Channel-voice message `0xBn`: a controller takes a value.
#[derive(Clone, Copy, Debug, PartialEq, Eq, Structural)]
pub struct ControlChange {
    pub channel: u8,
    pub number: u8,
    pub value: u8,
}

/// Channel-voice message `0xCn`: the channel selects an instrument program.
#[derive(Clone, Copy, Debug, PartialEq, Eq, Structural)]
pub struct ProgramChange {
    pub channel: u8,
    pub program: u8,
}

/// Channel-voice message `0xEn`: the pitch wheel moves. `bend` holds the
/// fourteen bits of the two data bytes, the first data byte lowest.
#[derive(Clone, Copy, Debug, PartialEq, Eq, Structural)]
pub struct PitchWheel {
    pub channel: u8,
    pub bend: u16,
}

/// A channel-voice message.
#[derive(Clone, Copy, Debug, PartialEq, Eq, Structural)]
pub enum MidiEvent {
    NoteOff(NoteOff),
    NoteOn(NoteOn),
    ControlChange(ControlChange),
    ProgramChange(ProgramChange),
    PitchWheel(PitchWheel),
    /// A message this decoder does not interpret. `status` is the status
    /// byte in force: its high nibble is the message kind, its low nibble
    /// the channel.
    Undef { status: u8 },
}

/// A system-exclusive message. Its payload is skipped.
#[derive(Clone, Copy, Debug, PartialEq, Eq, Structural)]
pub struct SysexEvent {
}

/// Meta event `0x00`.
#[derive(Clone, Copy, Debug, PartialEq, Eq, Structural)]
pub struct SequenceNumber {
    pub number: u16,
}

/// Meta event `0x01`.
#[derive(Clone, Debug, PartialEq, Eq)]
pub struct Text {
    pub name: String,
}

/// Meta event `0x02`.
#[derive(Clone, Debug, PartialEq, Eq)]
pub struct Copyright {
    pub name: String,
}

/// Meta event `0x03`.
#[derive(Clone, Debug, PartialEq, Eq)]
pub struct SequenceTrackName {
    pub name: String,
}

/// Meta event `0x04`.
#[derive(Clone, Debug, PartialEq, Eq)]
pub struct InstrumentName {
    pub name: String,
}

/// Meta event `0x05`.
#[derive(Clone, Debug, PartialEq, Eq)]
pub struct Lyric {
    pub name: String,
}

/// Meta event `0x06`.
#[derive(Clone, Debug, PartialEq, Eq)]
pub struct Marker {
    pub name: String,
}

/// Meta event `0x09`.
#[derive(Clone, Debug, PartialEq, Eq)]
pub struct Device {
    pub name: String,
}

/// Meta event `0x20`.
#[derive(Clone, Copy, Debug, PartialEq, Eq, Structural)]
pub struct ChannelPrefix {
    pub channel: u8,
}

/// Meta event `0x21`.
#[derive(Clone, Copy, Debug, PartialEq, Eq, Structural)]
pub struct Port {
    pub port: u8,
}

/// Meta event `0x2F`: nothing follows in this track.
#[derive(Clone, Copy, Debug, PartialEq, Eq, Structural)]
pub struct EndOfTrack {
}

/// Meta event `0x51`. `tttttt` is the length of a quarter note in
/// microseconds.
#[derive(Clone, Copy, Debug, PartialEq, Eq, Structural)]
pub struct SetTempo {
    pub tttttt: u32,
}

/// Meta event `0x54`: hours, minutes, seconds, frames, hundredths of a frame.
#[derive(Clone, Copy, Debug, PartialEq, Eq, Structural)]
pub struct SmpteOffset {
    pub hr: u8,
    pub mn: u8,
    pub se: u8,
    pub fr: u8,
    pub ff: u8,
}

/// Meta event `0x58`: numerator, denominator as a power of two, MIDI clocks
/// in a metronome click, notated 32nd notes in a quarter note.
#[derive(Clone, Copy, Debug, PartialEq, Eq, Structural)]
pub struct TimeSignature {
    pub nn: u8,
    pub dd: u8,
    pub cc: u8,
    pub bb: u8,
}

/// Meta event `0x59`. `sf` counts sharps where positive and flats where
/// negative; `mi` tells a minor key.
#[derive(Clone, Copy, Debug, PartialEq, Eq, Structural)]
pub struct KeySignature {
    pub sf: i16,
    pub mi: bool,
}

/// The letters of the tonics along the circle of fifths, from C on.
pub open spec fn fifths() -> Seq<char> {
    seq!['C', 'G', 'D', 'A', 'E', 'B', 'F']
}

/// The name of the scale of a key signature: the letter of the tonic, and
/// `major` or `minor`. The letter is found along the circle of fifths, as
/// many steps from C as the signature has sharps, back for flats, and three
/// steps on for a minor key; accidentals are not written.
pub open spec fn scale_name_text(k: KeySignature) -> Seq<char> {
    let steps = k.sf + 7 + if k.mi {
        3int
    } else {
        0int
    };
    seq![fifths()[steps % 7], ' ', 'm'] + if k.mi {
        seq!['i', 'n', 'o', 'r']
    } else {
        seq!['a', 'j', 'o', 'r']
    }
}

impl KeySignature {
    /// Names the scale of this key signature.
    pub fn scale_name(&self) -> (name: String)
        ensures
            name@ == scale_name_text(*self),
    {
        let steps: i32 = self.sf as i32 + 32774 + 7 + if self.mi {
            3i32
        } else {
            0i32
        };
        let qi: i32 = steps % 7;
        let tonica: char = if qi == 0 {
            'C'
        } else if qi == 1 {
            'G'
        } else if qi == 2 {
            'D'
        } else if qi == 3 {
            'A'
        } else if qi == 4 {
            'E'
        } else if qi == 5 {
            'B'
        } else {
            'F'
        };
        let mut name = String::new();
        name.push(tonica);
        name.push(' ');
        name.push('m');
        if self.mi {
            name.push('i');
            name.push('n');
        } else {
            name.push('a');
            name.push('j');
        }
        name.push('o');
        name.push('r');
        assert(name@ =~= scale_name_text(*self));
        name
    }
}

/// Meta event `0x7F`: bytes for one particular sequencer.
#[derive(Clone, Debug, PartialEq, Eq)]
pub struct SequencerEvent {
    pub data: Vec<u8>,
}

/// A meta event.
#[derive(Clone, Debug, PartialEq, Eq)]
pub enum MetaEvent {
    Text(Text),
    SequenceNumber(SequenceNumber),
    Copyright(Copyright),
    SequenceTrackName(SequenceTrackName),
    InstrumentName(InstrumentName),
    Lyric(Lyric),
    Marker(Marker),
    Device(Device),
    ChannelPrefix(ChannelPrefix),
    Port(Port),
    EndOfTrack(EndOfTrack),
    SetTempo(SetTempo),
    SmpteOffset(SmpteOffset),
    TimeSignature(TimeSignature),
    KeySignature(KeySignature),
    SequencerEvent(SequencerEvent),
    /// A meta event of a kind this decoder does not interpret: the kind
    /// byte and the payload length that the event declared.
    Undef { code: u8, length: u32 },
}

/// What a [`MetaEvent`] holds, with text as characters and data as bytes.
pub enum MetaEventView {
    Text(Seq<char>),
    SequenceNumber(u16),
    Copyright(Seq<char>),
    SequenceTrackName(Seq<char>),
    InstrumentName(Seq<char>),
    Lyric(Seq<char>),
    Marker(Seq<char>),
    Device(Seq<char>),
    ChannelPrefix(u8),
    Port(u8),
    EndOfTrack,
    SetTempo(u32),
    SmpteOffset(SmpteOffset),
    TimeSignature(TimeSignature),
    KeySignature(KeySignature),
    SequencerEvent(Seq<u8>),
    Undef { code: u8, length: u32 },
}

impl View for MetaEvent {
    type V = MetaEventView;

    open spec fn view(&self) -> MetaEventView {
        match *self {
            MetaEvent::Text(t) => MetaEventView::Text(t.name@),
            MetaEvent::SequenceNumber(n) => MetaEventView::SequenceNumber(n.number),
            MetaEvent::Copyright(t) => MetaEventView::Copyright(t.name@),
            MetaEvent::SequenceTrackName(t) => MetaEventView::SequenceTrackName(t.name@),
            MetaEvent::InstrumentName(t) => MetaEventView::InstrumentName(t.name@),
            MetaEvent::Lyric(t) => MetaEventView::Lyric(t.name@),
            MetaEvent::Marker(t) => MetaEventView::Marker(t.name@),
            MetaEvent::Device(t) => MetaEventView::Device(t.name@),
            MetaEvent::ChannelPrefix(c) => MetaEventView::ChannelPrefix(c.channel),
            MetaEvent::Port(p) => MetaEventView::Port(p.port),
            MetaEvent::EndOfTrack(_) => MetaEventView::EndOfTrack,
            MetaEvent::SetTempo(t) => MetaEventView::SetTempo(t.tttttt),
            MetaEvent::SmpteOffset(o) => MetaEventView::SmpteOffset(o),
            MetaEvent::TimeSignature(t) => MetaEventView::TimeSignature(t),
            MetaEvent::KeySignature(k) => MetaEventView::KeySignature(k),
            MetaEvent::SequencerEvent(e) => MetaEventView::SequencerEvent(e.data@),
            MetaEvent::Undef { code, length } => MetaEventView::Undef { code, length },
        }
    }
}

/// One event of a track.
#[derive(Clone, Debug, PartialEq, Eq)]
pub enum Event {
    MidiEvent(MidiEvent),
    SysexEvent(SysexEvent),
    MetaEvent(MetaEvent),
    /// An event of no kind. The decoder gives none; it is for tracks that
    /// are put together by hand.
    Undef,
}

/// What an [`Event`] holds.
pub enum EventView {
    MidiEvent(MidiEvent),
    SysexEvent,
    MetaEvent(MetaEventView),
    Undef,
}

impl View for Event {
    type V = EventView;

    open spec fn view(&self) -> EventView {
        match *self {
            Event::MidiEvent(e) => EventView::MidiEvent(e),
            Event::SysexEvent(_) => EventView::SysexEvent,
            Event::MetaEvent(e) => EventView::MetaEvent(e@),
            Event::Undef => EventView::Undef,
        }
    }
}

/// An event and the ticks that passed since the event before it in the
/// same track.
#[derive(Clone, Debug, PartialEq, Eq)]
pub struct TrackEvent {
    pub delta_time: u32,
    pub event: Event,
}

/// What a [`TrackEvent`] holds.
pub struct TrackEventView {
    pub delta_time: u32,
    pub event: EventView,
}

impl View for TrackEvent {
    type V = TrackEventView;

    open spec fn view(&self) -> TrackEventView {
        TrackEventView { delta_time: self.delta_time, event: self.event@ }
    }
}

/// The events of one track chunk, in file order.
#[derive(Clone, Debug, PartialEq, Eq)]
pub struct Track {
    pub track_events: Vec<TrackEvent>,
}

impl View for Track {
    type V = Seq<TrackEventView>;

    open spec fn view(&self) -> Seq<TrackEventView> {
        Seq::new(self.track_events@.len(), |i: int| self.track_events@[i]@)
    }
}

/// Why a byte buffer is no Standard MIDI File.
#[derive(Clone, Copy, Debug, PartialEq, Eq, Structural)]
pub enum ParseError {
    /// The buffer does not begin with the tag `MThd`.
    BadHeaderTag,
    /// The header chunk declares a length other than 6.
    BadHeaderLength { length: usize },
    /// The header names a format other than 0, 1 and 2.
    UnsupportedFormat { format: u16 },
    /// A track chunk does not begin with the tag `MTrk`. `offset` is the
    /// position just behind the four bytes that were read as the tag.
    BadTrackTag { offset: usize },
    /// The bytes ended inside a field or a payload. `offset` is the position
    /// at which the decoder stood when it needed more.
    Truncated { offset: usize },
}

/// A decoded Standard MIDI File: the header fields and the tracks.
#[derive(Clone, Debug, PartialEq, Eq)]
pub struct Midi {
    /// The first defect that decoding met; `None` for a sound file.
    pub error: Option<ParseError>,
    /// 0 for one track, 1 for tracks that sound together, 2 for tracks
    /// that are pieces of their own.
    pub format: u16,
    /// The count of tracks that the header declares.
    pub ntrks: u16,
    /// The ticks in a quarter note, by which delta times count.
    pub ticks_per_quarter_note: u16,
    /// The frames in a second of an SMPTE time division, as the low seven
    /// bits of its negative; zero for a division in ticks.
    pub negative_smpte_format: u8,
    /// The ticks in a frame of an SMPTE time division; zero for a division
    /// in ticks.
    pub ticks_per_frame: u8,
    pub tracks: Vec<Track>,
}

/// What a [`Midi`] holds.
pub struct MidiView {
    pub error: Option<ParseError>,
    pub format: u16,
    pub ntrks: u16,
    pub ticks_per_quarter_note: u16,
    pub negative_smpte_format: u8,
    pub ticks_per_frame: u8,
    pub tracks: Seq<Seq<TrackEventView>>,
}

impl View for Midi {
    type V = MidiView;

    open spec fn view(&self) -> MidiView {
        MidiView {
            error: self.error,
            format: self.format,
            ntrks: self.ntrks,
            ticks_per_quarter_note: self.ticks_per_quarter_note,
            negative_smpte_format: self.negative_smpte_format,
            ticks_per_frame: self.ticks_per_frame,
            tracks: Seq::new(self.tracks@.len(), |i: int| self.tracks@[i]@),
        }
    }
}

impl Midi {
    /// Whether no error has been recorded.
    pub fn ok(&self) -> (b: bool)
        ensures
            b == self.error.is_none(),
    {
        self.error.is_none()
    }

    /// Records `err` unless an error is recorded already: the first error
    /// of a decode stays.
    pub fn set_error(&mut self, err: ParseError)
        ensures
            final(self).error == if old(self).error.is_none() {
                Some(err)
            } else {
                old(self).error
            },
            final(self).format == old(self).format,
            final(self).ntrks == old(self).ntrks,
            final(self).ticks_per_quarter_note == old(self).ticks_per_quarter_note,
            final(self).negative_smpte_format == old(self).negative_smpte_format,
            final(self).ticks_per_frame == old(self).ticks_per_frame,
            final(self).tracks == old(self).tracks,
    {
        if self.ok() {
            self.error = Some(err);
        }
    }
}

} // verus!
