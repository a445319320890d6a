//! The timeline: the merged stream of a file turned into commands with
//! times in milliseconds, under the tempo changes of the file, the window
//! of playback that the user chose, and the tempo factor.

use vstd::prelude::*;
use crate::index::IndexEvent;
use crate::midi::{
    Event, EventView, MetaEvent, MetaEventView, Midi, MidiEvent, MidiView, NoteOn,
    TrackEventView,
};
use crate::timing::{
    factor_u32, max_by, scaled_or_kept, scaling_overflows, DynamicTiming, TempoFactor,
};
use crate::util::{clamp_u32, safe_subtract, safe_subtract_spec};

verus! {

/// What the user asked of one playback: the window of the piece to play,
/// in milliseconds of the piece, and the factor by which time is multiplied.
#[derive(Clone, Copy, Debug, PartialEq, Eq, Structural)]
pub struct UserModification {
    pub begin_ms: u32,
    pub end_ms: u32,
    pub tempo_factor: TempoFactor,
}

/// A note to play: how long it sounds, in milliseconds of playback and of
/// the piece.
#[derive(Clone, Copy, Debug, PartialEq, Eq, Structural)]
pub struct NoteEvent {
    pub channel: i32,
    pub key: i16,
    pub velocity: i16,
    pub duration_ms: u32,
    pub duration_ms_original: u32,
}

/// An instrument program to select on a channel.
#[derive(Clone, Copy, Debug, PartialEq, Eq, Structural)]
pub struct ProgramChange {
    pub channel: i32,
    pub program: i32,
}

/// A pitch bend to set on a channel.
#[derive(Clone, Copy, Debug, PartialEq, Eq, Structural)]
pub struct PitchWheel {
    pub channel: i32,
    pub bend: i32,
}

/// The end of the timeline.
#[derive(Clone, Copy, Debug, PartialEq, Eq, Structural)]
pub struct FinalEvent {
}

/// What a command of the timeline asks for.
#[derive(Clone, Copy, Debug, PartialEq, Eq, Structural)]
pub enum UnionAbsEvent {
    NoteEvent(NoteEvent),
    ProgramChange(ProgramChange),
    PitchWheel(PitchWheel),
    FinalEvent(FinalEvent),
}

/// A command with its time: `time_ms` in milliseconds of playback, counted
/// from the begin of the window and multiplied by the tempo factor, and
/// `time_ms_original` in milliseconds of the piece.
#[derive(Clone, Copy, Debug, PartialEq, Eq, Structural)]
pub struct AbsEvent {
    pub time_ms: u32,
    pub time_ms_original: u32,
    pub uae: UnionAbsEvent,
}

/// The event that `e` refers to.
pub open spec fn event_at(tracks: Seq<Seq<TrackEventView>>, e: IndexEvent) -> EventView {
    tracks[e.track as int][e.tei as int].event
}

/// Whether every reference of the stream refers to an event of `tracks`.
pub open spec fn refers_into(tracks: Seq<Seq<TrackEventView>>, index: Seq<IndexEvent>) -> bool {
    forall|k: int|
        0 <= k < index.len() ==> (#[trigger] index[k]).track < tracks.len() && index[k].tei
            < tracks[index[k].track as int].len()
}

/// Whether the event ends the note that `note_on` began: a note-off, or a
/// note-on with velocity zero, on the same channel and key.
pub open spec fn ends_note(ev: EventView, note_on: NoteOn) -> bool {
    match ev {
        EventView::MidiEvent(MidiEvent::NoteOn(e)) => e.velocity == 0 && e.channel
            == note_on.channel && e.key == note_on.key,
        EventView::MidiEvent(MidiEvent::NoteOff(e)) => e.channel == note_on.channel && e.key
            == note_on.key,
        _ => false,
    }
}

/// The tick at which a note ends, looked for from place `j` of the stream
/// on: the tick of the first event that ends it, and where none does, the
/// tick of the last event of the stream. `curr` is the tick of the event
/// before place `j`.
pub open spec fn note_end_time(
    tracks: Seq<Seq<TrackEventView>>,
    index: Seq<IndexEvent>,
    j: int,
    note_on: NoteOn,
    curr: u32,
) -> u32
    decreases index.len() - j,
{
    if j < 0 || j >= index.len() {
        curr
    } else if ends_note(event_at(tracks, index[j]), note_on) {
        index[j].time
    } else {
        note_end_time(tracks, index, j + 1, note_on, index[j].time)
    }
}

/// The ticks for which the note sounds that the event at place `i` of the
/// stream began: from its tick to the tick at which it ends. A note that
/// nothing ends sounds until the last event of the stream; a note whose
/// end is not behind it in ticks has no length.
pub open spec fn note_duration(
    tracks: Seq<Seq<TrackEventView>>,
    index: Seq<IndexEvent>,
    i: int,
    note_on: NoteOn,
) -> u32 {
    safe_subtract_spec(note_end_time(tracks, index, i + 1, note_on, 0), index[i].time)
}

/// Looks for the end of the note that the event at place `i` of the stream
/// began, and returns the ticks for which the note sounds.
pub fn get_note_duration(
    parsed_midi: &Midi,
    index_events: &Vec<IndexEvent>,
    i: usize,
    note_on: &NoteOn,
) -> (duration: u32)
    requires
        refers_into(parsed_midi@.tracks, index_events@),
        i < index_events@.len(),
    ensures
        duration == note_duration(parsed_midi@.tracks, index_events@, i as int, *note_on),
{
    let ghost tracks = parsed_midi@.tracks;
    let mut curr_event_time: u32 = 0;
    let mut end_note_found = false;
    let n: usize = index_events.len();
    let mut j: usize = i + 1;
    while !end_note_found && j < n
        invariant
            i < j <= n == index_events@.len(),
            tracks == parsed_midi@.tracks,
            refers_into(tracks, index_events@),
            note_end_time(tracks, index_events@, i + 1, *note_on, 0) == if end_note_found {
                curr_event_time
            } else {
                note_end_time(tracks, index_events@, j as int, *note_on, curr_event_time)
            },
        decreases index_events@.len() - j + if end_note_found { 0int } else { 1int },
    {
        let index_event = &index_events[j];
        assert(index_event.track < tracks.len());
        assert(tracks[index_event.track as int] == parsed_midi.tracks@[index_event.track as int]@);
        let track_event = &parsed_midi.tracks[index_event.track].track_events[index_event.tei];
        assert(event_at(tracks, *index_event) == track_event.event@);
        curr_event_time = index_event.time;
        match &track_event.event {
            Event::MidiEvent(me) => {
                match me {
                    MidiEvent::NoteOn(e) => {
                        end_note_found = (e.velocity == 0) && (e.channel == note_on.channel) && (
                        e.key == note_on.key);
                    },
                    MidiEvent::NoteOff(e) => {
                        end_note_found = (e.channel == note_on.channel) && (e.key
                            == note_on.key);
                    },
                    _ => {},
                }
            },
            _ => {},
        }
        j += 1;
    }
    safe_subtract(curr_event_time, index_events[i].time)
}

/// The note to play for `note_on` with a length of `duration_ms`
/// milliseconds of the piece: the length in playback is that multiplied by
/// the factor, and the length of the piece itself where the product is
/// above the largest `u32`.
pub open spec fn note_event_of(note_on: NoteOn, duration_ms: u32, factor: TempoFactor)
    -> NoteEvent {
    NoteEvent {
        channel: note_on.channel as i32,
        key: note_on.key as i16,
        velocity: note_on.velocity as i16,
        duration_ms: scaled_or_kept(factor, duration_ms),
        duration_ms_original: duration_ms,
    }
}

/// Makes the note to play for `note_on`. The flag tells that the length
/// multiplied by the factor was above the largest `u32`, and that the note
/// has the length of the piece in its place.
pub fn note_on_to_note_event(note_on: &NoteOn, duration_ms: u32, factor: TempoFactor) -> (r: (
    NoteEvent,
    bool,
))
    ensures
        r.0 == note_event_of(*note_on, duration_ms, factor),
        r.1 == scaling_overflows(factor, duration_ms),
{
    let (duration, clipped) = factor_u32(factor, duration_ms);
    (
        NoteEvent {
            channel: note_on.channel as i32,
            key: note_on.key as i16,
            velocity: note_on.velocity as i16,
            duration_ms: duration,
            duration_ms_original: duration_ms,
        },
        clipped,
    )
}

/// What the builder of a timeline has made of the stream so far: the
/// commands, the latest millisecond of playback at which one of them ends,
/// the tempo in force, whether a time or length was above the largest `u32`
/// and another stands in its place, and whether the end of the window has
/// been passed.
pub struct TimelineState {
    pub abs_events: Seq<AbsEvent>,
    pub final_ms: u32,
    pub timing: DynamicTiming,
    pub overflow: bool,
    pub done: bool,
}

/// The larger of two numbers.
pub open spec fn max_u32(a: u32, b: u32) -> u32 {
    if a < b {
        b
    } else {
        a
    }
}

/// The state once the channel-voice message `me`, which the event at place
/// `k` of the stream holds and which falls on millisecond `date_ms` of the
/// piece, has been taken in.
///
/// Before the begin of the window a command has the time `begin_ms`; from it
/// on, the milliseconds since the begin multiplied by the tempo factor. A
/// note-on with a velocity, from the begin of the window on, gives a note
/// with its length; before the begin, and with velocity zero, it gives
/// nothing. A program change and a pitch wheel give their command wherever
/// they fall. Other messages give nothing.
///
/// A value above the largest `u32` is reported by the flag of the state,
/// and another stands in its place. For a time or a length multiplied by
/// the tempo factor that is the time or length as it was before. For the
/// length of a note in milliseconds of the piece, and for the end of a
/// note, it is the largest `u32`.
pub open spec fn push_command(
    tracks: Seq<Seq<TrackEventView>>,
    index: Seq<IndexEvent>,
    um: UserModification,
    s: TimelineState,
    k: int,
    me: MidiEvent,
    date_ms: u32,
) -> TimelineState {
    let after_begin = um.begin_ms <= date_ms;
    let since_begin = (date_ms - um.begin_ms) as u32;
    let time_ms = if after_begin {
        scaled_or_kept(um.tempo_factor, since_begin)
    } else {
        um.begin_ms
    };
    let late = after_begin && scaling_overflows(um.tempo_factor, since_begin);
    match me {
        MidiEvent::NoteOn(e) => if after_begin && e.velocity != 0 {
            let ms = s.timing.ticks_ms(note_duration(tracks, index, k, e) as int);
            let note = note_event_of(e, clamp_u32(ms), um.tempo_factor);
            let end = time_ms + note.duration_ms;
            TimelineState {
                abs_events: s.abs_events.push(
                    AbsEvent {
                        time_ms,
                        time_ms_original: date_ms,
                        uae: UnionAbsEvent::NoteEvent(note),
                    },
                ),
                final_ms: max_u32(s.final_ms, clamp_u32(end)),
                overflow: s.overflow || late || ms > u32::MAX || scaling_overflows(
                    um.tempo_factor,
                    clamp_u32(ms),
                ) || end > u32::MAX,
                ..s
            }
        } else {
            TimelineState { overflow: s.overflow || late, ..s }
        },
        MidiEvent::ProgramChange(e) => TimelineState {
            abs_events: s.abs_events.push(
                AbsEvent {
                    time_ms,
                    time_ms_original: date_ms,
                    uae: UnionAbsEvent::ProgramChange(
                        ProgramChange { channel: e.channel as i32, program: e.program as i32 },
                    ),
                },
            ),
            final_ms: max_u32(s.final_ms, time_ms),
            overflow: s.overflow || late,
            ..s
        },
        MidiEvent::PitchWheel(e) => TimelineState {
            abs_events: s.abs_events.push(
                AbsEvent {
                    time_ms,
                    time_ms_original: date_ms,
                    uae: UnionAbsEvent::PitchWheel(
                        PitchWheel { channel: e.channel as i32, bend: e.bend as i32 },
                    ),
                },
            ),
            final_ms: max_u32(s.final_ms, time_ms),
            overflow: s.overflow || late,
            ..s
        },
        _ => TimelineState { overflow: s.overflow || late, ..s },
    }
}

/// The builder of a timeline at work: what it has made so far, and the
/// file, the merged stream and the user's wishes it works from.
pub struct AbsEventsGenerationControl<'a> {
    pub abs_events: Vec<AbsEvent>,
    pub final_ms: u32,
    pub overflow: bool,
    pub parsed_midi: &'a Midi,
    pub index_events: &'a Vec<IndexEvent>,
    pub user_mod: &'a UserModification,
    pub dynamic_timing: DynamicTiming,
}

impl<'a> AbsEventsGenerationControl<'a> {
    /// What the builder has made so far.
    pub open spec fn state(&self, done: bool) -> TimelineState {
        TimelineState {
            abs_events: self.abs_events@,
            final_ms: self.final_ms,
            timing: self.dynamic_timing,
            overflow: self.overflow,
            done,
        }
    }

    /// Whether the builder works from the same file, stream and wishes as
    /// `other`.
    pub open spec fn same_sources(&self, other: &Self) -> bool {
        &&& self.parsed_midi == other.parsed_midi
        &&& self.index_events == other.index_events
        &&& self.user_mod == other.user_mod
    }

    /// Whether the builder can go on: the tempo has ticks to divide by, and
    /// the stream refers into the file.
    pub open spec fn wf(&self) -> bool {
        &&& self.dynamic_timing.k_ticks_per_quarter > 0
        &&& refers_into(self.parsed_midi@.tracks, self.index_events@)
    }
}

/// Takes in the channel-voice message `me` of the event at place
/// `index_event_index` of the stream, which falls on millisecond `date_ms`
/// of the piece: adds its command, if it gives one.
pub fn abs_events_push(
    aed: &mut AbsEventsGenerationControl,
    index_event_index: usize,
    me: &MidiEvent,
    date_ms: u32,
)
    requires
        old(aed).wf(),
        index_event_index < old(aed).index_events@.len(),
    ensures
        final(aed).same_sources(old(aed)),
        final(aed).state(false) == push_command(
            old(aed).parsed_midi@.tracks,
            old(aed).index_events@,
            *old(aed).user_mod,
            old(aed).state(false),
            index_event_index as int,
            *me,
            date_ms,
        ),
{
    let factor = aed.user_mod.tempo_factor;
    let begin_ms: u32 = aed.user_mod.begin_ms;
    let after_begin = begin_ms <= date_ms;
    let date_ms_modified: u32 = if after_begin {
        let (scaled_ms, late) = factor_u32(factor, date_ms - begin_ms);
        if late {
            aed.overflow = true;
        }
        scaled_ms
    } else {
        begin_ms
    };
    match me {
        MidiEvent::NoteOn(e) => {
            if after_begin && (e.velocity != 0) {
                let duration_ticks: u32 = get_note_duration(
                    aed.parsed_midi,
                    aed.index_events,
                    index_event_index,
                    e,
                );
                proof {
                    crate::timing::lemma_ticks_ms_nonnegative(
                        aed.dynamic_timing,
                        duration_ticks as int,
                    );
                }
                let duration_ms: u32 = match aed.dynamic_timing.ticks_to_ms(duration_ticks) {
                    Some(v) => v,
                    None => {
                        aed.overflow = true;
                        u32::MAX
                    },
                };
                let (note_event, clipped) = note_on_to_note_event(e, duration_ms, factor);
                if clipped {
                    aed.overflow = true;
                }
                let end_ms: u32 = match date_ms_modified.checked_add(note_event.duration_ms) {
                    Some(v) => v,
                    None => {
                        aed.overflow = true;
                        u32::MAX
                    },
                };
                max_by(&mut aed.final_ms, end_ms);
                aed.abs_events.push(
                    AbsEvent {
                        time_ms: date_ms_modified,
                        time_ms_original: date_ms,
                        uae: UnionAbsEvent::NoteEvent(note_event),
                    },
                );
            }
        },
        MidiEvent::NoteOff(_e) => {
            // A note-off was found from its note-on, when the length of the
            // note was looked for.
        },
        MidiEvent::ProgramChange(e) => {
            max_by(&mut aed.final_ms, date_ms_modified);
            let pc = ProgramChange { channel: e.channel as i32, program: e.program as i32 };
            aed.abs_events.push(
                AbsEvent {
                    time_ms: date_ms_modified,
                    time_ms_original: date_ms,
                    uae: UnionAbsEvent::ProgramChange(pc),
                },
            );
        },
        MidiEvent::PitchWheel(e) => {
            max_by(&mut aed.final_ms, date_ms_modified);
            let pw = PitchWheel { channel: e.channel as i32, bend: e.bend as i32 };
            aed.abs_events.push(
                AbsEvent {
                    time_ms: date_ms_modified,
                    time_ms_original: date_ms,
                    uae: UnionAbsEvent::PitchWheel(pw),
                },
            );
        },
        _ => {},
    }
}

/// Whether the event is a note-on, with whatever velocity.
pub open spec fn is_note_on(ev: EventView) -> bool {
    ev matches EventView::MidiEvent(MidiEvent::NoteOn(_))
}

/// The tick of the first note-on of the stream from place `i` on, and zero
/// where there is none.
pub open spec fn first_note_time(tracks: Seq<Seq<TrackEventView>>, index: Seq<IndexEvent>, i: int)
    -> u32
    decreases index.len() - i,
{
    if i < 0 || i >= index.len() {
        0
    } else if is_note_on(event_at(tracks, index[i])) {
        index[i].time
    } else {
        first_note_time(tracks, index, i + 1)
    }
}

/// Finds the tick of the first note-on of the stream; zero where the stream
/// has none.
pub fn get_first_note_time(control: &AbsEventsGenerationControl) -> (t: u32)
    requires
        refers_into(control.parsed_midi@.tracks, control.index_events@),
    ensures
        t == first_note_time(control.parsed_midi@.tracks, control.index_events@, 0),
{
    let ghost tracks = control.parsed_midi@.tracks;
    let mut t: u32 = 0;
    let mut note_seen = false;
    let mut i: usize = 0;
    let n: usize = control.index_events.len();
    while (i < n) && !note_seen
        invariant
            i <= n == control.index_events@.len(),
            tracks == control.parsed_midi@.tracks,
            refers_into(tracks, control.index_events@),
            first_note_time(tracks, control.index_events@, 0) == if note_seen {
                t
            } else {
                first_note_time(tracks, control.index_events@, i as int)
            },
            !note_seen ==> t == 0,
        decreases n - i + if note_seen { 0int } else { 1int },
    {
        let index_event = &control.index_events[i];
        assert(index_event.track < tracks.len());
        assert(tracks[index_event.track as int]
            == control.parsed_midi.tracks@[index_event.track as int]@);
        let track_event =
            &control.parsed_midi.tracks[index_event.track].track_events[index_event.tei];
        assert(event_at(tracks, *index_event) == track_event.event@);
        match &track_event.event {
            Event::MidiEvent(me) => {
                match me {
                    MidiEvent::NoteOn(_e) => {
                        t = index_event.time;
                        note_seen = true;
                    },
                    _ => {},
                }
            },
            _ => {},
        }
        i += 1;
    }
    t
}

/// The state once the event at place `k` of the stream has been taken in.
///
/// The tick of the event, counted from the first note of the stream, is
/// converted to its millisecond of the piece under the tempo in force. An
/// event behind the end of the window ends the building: it and all behind
/// it give nothing. Up to the end of the window, whether before the begin
/// or not, a tempo change takes effect from its tick on, and a
/// channel-voice message is taken in as [`push_command`] says.
pub open spec fn timeline_step(
    tracks: Seq<Seq<TrackEventView>>,
    index: Seq<IndexEvent>,
    um: UserModification,
    first: u32,
    s: TimelineState,
    k: int,
) -> TimelineState {
    if s.done {
        s
    } else {
        let time_shifted = safe_subtract_spec(index[k].time, first);
        let date = s.timing.abs_ticks_ms(time_shifted);
        if date > um.end_ms {
            TimelineState { done: true, ..s }
        } else {
            match event_at(tracks, index[k]) {
                EventView::MetaEvent(MetaEventView::SetTempo(tttttt)) => TimelineState {
                    timing: s.timing.with_tempo(time_shifted, tttttt),
                    ..s
                },
                EventView::MidiEvent(me) => push_command(tracks, index, um, s, k, me, date as u32),
                _ => s,
            }
        }
    }
}

/// The state once the first `k` events of the stream have been taken in,
/// one behind the other, beginning with `init`.
pub open spec fn timeline_prefix(
    tracks: Seq<Seq<TrackEventView>>,
    index: Seq<IndexEvent>,
    um: UserModification,
    first: u32,
    init: TimelineState,
    k: int,
) -> TimelineState
    decreases k,
{
    if k <= 0 {
        init
    } else {
        timeline_step(
            tracks,
            index,
            um,
            first,
            timeline_prefix(tracks, index, um, first, init, k - 1),
            k - 1,
        )
    }
}

/// The state before any event: no command, the tempo of half a second to
/// the quarter note.
pub open spec fn initial_state(ticks_per_quarter_note: u16) -> TimelineState {
    TimelineState {
        abs_events: Seq::empty(),
        final_ms: 0,
        timing: DynamicTiming {
            microseconds_per_quarter: 500_000,
            k_ticks_per_quarter: (1000 * ticks_per_quarter_note) as u64,
            ticks_ref: 0,
            ms_ref: 0,
        },
        overflow: false,
        done: false,
    }
}

/// The command that ends a timeline: its time is the latest at which a
/// command ends, and the begin of the window where that is later; its time
/// in the piece is that of the last command, and zero where there is none.
pub open spec fn final_event(um: UserModification, s: TimelineState) -> AbsEvent {
    AbsEvent {
        time_ms: max_u32(s.final_ms, um.begin_ms),
        time_ms_original: if s.abs_events.len() == 0 {
            0
        } else {
            s.abs_events.last().time_ms_original
        },
        uae: UnionAbsEvent::FinalEvent(FinalEvent {  }),
    }
}

/// The timeline of a file: the commands that the events of the merged
/// stream give, in the order of the stream, and the command that ends it;
/// with them, whether a time or a length was above the largest `u32`, so
/// that another stands in its place.
pub open spec fn abs_events_of(midi: MidiView, index: Seq<IndexEvent>, um: UserModification) -> (
    Seq<AbsEvent>,
    bool,
) {
    let s = timeline_prefix(
        midi.tracks,
        index,
        um,
        first_note_time(midi.tracks, index, 0),
        initial_state(midi.ticks_per_quarter_note),
        index.len() as int,
    );
    (s.abs_events.push(final_event(um, s)), s.overflow)
}

/// Once the end of the window has been passed, no event changes the state.
pub proof fn lemma_done_is_kept(
    tracks: Seq<Seq<TrackEventView>>,
    index: Seq<IndexEvent>,
    um: UserModification,
    first: u32,
    init: TimelineState,
    k: int,
    m: int,
)
    requires
        0 <= k <= m,
        timeline_prefix(tracks, index, um, first, init, k).done,
    ensures
        timeline_prefix(tracks, index, um, first, init, m) == timeline_prefix(
            tracks,
            index,
            um,
            first,
            init,
            k,
        ),
    decreases m - k,
{
    if k < m {
        lemma_done_is_kept(tracks, index, um, first, init, k, m - 1);
    }
}

/// Builds the timeline of a file from its merged stream. The flag tells
/// that a time or a length was above the largest `u32`, so that another
/// stands in its place.
pub fn get_abs_events(
    parsed_midi: &Midi,
    index_events: &Vec<IndexEvent>,
    user_mod: &UserModification,
) -> (r: (Vec<AbsEvent>, bool))
    requires
        parsed_midi.ticks_per_quarter_note > 0,
        refers_into(parsed_midi@.tracks, index_events@),
    ensures
        (r.0@, r.1) == abs_events_of(parsed_midi@, index_events@, *user_mod),
{
    let ghost tracks = parsed_midi@.tracks;
    let ghost init = initial_state(parsed_midi.ticks_per_quarter_note);
    let mut control = AbsEventsGenerationControl {
        abs_events: Vec::<AbsEvent>::new(),
        final_ms: 0,
        overflow: false,
        parsed_midi,
        index_events,
        user_mod,
        dynamic_timing: DynamicTiming::new(parsed_midi.ticks_per_quarter_note),
    };
    let mut i: usize = 0;
    let n: usize = index_events.len();
    let first_note_time: u32 = get_first_note_time(&control);
    let mut done = false;
    assert(control.state(false) == init);
    while (i < n) && !done
        invariant
            i <= n == index_events@.len(),
            tracks == parsed_midi@.tracks,
            control.parsed_midi == parsed_midi,
            control.index_events == index_events,
            control.user_mod == user_mod,
            control.wf(),
            control.state(done) == timeline_prefix(
                tracks,
                index_events@,
                *user_mod,
                first_note_time,
                init,
                i as int,
            ),
        decreases n - i,
    {
        let index_event = &index_events[i];
        let time_shifted: u32 = safe_subtract(index_event.time, first_note_time);
        let date: Option<u32> = control.dynamic_timing.abs_ticks_to_ms(time_shifted);
        let ghost before = control.state(false);
        proof {
            crate::timing::lemma_ticks_ms_nonnegative(
                control.dynamic_timing,
                safe_subtract_spec(time_shifted, control.dynamic_timing.ticks_ref) as int,
            );
        }
        let within: Option<u32> = match date {
            Some(date_ms) => if date_ms > user_mod.end_ms {
                None
            } else {
                Some(date_ms)
            },
            None => None,
        };
        match within {
            None => {
                done = true;
            },
            Some(date_ms) => {
                assert(index_event.track < tracks.len());
                assert(tracks[index_event.track as int]
                    == parsed_midi.tracks@[index_event.track as int]@);
                let track_event =
                    &parsed_midi.tracks[index_event.track].track_events[index_event.tei];
                assert(event_at(tracks, *index_event) == track_event.event@);
                match &track_event.event {
                    Event::MetaEvent(me) => {
                        match me {
                            MetaEvent::SetTempo(st) => {
                                control.dynamic_timing.set_microseconds_per_quarter(
                                    time_shifted,
                                    st.tttttt,
                                );
                            },
                            _ => {},
                        }
                    },
                    Event::MidiEvent(me) => {
                        abs_events_push(&mut control, i, me, date_ms);
                    },
                    _ => {},
                }
            },
        }
        assert(control.state(done) == timeline_step(
            tracks,
            index_events@,
            *user_mod,
            first_note_time,
            before,
            i as int,
        ));
        i += 1;
    }
    proof {
        if done {
            lemma_done_is_kept(
                tracks,
                index_events@,
                *user_mod,
                first_note_time,
                init,
                i as int,
                n as int,
            );
        }
    }
    let ghost last = control.state(done);
    let time_ms_original: u32 = if control.abs_events.len() == 0 {
        0
    } else {
        control.abs_events[control.abs_events.len() - 1].time_ms_original
    };
    let time_ms: u32 = if control.final_ms < user_mod.begin_ms {
        user_mod.begin_ms
    } else {
        control.final_ms
    };
    control.abs_events.push(
        AbsEvent { time_ms, time_ms_original, uae: UnionAbsEvent::FinalEvent(FinalEvent {  }) },
    );
    (control.abs_events, control.overflow)
}

/// A note-on that falls before the begin of the window gives no command:
/// the commands and the latest end among them stay as they were.
pub proof fn lemma_note_before_window_is_silent(
    tracks: Seq<Seq<TrackEventView>>,
    index: Seq<IndexEvent>,
    um: UserModification,
    first: u32,
    s: TimelineState,
    k: int,
)
    requires
        s.timing.k_ticks_per_quarter > 0,
        is_note_on(event_at(tracks, index[k])),
        s.timing.abs_ticks_ms(safe_subtract_spec(index[k].time, first)) < um.begin_ms,
    ensures
        timeline_step(tracks, index, um, first, s, k).abs_events == s.abs_events,
        timeline_step(tracks, index, um, first, s, k).final_ms == s.final_ms,
        timeline_step(tracks, index, um, first, s, k).timing == s.timing,
{
    crate::timing::lemma_ticks_ms_nonnegative(
        s.timing,
        safe_subtract_spec(safe_subtract_spec(index[k].time, first), s.timing.ticks_ref) as int,
    );
}

/// A tempo change that falls before the begin of the window, and not behind
/// its end, takes effect all the same: every later tick is converted from
/// the millisecond of the change on under the new tempo.
pub proof fn lemma_tempo_before_window_applies(
    tracks: Seq<Seq<TrackEventView>>,
    index: Seq<IndexEvent>,
    um: UserModification,
    first: u32,
    s: TimelineState,
    k: int,
    tttttt: u32,
    later: u32,
)
    requires
        !s.done,
        s.timing.k_ticks_per_quarter > 0,
        event_at(tracks, index[k]) == EventView::MetaEvent(MetaEventView::SetTempo(tttttt)),
        s.timing.abs_ticks_ms(safe_subtract_spec(index[k].time, first)) <= um.end_ms,
        later >= safe_subtract_spec(index[k].time, first),
    ensures
        timeline_step(tracks, index, um, first, s, k).abs_events == s.abs_events,
        timeline_step(tracks, index, um, first, s, k).timing == s.timing.with_tempo(
            safe_subtract_spec(index[k].time, first),
            tttttt,
        ),
        timeline_step(tracks, index, um, first, s, k).timing.abs_ticks_ms(later)
            == s.timing.abs_ticks_ms(safe_subtract_spec(index[k].time, first))
            + crate::timing::round_div_spec(
            (later - safe_subtract_spec(index[k].time, first)) * tttttt,
            s.timing.k_ticks_per_quarter as int,
        ),
{
    let at = safe_subtract_spec(index[k].time, first);
    crate::timing::lemma_tempo_change_reanchors(s.timing, at, tttttt, later);
}

/// Whether the command is none that ends a timeline, and begins and, where
/// it is a note, ends at or before the millisecond `limit` of playback.
pub open spec fn ends_by(e: AbsEvent, limit: u32) -> bool {
    &&& !(e.uae is FinalEvent)
    &&& e.time_ms <= limit
    &&& (e.uae matches UnionAbsEvent::NoteEvent(n) ==> clamp_u32(e.time_ms + n.duration_ms)
        <= limit)
}

/// Whether every command of the state ends by the latest end that the state
/// holds.
pub open spec fn ends_are_kept(s: TimelineState) -> bool {
    forall|i: int| 0 <= i < s.abs_events.len() ==> ends_by(#[trigger] s.abs_events[i], s.final_ms)
}

/// The latest end never goes back, and every command ends by it, whatever
/// event is taken in.
pub proof fn lemma_step_keeps_ends(
    tracks: Seq<Seq<TrackEventView>>,
    index: Seq<IndexEvent>,
    um: UserModification,
    first: u32,
    s: TimelineState,
    k: int,
)
    requires
        ends_are_kept(s),
    ensures
        ends_are_kept(timeline_step(tracks, index, um, first, s, k)),
        timeline_step(tracks, index, um, first, s, k).final_ms >= s.final_ms,
{
    let t = timeline_step(tracks, index, um, first, s, k);
    assert forall|i: int| 0 <= i < t.abs_events.len() implies ends_by(
        #[trigger] t.abs_events[i],
        t.final_ms,
    ) by {
        if i < s.abs_events.len() {
            assert(t.abs_events[i] == s.abs_events[i]);
            assert(ends_by(s.abs_events[i], s.final_ms));
        }
    }
}

/// Every command of a timeline that is built from a state in which every
/// command ends by the latest end does so too.
pub proof fn lemma_prefix_keeps_ends(
    tracks: Seq<Seq<TrackEventView>>,
    index: Seq<IndexEvent>,
    um: UserModification,
    first: u32,
    init: TimelineState,
    k: int,
)
    requires
        ends_are_kept(init),
    ensures
        ends_are_kept(timeline_prefix(tracks, index, um, first, init, k)),
    decreases k,
{
    if k > 0 {
        lemma_prefix_keeps_ends(tracks, index, um, first, init, k - 1);
        lemma_step_keeps_ends(
            tracks,
            index,
            um,
            first,
            timeline_prefix(tracks, index, um, first, init, k - 1),
            k - 1,
        );
    }
}

/// A timeline ends with the one command that ends it, and that command is
/// the latest: no other command ends a timeline, and each begins and, where
/// it is a note, ends at or before it. The last command is never before the
/// begin of the window.
pub proof fn lemma_final_marker_is_last_and_latest(
    midi: MidiView,
    index: Seq<IndexEvent>,
    um: UserModification,
)
    ensures
        abs_events_of(midi, index, um).0.len() >= 1,
        abs_events_of(midi, index, um).0.last().uae is FinalEvent,
        abs_events_of(midi, index, um).0.last().time_ms >= um.begin_ms,
        forall|i: int|
            0 <= i < abs_events_of(midi, index, um).0.len() - 1 ==> ends_by(
                #[trigger] abs_events_of(midi, index, um).0[i],
                abs_events_of(midi, index, um).0.last().time_ms,
            ),
{
    let init = initial_state(midi.ticks_per_quarter_note);
    let first = first_note_time(midi.tracks, index, 0);
    lemma_prefix_keeps_ends(midi.tracks, index, um, first, init, index.len() as int);
    let s = timeline_prefix(midi.tracks, index, um, first, init, index.len() as int);
    let t = abs_events_of(midi, index, um).0;
    assert forall|i: int| 0 <= i < t.len() - 1 implies ends_by(
        #[trigger] t[i],
        t.last().time_ms,
    ) by {
        assert(t[i] == s.abs_events[i]);
        assert(ends_by(s.abs_events[i], s.final_ms));
    }
}

} // verus!
