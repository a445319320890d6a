use midiplay::index::{get_index_events, symmetric_cmp, IndexEvent};
use midiplay::midi::{
    EndOfTrack, Event, MetaEvent, Midi, MidiEvent, NoteOff, NoteOn, PitchWheel, ProgramChange,
    SetTempo, Text, Track, TrackEvent,
};
use midiplay::midiinfo::{track_info, InfoItem};
use midiplay::reader::parse_midi;
use midiplay::timeline::{
    get_abs_events, get_note_duration, note_on_to_note_event, AbsEvent, FinalEvent, NoteEvent,
    UnionAbsEvent, UserModification,
};
use midiplay::timing::{factor_u32, max_by, round_div, DynamicTiming, TempoFactor, Timing};
use std::cmp::Ordering;

const UNITY: TempoFactor = TempoFactor { millionths: 1_000_000 };

fn whole_piece() -> UserModification {
    UserModification { begin_ms: 0, end_ms: u32::MAX, tempo_factor: UNITY }
}

fn note_on(delta_time: u32, channel: u8, key: u8, velocity: u8) -> TrackEvent {
    TrackEvent {
        delta_time,
        event: Event::MidiEvent(MidiEvent::NoteOn(NoteOn { channel, key, velocity })),
    }
}

fn note_off(delta_time: u32, channel: u8, key: u8) -> TrackEvent {
    TrackEvent {
        delta_time,
        event: Event::MidiEvent(MidiEvent::NoteOff(NoteOff { channel, key, velocity: 0 })),
    }
}

fn set_tempo(delta_time: u32, tttttt: u32) -> TrackEvent {
    TrackEvent { delta_time, event: Event::MetaEvent(MetaEvent::SetTempo(SetTempo { tttttt })) }
}

fn end_of_track(delta_time: u32) -> TrackEvent {
    TrackEvent { delta_time, event: Event::MetaEvent(MetaEvent::EndOfTrack(EndOfTrack {})) }
}

fn midi_of(ticks_per_quarter_note: u16, tracks: Vec<Vec<TrackEvent>>) -> Midi {
    Midi {
        error: None,
        format: 1,
        ntrks: tracks.len() as u16,
        ticks_per_quarter_note,
        negative_smpte_format: 0,
        ticks_per_frame: 0,
        tracks: tracks.into_iter().map(|track_events| Track { track_events }).collect(),
    }
}

fn note(
    time_ms: u32,
    time_ms_original: u32,
    key: i16,
    velocity: i16,
    duration_ms: u32,
    duration_ms_original: u32,
) -> AbsEvent {
    AbsEvent {
        time_ms,
        time_ms_original,
        uae: UnionAbsEvent::NoteEvent(NoteEvent {
            channel: 0,
            key,
            velocity,
            duration_ms,
            duration_ms_original,
        }),
    }
}

fn final_marker(time_ms: u32, time_ms_original: u32) -> AbsEvent {
    AbsEvent { time_ms, time_ms_original, uae: UnionAbsEvent::FinalEvent(FinalEvent {}) }
}

#[test]
fn ties_compare_by_event_index() {
    let a = IndexEvent { time: 7, track: 2, tei: 3 };
    let b = IndexEvent { time: 7, track: 2, tei: 9 };
    assert_eq!(symmetric_cmp(&a, &b), Ordering::Less);
    assert_eq!(symmetric_cmp(&b, &a), Ordering::Greater);
    assert_eq!(symmetric_cmp(&a, &a), Ordering::Equal);
}

#[test]
fn order_is_by_tick_then_track_then_event() {
    let early = IndexEvent { time: 1, track: 9, tei: 9 };
    let late = IndexEvent { time: 2, track: 0, tei: 0 };
    assert_eq!(symmetric_cmp(&early, &late), Ordering::Less);
    assert_eq!(symmetric_cmp(&late, &early), Ordering::Greater);
    let low = IndexEvent { time: 2, track: 0, tei: 9 };
    let high = IndexEvent { time: 2, track: 1, tei: 0 };
    assert_eq!(symmetric_cmp(&low, &high), Ordering::Less);
    assert_eq!(symmetric_cmp(&high, &low), Ordering::Greater);
}

#[test]
fn index_events_are_merged_in_order() {
    let midi = midi_of(
        96,
        vec![
            vec![note_on(10, 0, 60, 1), note_on(10, 0, 61, 1)],
            vec![note_on(5, 1, 62, 1), note_on(10, 1, 63, 1), note_on(5, 1, 64, 1)],
        ],
    );
    let index_events = get_index_events(&midi);
    assert_eq!(
        index_events,
        vec![
            IndexEvent { time: 5, track: 1, tei: 0 },
            IndexEvent { time: 10, track: 0, tei: 0 },
            IndexEvent { time: 15, track: 1, tei: 1 },
            IndexEvent { time: 20, track: 0, tei: 1 },
            IndexEvent { time: 20, track: 1, tei: 2 },
        ]
    );
}

#[test]
fn index_events_at_one_tick_keep_their_places() {
    let midi = midi_of(
        96,
        vec![
            vec![note_on(0, 0, 60, 1), note_on(0, 0, 61, 1), note_on(0, 0, 62, 1)],
            vec![note_on(0, 1, 60, 1), note_on(0, 1, 61, 1)],
        ],
    );
    let index_events = get_index_events(&midi);
    assert_eq!(
        index_events,
        vec![
            IndexEvent { time: 0, track: 0, tei: 0 },
            IndexEvent { time: 0, track: 0, tei: 1 },
            IndexEvent { time: 0, track: 0, tei: 2 },
            IndexEvent { time: 0, track: 1, tei: 0 },
            IndexEvent { time: 0, track: 1, tei: 1 },
        ]
    );
}

#[test]
fn absolute_ticks_are_held_at_the_largest() {
    let midi = midi_of(96, vec![vec![note_on(u32::MAX - 1, 0, 60, 1), note_on(5, 0, 61, 1)]]);
    let index_events = get_index_events(&midi);
    assert_eq!(index_events[0].time, u32::MAX - 1);
    assert_eq!(index_events[1].time, u32::MAX);
    assert_eq!(get_index_events(&midi_of(96, Vec::new())), Vec::new());
}

#[test]
fn round_div_rounds_half_up() {
    assert_eq!(round_div(0, 7), Some(0));
    assert_eq!(round_div(7, 2), Some(4));
    assert_eq!(round_div(6, 4), Some(2));
    assert_eq!(round_div(5, 4), Some(1));
    assert_eq!(round_div(1, 3), Some(0));
    assert_eq!(round_div(2, 3), Some(1));
    assert_eq!(round_div(u64::MAX, u64::MAX), Some(1));
    assert_eq!(round_div(u32::MAX as u64, 1), Some(u32::MAX));
    assert_eq!(round_div(u32::MAX as u64 + 1, 1), None);
    assert_eq!(round_div(u64::MAX, 1), None);
}

#[test]
fn factor_u32_scales_and_rounds() {
    assert_eq!(factor_u32(UNITY, 12_345), (12_345, false));
    assert_eq!(factor_u32(TempoFactor { millionths: 500_000 }, 3), (2, false));
    assert_eq!(factor_u32(TempoFactor { millionths: 500_000 }, 1000), (500, false));
    assert_eq!(factor_u32(TempoFactor { millionths: 2_000_000 }, 1000), (2000, false));
    assert_eq!(factor_u32(TempoFactor { millionths: 1_499_999 }, 1), (1, false));
    assert_eq!(factor_u32(TempoFactor { millionths: 1_500_000 }, 1), (2, false));
    assert_eq!(factor_u32(TempoFactor { millionths: 0 }, 77), (0, false));
    assert_eq!(factor_u32(UNITY, u32::MAX), (u32::MAX, false));
}

#[test]
fn factor_u32_keeps_what_it_cannot_scale() {
    assert_eq!(
        factor_u32(TempoFactor { millionths: 2_000_000 }, 3_000_000_000),
        (3_000_000_000, true)
    );
    assert_eq!(factor_u32(TempoFactor { millionths: 1_000_001 }, u32::MAX), (u32::MAX, true));
    assert_eq!(factor_u32(TempoFactor { millionths: u32::MAX }, 1_000_001), (1_000_001, true));
    assert_eq!(
        factor_u32(TempoFactor { millionths: u32::MAX }, 1_000_000),
        (u32::MAX, false)
    );
    let double = TempoFactor { millionths: 2_000_000 };
    assert_eq!(factor_u32(double, 2_147_483_647), (4_294_967_294, false));
    assert_eq!(factor_u32(double, 2_147_483_648), (2_147_483_648, true));
}

#[test]
fn max_by_raises_only() {
    let mut v: u32 = 5;
    max_by(&mut v, 3);
    assert_eq!(v, 5);
    max_by(&mut v, 8);
    assert_eq!(v, 8);
}

#[test]
fn ticks_to_ms_at_the_default_tempo() {
    let timing = DynamicTiming::new(480);
    assert_eq!(timing.microseconds_per_quarter, 500_000);
    assert_eq!(timing.k_ticks_per_quarter, 480_000);
    assert_eq!(timing.ticks_to_ms(480), Some(500));
    assert_eq!(timing.ticks_to_ms(1), Some(1));
    assert_eq!(timing.ticks_to_ms(0), Some(0));
    assert_eq!(timing.abs_ticks_to_ms(960), Some(1000));
    assert_eq!(DynamicTiming::new(1).ticks_to_ms(u32::MAX), None);
    let fixed = Timing { microseconds_per_quarter: 500_000, k_ticks_per_quarter: 384_000 };
    assert_eq!(fixed.ticks_to_ms(480), Some(625));
}

#[test]
fn tempo_change_re_anchors() {
    let mut timing = DynamicTiming::new(384);
    let before = timing.ticks_to_ms(480).unwrap();
    assert_eq!(before, 625);
    let change: u32 = 1000;
    let change_ms = timing.abs_ticks_to_ms(change).unwrap();
    assert_eq!(change_ms, 1302);
    timing.set_microseconds_per_quarter(change, 1_000_000);
    assert_eq!(timing.ticks_ref, change);
    assert_eq!(timing.ms_ref, change_ms);
    assert_eq!(timing.ticks_to_ms(480), Some(2 * before));
    assert_eq!(timing.abs_ticks_to_ms(change + 480), Some(change_ms + 1250));
    assert_eq!(timing.abs_ticks_to_ms(change), Some(change_ms));
    assert_eq!(timing.abs_ticks_to_ms(change - 1), Some(change_ms));
}

#[test]
fn note_duration_ends_at_the_matching_event() {
    let midi = midi_of(
        96,
        vec![vec![
            note_on(0, 0, 60, 100),
            note_on(10, 0, 61, 100),
            note_off(10, 1, 60),
            note_on(10, 0, 60, 0),
            note_off(10, 0, 61),
            end_of_track(5),
        ]],
    );
    let index_events = get_index_events(&midi);
    let first = NoteOn { channel: 0, key: 60, velocity: 100 };
    let second = NoteOn { channel: 0, key: 61, velocity: 100 };
    assert_eq!(get_note_duration(&midi, &index_events, 0, &first), 30);
    assert_eq!(get_note_duration(&midi, &index_events, 1, &second), 30);
}

#[test]
fn note_without_an_end_sounds_to_the_last_event() {
    let midi =
        midi_of(96, vec![vec![note_on(7, 0, 60, 100), note_on(10, 0, 61, 100), end_of_track(20)]]);
    let index_events = get_index_events(&midi);
    let first = NoteOn { channel: 0, key: 60, velocity: 100 };
    assert_eq!(get_note_duration(&midi, &index_events, 0, &first), 30);
    assert_eq!(get_note_duration(&midi, &index_events, 2, &first), 0);
}

#[test]
fn note_event_carries_both_lengths() {
    let on = NoteOn { channel: 3, key: 60, velocity: 100 };
    let (note, clipped) = note_on_to_note_event(&on, 1000, TempoFactor { millionths: 250_000 });
    assert_eq!(
        note,
        NoteEvent {
            channel: 3,
            key: 60,
            velocity: 100,
            duration_ms: 250,
            duration_ms_original: 1000
        }
    );
    assert!(!clipped);
    let (note, clipped) =
        note_on_to_note_event(&on, 3_000_000_000, TempoFactor { millionths: 2_000_000 });
    assert_eq!(note.duration_ms, 3_000_000_000);
    assert_eq!(note.duration_ms_original, 3_000_000_000);
    assert!(clipped);
}

#[test]
fn end_to_end_single_note() {
    let mut data = b"MThd".to_vec();
    data.extend_from_slice(&[0, 0, 0, 6, 0, 0, 0, 1, 0x01, 0xe0]);
    let body: Vec<u8> = vec![
        0x00, 0xff, 0x51, 0x03, 0x07, 0xa1, 0x20, 0x00, 0x90, 60, 100, 0x83, 0x60, 0x90, 60, 0,
        0x00, 0xff, 0x2f, 0x00,
    ];
    data.extend_from_slice(b"MTrk");
    data.extend_from_slice(&(body.len() as u32).to_be_bytes());
    data.extend_from_slice(&body);
    let midi = parse_midi(data);
    assert!(midi.ok());
    assert_eq!(midi.format, 0);
    assert_eq!(midi.ticks_per_quarter_note, 480);
    assert_eq!(midi.tracks.len(), 1);
    assert_eq!(midi.tracks[0].track_events.len(), 4);
    assert_eq!(midi.tracks[0].track_events[2].delta_time, 480);
    let index_events = get_index_events(&midi);
    assert_eq!(index_events.len(), 4);
    assert_eq!(index_events[3], IndexEvent { time: 480, track: 0, tei: 3 });
    let (abs_events, overflow) = get_abs_events(&midi, &index_events, &whole_piece());
    assert!(!overflow);
    assert_eq!(abs_events.len(), 2);
    assert_eq!(
        abs_events[0].uae,
        UnionAbsEvent::NoteEvent(NoteEvent {
            channel: 0,
            key: 60,
            velocity: 100,
            duration_ms: 500,
            duration_ms_original: 500
        })
    );
    assert_eq!(abs_events[0].time_ms, 0);
    assert_eq!(abs_events[1].uae, UnionAbsEvent::FinalEvent(FinalEvent {}));
    assert!(abs_events[1].time_ms >= 500);
    assert_eq!(abs_events[1], final_marker(500, 0));
}

#[test]
fn times_are_counted_from_the_first_note() {
    let midi = midi_of(
        480,
        vec![vec![
            set_tempo(0, 500_000),
            note_on(960, 0, 60, 100),
            note_off(480, 0, 60),
            note_on(0, 0, 62, 90),
            note_off(240, 0, 62),
            end_of_track(0),
        ]],
    );
    let index_events = get_index_events(&midi);
    let (abs_events, overflow) = get_abs_events(&midi, &index_events, &whole_piece());
    assert!(!overflow);
    assert_eq!(
        abs_events,
        vec![
            note(0, 0, 60, 100, 500, 500),
            note(500, 500, 62, 90, 250, 250),
            final_marker(750, 500)
        ]
    );
}

#[test]
fn window_clamp_note_before_begin_is_silent_and_tempo_applies() {
    let midi = midi_of(
        480,
        vec![vec![
            note_on(0, 0, 60, 100),
            set_tempo(480, 1_000_000),
            note_off(0, 0, 60),
            note_on(480, 0, 62, 100),
            note_off(480, 0, 62),
            end_of_track(0),
        ]],
    );
    let index_events = get_index_events(&midi);
    let window = UserModification { begin_ms: 1000, end_ms: u32::MAX, tempo_factor: UNITY };
    let (abs_events, overflow) = get_abs_events(&midi, &index_events, &window);
    assert!(!overflow);
    assert_eq!(
        abs_events,
        vec![note(500, 1500, 62, 100, 1000, 1000), final_marker(1500, 1500)]
    );
}

#[test]
fn commands_before_begin_are_held_at_begin() {
    let midi = midi_of(
        480,
        vec![vec![
            TrackEvent {
                delta_time: 0,
                event: Event::MidiEvent(MidiEvent::ProgramChange(ProgramChange {
                    channel: 2,
                    program: 40,
                })),
            },
            note_on(0, 0, 60, 100),
            TrackEvent {
                delta_time: 960,
                event: Event::MidiEvent(MidiEvent::PitchWheel(PitchWheel {
                    channel: 2,
                    bend: 0x2000,
                })),
            },
            end_of_track(0),
        ]],
    );
    let index_events = get_index_events(&midi);
    let window = UserModification { begin_ms: 400, end_ms: u32::MAX, tempo_factor: UNITY };
    let (abs_events, _) = get_abs_events(&midi, &index_events, &window);
    assert_eq!(abs_events.len(), 3);
    assert_eq!(abs_events[0].time_ms, 400);
    assert_eq!(abs_events[0].time_ms_original, 0);
    assert_eq!(
        abs_events[0].uae,
        UnionAbsEvent::ProgramChange(midiplay::timeline::ProgramChange { channel: 2, program: 40 })
    );
    assert_eq!(abs_events[1].time_ms, 600);
    assert_eq!(abs_events[1].time_ms_original, 1000);
    assert_eq!(
        abs_events[1].uae,
        UnionAbsEvent::PitchWheel(midiplay::timeline::PitchWheel { channel: 2, bend: 0x2000 })
    );
    assert_eq!(abs_events[2], final_marker(600, 1000));
}

#[test]
fn events_behind_the_end_are_dropped() {
    let midi = midi_of(
        480,
        vec![vec![
            note_on(0, 0, 60, 100),
            note_off(480, 0, 60),
            note_on(480, 0, 62, 100),
            note_off(480, 0, 62),
            end_of_track(0),
        ]],
    );
    let index_events = get_index_events(&midi);
    let window = UserModification { begin_ms: 0, end_ms: 999, tempo_factor: UNITY };
    let (abs_events, _) = get_abs_events(&midi, &index_events, &window);
    assert_eq!(abs_events, vec![note(0, 0, 60, 100, 500, 500), final_marker(500, 0)]);
    let window = UserModification { begin_ms: 0, end_ms: 1000, tempo_factor: UNITY };
    let (abs_events, _) = get_abs_events(&midi, &index_events, &window);
    assert_eq!(abs_events.len(), 3);
}

#[test]
fn tempo_factor_scales_times_and_lengths() {
    let midi = midi_of(
        480,
        vec![vec![
            note_on(0, 0, 60, 100),
            note_off(480, 0, 60),
            note_on(480, 0, 62, 100),
            note_off(480, 0, 62),
            end_of_track(0),
        ]],
    );
    let index_events = get_index_events(&midi);
    let window = UserModification {
        begin_ms: 0,
        end_ms: u32::MAX,
        tempo_factor: TempoFactor { millionths: 500_000 },
    };
    let (abs_events, overflow) = get_abs_events(&midi, &index_events, &window);
    assert!(!overflow);
    assert_eq!(
        abs_events,
        vec![
            note(0, 0, 60, 100, 250, 500),
            note(500, 1000, 62, 100, 250, 500),
            final_marker(750, 1000)
        ]
    );
}

#[test]
fn overflow_is_reported_and_the_time_kept() {
    let midi = midi_of(
        480,
        vec![vec![
            note_on(0, 0, 60, 100),
            note_on(1_920_000, 0, 62, 100),
            note_off(480, 0, 62),
            end_of_track(0),
        ]],
    );
    let index_events = get_index_events(&midi);
    let factor = TempoFactor { millionths: u32::MAX };
    let window = UserModification { begin_ms: 0, end_ms: u32::MAX, tempo_factor: factor };
    let (abs_events, overflow) = get_abs_events(&midi, &index_events, &window);
    assert!(overflow);
    assert_eq!(
        abs_events,
        vec![
            note(0, 0, 60, 100, 2_000_500, 2_000_500),
            note(2_000_000, 2_000_000, 62, 100, 2_147_484, 500),
            final_marker(4_147_484, 2_000_000)
        ]
    );
    let window = UserModification { begin_ms: 999_999, ..window };
    let (abs_events, overflow) = get_abs_events(&midi, &index_events, &window);
    assert!(overflow);
    assert_eq!(abs_events[0], note(1_000_001, 2_000_000, 62, 100, 2_147_484, 500));
}

#[test]
fn lengths_above_the_largest_are_reported_and_held() {
    let midi = midi_of(
        1,
        vec![vec![note_on(0, 0, 60, 100), note_off(u32::MAX, 0, 60), end_of_track(0)]],
    );
    let index_events = get_index_events(&midi);
    let window = UserModification { begin_ms: 0, end_ms: u32::MAX, tempo_factor: UNITY };
    let (abs_events, overflow) = get_abs_events(&midi, &index_events, &window);
    assert!(overflow);
    assert_eq!(
        abs_events,
        vec![note(0, 0, 60, 100, u32::MAX, u32::MAX), final_marker(u32::MAX, 0)]
    );
}

#[test]
fn empty_file_gives_the_final_marker_alone() {
    let midi = midi_of(480, Vec::new());
    let index_events = get_index_events(&midi);
    let window = UserModification { begin_ms: 250, end_ms: 1000, tempo_factor: UNITY };
    let (abs_events, overflow) = get_abs_events(&midi, &index_events, &window);
    assert!(!overflow);
    assert_eq!(abs_events, vec![final_marker(250, 0)]);
}

#[test]
fn track_info_tells_names_and_program_changes() {
    let pc = |delta_time: u32, channel: u8, program: u8| TrackEvent {
        delta_time,
        event: Event::MidiEvent(MidiEvent::ProgramChange(ProgramChange { channel, program })),
    };
    let track = Track {
        track_events: vec![
            TrackEvent {
                delta_time: 0,
                event: Event::MetaEvent(MetaEvent::Text(Text { name: String::from("hello") })),
            },
            pc(0, 1, 5),
            pc(0, 1, 5),
            note_on(0, 1, 60, 1),
            pc(0, 1, 6),
            pc(0, 1, 5),
            end_of_track(0),
        ],
    };
    assert_eq!(
        track_info(&track),
        vec![
            InfoItem::Name(String::from("hello")),
            InfoItem::Program(ProgramChange { channel: 1, program: 5 }),
            InfoItem::Program(ProgramChange { channel: 1, program: 6 }),
            InfoItem::Program(ProgramChange { channel: 1, program: 5 }),
        ]
    );
}
