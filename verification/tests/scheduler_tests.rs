use midiplay::midi::{
    EndOfTrack, Event, MetaEvent, Midi, MidiEvent, NoteOff, NoteOn, Track, TrackEvent,
};
use midiplay::player::play;
use midiplay::scheduler::{
    arm, batch_delivered, final_callback, handle_next_batch_events, periodic_callback,
    progress_callback, send_next_batch_events, CallbackData, EngineCommand, Phase,
};
use midiplay::sequencer::{create_sequencer, SequencerControl};
use midiplay::timeline::{AbsEvent, FinalEvent, NoteEvent, UnionAbsEvent, UserModification};
use midiplay::timing::TempoFactor;

const UNITY: TempoFactor = TempoFactor { millionths: 1_000_000 };

fn note(time_ms: u32, key: i16) -> AbsEvent {
    AbsEvent {
        time_ms,
        time_ms_original: time_ms,
        uae: UnionAbsEvent::NoteEvent(NoteEvent {
            channel: 0,
            key,
            velocity: 100,
            duration_ms: 300,
            duration_ms_original: 300,
        }),
    }
}

fn final_marker(time_ms: u32, time_ms_original: u32) -> AbsEvent {
    AbsEvent { time_ms, time_ms_original, uae: UnionAbsEvent::FinalEvent(FinalEvent {}) }
}

fn note_command(key: i16, at_ms: u32) -> EngineCommand {
    EngineCommand::Note { channel: 0, key, velocity: 100, duration_ms: 300, at_ms }
}

fn playback(abs_events: Vec<AbsEvent>) -> CallbackData {
    let user_mod = UserModification { begin_ms: 0, end_ms: u32::MAX, tempo_factor: UNITY };
    CallbackData::new(create_sequencer(10_000, 200), abs_events, user_mod)
}

fn sample() -> Vec<AbsEvent> {
    vec![note(0, 60), note(5_000, 61), note(20_000, 62), final_marker(21_000, 20_000)]
}

#[test]
fn create_sequencer_sets_the_times() {
    assert_eq!(
        create_sequencer(10_000, 200),
        SequencerControl {
            synth_seq_id: 0,
            sfont_id: -1,
            periodic_seq_id: 0,
            final_seq_id: 0,
            progress_seq_id: 0,
            batch_duration_ms: 10_000,
            initial_delay_ms: 200,
            add_ms: 0,
        }
    );
}

#[test]
fn arm_schedules_the_first_wake_ups_once() {
    let mut cb = playback(sample());
    assert_eq!(cb.phase, Phase::Idle);
    assert_eq!(
        arm(&mut cb, 77, true),
        vec![
            EngineCommand::ScheduleBatch { at_ms: 77 },
            EngineCommand::ScheduleProgress { at_ms: 77 }
        ]
    );
    assert_eq!(cb.phase, Phase::Armed);
    assert_eq!(arm(&mut cb, 99, true), Vec::new());
    let mut cb = playback(sample());
    assert_eq!(arm(&mut cb, 5, false), vec![EngineCommand::ScheduleBatch { at_ms: 5 }]);
}

#[test]
fn periodic_does_nothing_before_playback_is_armed() {
    let mut cb = playback(sample());
    assert_eq!(periodic_callback(&mut cb, 1_000), Vec::new());
    assert_eq!(cb.next_abs_event, 0);
    assert_eq!(cb.phase, Phase::Idle);
    assert!(!cb.sending_events);
}

#[test]
fn batches_follow_the_window() {
    let mut cb = playback(sample());
    arm(&mut cb, 0, false);
    assert_eq!(
        periodic_callback(&mut cb, 1_000),
        vec![
            note_command(60, 1_200),
            note_command(61, 6_200),
            EngineCommand::ScheduleBatch { at_ms: 6_000 }
        ]
    );
    assert_eq!(cb.seq_ctl.add_ms, 1_200);
    assert_eq!(cb.next_abs_event, 2);
    assert_eq!(cb.phase, Phase::Armed);
    assert!(cb.sending_events);
    assert!(!cb.all_events_sent());

    assert_eq!(periodic_callback(&mut cb, 6_000), Vec::new());
    assert_eq!(cb.next_abs_event, 2);
    batch_delivered(&mut cb);
    assert!(!cb.sending_events);

    assert_eq!(
        periodic_callback(&mut cb, 6_000),
        vec![EngineCommand::ScheduleBatch { at_ms: 11_000 }]
    );
    batch_delivered(&mut cb);
    assert_eq!(
        periodic_callback(&mut cb, 11_199),
        vec![EngineCommand::ScheduleBatch { at_ms: 16_199 }]
    );
    batch_delivered(&mut cb);
    assert_eq!(
        periodic_callback(&mut cb, 11_200),
        vec![note_command(62, 21_200), EngineCommand::ScheduleBatch { at_ms: 16_200 }]
    );
    assert_eq!(cb.seq_ctl.add_ms, 1_200);
    batch_delivered(&mut cb);
    assert_eq!(
        periodic_callback(&mut cb, 16_200),
        vec![EngineCommand::UnregisterPeriodic, EngineCommand::Final { at_ms: 22_200 }]
    );
    assert_eq!(cb.phase, Phase::Draining);
    assert!(cb.all_events_sent());
    batch_delivered(&mut cb);
    assert_eq!(periodic_callback(&mut cb, 20_000), Vec::new());
    assert_eq!(cb.phase, Phase::Draining);
}

#[test]
fn no_command_waits_behind_a_later_one() {
    let mut cb =
        playback(vec![note(15_000, 59), note(0, 60), note(20_000, 62), final_marker(21_000, 0)]);
    arm(&mut cb, 0, false);
    assert_eq!(
        periodic_callback(&mut cb, 1_000),
        vec![
            note_command(59, 16_200),
            note_command(60, 1_200),
            EngineCommand::ScheduleBatch { at_ms: 6_000 }
        ]
    );
    assert_eq!(cb.next_abs_event, 2);
}

#[test]
fn the_first_wake_up_fixes_the_clock() {
    let mut cb = playback(vec![note(50_000, 60), final_marker(50_300, 50_000)]);
    arm(&mut cb, 0, false);
    assert!(!cb.clock_set);
    assert_eq!(
        periodic_callback(&mut cb, 1_000),
        vec![EngineCommand::ScheduleBatch { at_ms: 6_000 }]
    );
    assert!(cb.clock_set);
    assert_eq!(cb.seq_ctl.add_ms, 1_200);
    assert_eq!(cb.next_abs_event, 0);
    batch_delivered(&mut cb);
    assert_eq!(
        periodic_callback(&mut cb, 41_199),
        vec![EngineCommand::ScheduleBatch { at_ms: 46_199 }]
    );
    batch_delivered(&mut cb);
    assert_eq!(
        periodic_callback(&mut cb, 41_200),
        vec![note_command(60, 51_200), EngineCommand::ScheduleBatch { at_ms: 46_200 }]
    );
    assert_eq!(cb.seq_ctl.add_ms, 1_200);
}

#[test]
fn one_batch_can_hold_everything() {
    let user_mod = UserModification { begin_ms: 0, end_ms: u32::MAX, tempo_factor: UNITY };
    let mut cb = CallbackData::new(create_sequencer(u32::MAX, 7), sample(), user_mod);
    let (commands, final_event) = send_next_batch_events(&mut cb, 100);
    assert!(final_event);
    assert_eq!(cb.seq_ctl.add_ms, 107);
    assert_eq!(
        commands,
        vec![
            note_command(60, 107),
            note_command(61, 5_107),
            note_command(62, 20_107),
            EngineCommand::UnregisterPeriodic,
            EngineCommand::Final { at_ms: 21_107 }
        ]
    );
    assert_eq!(cb.next_abs_event, 4);
    assert_eq!(cb.phase, Phase::Idle);
    let (commands, final_event) = send_next_batch_events(&mut cb, 200);
    assert_eq!(commands, Vec::new());
    assert!(!final_event);
    assert_eq!(cb.seq_ctl.add_ms, 107);
}

#[test]
fn re_entrant_batch_is_a_no_op() {
    let mut cb = playback(sample());
    arm(&mut cb, 0, false);
    let (commands, final_event) = handle_next_batch_events(&mut cb, 0);
    assert_eq!(commands, vec![note_command(60, 200), note_command(61, 5_200)]);
    assert!(!final_event);
    assert!(cb.sending_events);
    let (commands, final_event) = handle_next_batch_events(&mut cb, 50_000);
    assert_eq!(commands, Vec::new());
    assert!(!final_event);
    assert_eq!(cb.next_abs_event, 2);
    batch_delivered(&mut cb);
    let (commands, final_event) = handle_next_batch_events(&mut cb, 50_000);
    assert_eq!(
        commands,
        vec![
            note_command(62, 20_200),
            EngineCommand::UnregisterPeriodic,
            EngineCommand::Final { at_ms: 21_200 }
        ]
    );
    assert!(final_event);
    assert_eq!(cb.phase, Phase::Draining);
}

#[test]
fn completion_is_signalled_once() {
    let mut cb = playback(vec![note(0, 60), final_marker(300, 0)]);
    arm(&mut cb, 0, false);
    periodic_callback(&mut cb, 30_000);
    assert_eq!(cb.phase, Phase::Draining);
    assert!(final_callback(&mut cb));
    assert_eq!(cb.phase, Phase::Complete);
    assert!(cb.final_callback_handled);
    assert!(!final_callback(&mut cb));
    assert!(!final_callback(&mut cb));
    assert_eq!(cb.phase, Phase::Complete);
    assert!(cb.final_callback_handled);
    batch_delivered(&mut cb);
    assert_eq!(periodic_callback(&mut cb, 40_000), Vec::new());
}

#[test]
fn progress_is_shown_in_the_time_of_the_piece() {
    let user_mod = UserModification {
        begin_ms: 1_000,
        end_ms: u32::MAX,
        tempo_factor: TempoFactor { millionths: 500_000 },
    };
    let mut cb = CallbackData::new(
        create_sequencer(10_000, 200),
        vec![note(0, 60), final_marker(9_500, 20_000)],
        user_mod,
    );
    arm(&mut cb, 0, true);
    periodic_callback(&mut cb, 1_000);
    assert_eq!(cb.seq_ctl.add_ms, 1_200);
    assert_eq!(
        progress_callback(&cb, 1_100),
        vec![EngineCommand::ScheduleProgress { at_ms: 1_200 }]
    );
    assert_eq!(
        progress_callback(&cb, 3_201),
        vec![
            EngineCommand::ShowProgress { done_ms: 5_002, total_ms: 20_000 },
            EngineCommand::ScheduleProgress { at_ms: 3_301 }
        ]
    );
    assert_eq!(
        progress_callback(&cb, 10_700),
        vec![
            EngineCommand::ShowProgress { done_ms: 20_000, total_ms: 20_000 },
            EngineCommand::ScheduleProgress { at_ms: 10_800 }
        ]
    );
    assert_eq!(
        progress_callback(&cb, 10_701),
        vec![EngineCommand::ScheduleProgress { at_ms: 10_801 }]
    );
    assert_eq!(
        progress_callback(&cb, u32::MAX),
        vec![EngineCommand::ScheduleProgress { at_ms: u32::MAX }]
    );
    final_callback(&mut cb);
    assert_eq!(progress_callback(&cb, 3_200), Vec::new());
    assert_eq!(progress_callback(&playback(Vec::new()), 3_200), Vec::new());
}

#[test]
fn engine_times_are_held_at_the_largest() {
    let mut cb = playback(vec![note(5, 60), final_marker(305, 5)]);
    arm(&mut cb, 0, false);
    assert_eq!(
        periodic_callback(&mut cb, u32::MAX - 100),
        vec![
            note_command(60, u32::MAX),
            EngineCommand::UnregisterPeriodic,
            EngineCommand::Final { at_ms: u32::MAX }
        ]
    );
    assert_eq!(cb.seq_ctl.add_ms, u32::MAX);
}

#[test]
fn play_builds_the_timeline_and_arms() {
    let on = TrackEvent {
        delta_time: 0,
        event: Event::MidiEvent(MidiEvent::NoteOn(NoteOn { channel: 0, key: 60, velocity: 100 })),
    };
    let off = TrackEvent {
        delta_time: 480,
        event: Event::MidiEvent(MidiEvent::NoteOff(NoteOff { channel: 0, key: 60, velocity: 0 })),
    };
    let end = TrackEvent {
        delta_time: 0,
        event: Event::MetaEvent(MetaEvent::EndOfTrack(EndOfTrack {})),
    };
    let mut midi = Midi {
        error: None,
        format: 0,
        ntrks: 1,
        ticks_per_quarter_note: 480,
        negative_smpte_format: 0,
        ticks_per_frame: 0,
        tracks: vec![Track { track_events: vec![on, off, end] }],
    };
    let p = play(create_sequencer(10_000, 200), &midi, 0, u32::MAX, UNITY, true, 960).unwrap();
    assert!(!p.overflow);
    assert_eq!(
        p.commands,
        vec![
            EngineCommand::ScheduleBatch { at_ms: 1_000 },
            EngineCommand::ScheduleProgress { at_ms: 1_000 }
        ]
    );
    assert_eq!(p.callback_data.phase, Phase::Armed);
    assert_eq!(p.callback_data.next_abs_event, 0);
    assert_eq!(p.callback_data.abs_events.len(), 2);
    assert_eq!(p.callback_data.abs_events[1], final_marker(500, 0));
    midi.ticks_per_quarter_note = 0;
    assert!(play(create_sequencer(10_000, 200), &midi, 0, u32::MAX, UNITY, true, 960).is_none());
}
