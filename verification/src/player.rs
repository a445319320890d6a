//! A playback from a decoded file: the timeline is built, and the scheduler
//! is set up and armed.

use vstd::prelude::*;
use crate::index::{get_index_events, merged_stream};
use crate::midi::Midi;
use crate::scheduler::{arm, CallbackData, EngineCommand};
use crate::sequencer::SequencerControl;
use crate::timeline::{abs_events_of, get_abs_events, UserModification};
use crate::timing::{TempoFactor, Timing};
use crate::util::clamp_u32;

verus! {

/// A playback that has been set up.
pub struct Playback {
    /// The state of the scheduler, armed.
    pub callback_data: CallbackData,
    /// The commands that begin the playback: the first wake-ups.
    pub commands: Vec<EngineCommand>,
    /// Whether a time or a length of the timeline was above the largest
    /// `u32`, so that another stands in its place.
    pub overflow: bool,
}

/// The engine time of the first wake-up of a playback that is set up at
/// engine time `t0`: `t0` taken as ticks of the file and converted to
/// milliseconds at half a second to the quarter note, held at the largest
/// `u32`.
pub open spec fn first_wake_up(ticks_per_quarter_note: u16, t0: u32) -> u32 {
    clamp_u32(
        (Timing {
            microseconds_per_quarter: 500_000,
            k_ticks_per_quarter: (1000 * ticks_per_quarter_note) as u64,
        }).ticks_ms(t0 as int),
    )
}

/// Sets up the playback of a file from `begin` to `end`, in milliseconds of
/// the piece, with time multiplied by `tempo_factor`, at engine time `t0`.
///
/// The timeline is that of the merged stream of the file. The scheduler
/// begins with nothing issued and is armed: the first wake-up for a batch
/// is scheduled, and one to show progress where `progress` asks for it.
/// A file without ticks in a quarter note cannot be played: the result is
/// `None`.
pub fn play(
    seq_ctl: SequencerControl,
    parsed_midi: &Midi,
    begin: u32,
    end: u32,
    tempo_factor: TempoFactor,
    progress: bool,
    t0: u32,
) -> (r: Option<Playback>)
    ensures
        parsed_midi.ticks_per_quarter_note == 0 <==> r is None,
        r matches Some(p) ==> {
            let user_mod = UserModification { begin_ms: begin, end_ms: end, tempo_factor };
            let timeline = abs_events_of(
                parsed_midi@,
                merged_stream(parsed_midi@.tracks),
                user_mod,
            );
            let at_ms = first_wake_up(parsed_midi.ticks_per_quarter_note, t0);
            &&& p.callback_data.wf()
            &&& p.callback_data.abs_events@ == timeline.0
            &&& p.overflow == timeline.1
            &&& p.callback_data.seq_ctl == seq_ctl
            &&& p.callback_data.user_mod == user_mod
            &&& p.callback_data.next_abs_event == 0
            &&& p.callback_data.phase is Armed
            &&& !p.callback_data.clock_set
            &&& !p.callback_data.sending_events
            &&& !p.callback_data.final_callback_handled
            &&& p.commands@ == if progress {
                seq![
                    EngineCommand::ScheduleBatch { at_ms },
                    EngineCommand::ScheduleProgress { at_ms },
                ]
            } else {
                seq![EngineCommand::ScheduleBatch { at_ms }]
            }
        },
{
    if parsed_midi.ticks_per_quarter_note == 0 {
        return None;
    }
    let index_events = get_index_events(parsed_midi);
    let user_mod = UserModification { begin_ms: begin, end_ms: end, tempo_factor };
    let (abs_events, overflow) = get_abs_events(parsed_midi, &index_events, &user_mod);
    let timing = Timing {
        microseconds_per_quarter: 500_000,
        k_ticks_per_quarter: 1000 * (parsed_midi.ticks_per_quarter_note as u64),
    };
    let t0_ms: u32 = match timing.ticks_to_ms(t0) {
        Some(v) => v,
        None => u32::MAX,
    };
    proof {
        crate::timing::lemma_round_div_nonnegative(
            t0 * timing.microseconds_per_quarter,
            timing.k_ticks_per_quarter as int,
        );
    }
    let mut callback_data = CallbackData::new(seq_ctl, abs_events, user_mod);
    let commands = arm(&mut callback_data, t0_ms, progress);
    Some(Playback { callback_data, commands, overflow })
}

} // verus!
