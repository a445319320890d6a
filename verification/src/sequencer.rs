//! What the scheduler keeps of the sound engine: the names under which its
//! clients are registered, and the times that govern the batches.

use vstd::prelude::*;

verus! {

/// The plain values of one sequencer of the sound engine. The engine's own
/// objects are held by whoever talks to the engine.
#[derive(Clone, Copy, Debug, PartialEq, Eq, Structural)]
pub struct SequencerControl {
    /// The client that plays notes.
    pub synth_seq_id: i16,
    /// The sound font in use; negative while none is loaded.
    pub sfont_id: i32,
    /// The client that is woken for each batch.
    pub periodic_seq_id: i16,
    /// The client that is woken when playback has ended.
    pub final_seq_id: i16,
    /// The client that is woken to show progress.
    pub progress_seq_id: i16,
    /// The span of engine time that one batch covers, in milliseconds.
    pub batch_duration_ms: u32,
    /// The time between the first wake-up and the start of the timeline.
    pub initial_delay_ms: u32,
    /// The engine time on which millisecond 0 of the timeline falls. It is
    /// set at the first wake-up.
    pub add_ms: u32,
}

/// The values of a sequencer before anything is registered or loaded.
pub fn create_sequencer(batch_duration_ms: u32, initial_delay_ms: u32) -> (sequencer:
    SequencerControl)
    ensures
        sequencer == (SequencerControl {
            synth_seq_id: 0,
            sfont_id: -1i32,
            periodic_seq_id: 0,
            final_seq_id: 0,
            progress_seq_id: 0,
            batch_duration_ms,
            initial_delay_ms,
            add_ms: 0,
        }),
{
    SequencerControl {
        synth_seq_id: 0,
        sfont_id: -1,
        periodic_seq_id: 0,
        final_seq_id: 0,
        progress_seq_id: 0,
        batch_duration_ms,
        initial_delay_ms,
        add_ms: 0,
    }
}

} // verus!
