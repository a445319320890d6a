//! Standard MIDI File decoding and playback scheduling.
//!
//! The crate turns the bytes of a Standard MIDI File into tracks of events,
//! merges the tracks into one stream ordered by tick, converts that stream
//! into a millisecond timeline under the tempo changes of the file, and
//! decides batch by batch which commands a sound engine is to receive.

pub mod decode;
pub mod events;
pub mod index;
pub mod midi;
pub mod midiinfo;
pub mod player;
pub mod reader;
pub mod scheduler;
pub mod sequencer;
pub mod timecode;
pub mod timeline;
pub mod timing;
pub mod util;
