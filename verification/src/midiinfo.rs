//! What a file tells of itself: the texts and the instrument programs of
//! each track.

use vstd::prelude::*;
use crate::midi::{
    Event, EventView, MetaEvent, MetaEventView, MidiEvent, ProgramChange, Track, TrackEventView,
};

verus! {

/// One thing that a track tells of itself.
#[derive(Clone, Debug, PartialEq, Eq)]
pub enum InfoItem {
    /// A text, a copyright notice, the name of the track or of an
    /// instrument.
    Name(String),
    /// An instrument program that a channel selects.
    Program(ProgramChange),
}

/// What an [`InfoItem`] holds.
pub enum InfoItemView {
    Name(Seq<char>),
    Program(ProgramChange),
}

impl View for InfoItem {
    type V = InfoItemView;

    open spec fn view(&self) -> InfoItemView {
        match *self {
            InfoItem::Name(name) => InfoItemView::Name(name@),
            InfoItem::Program(pc) => InfoItemView::Program(pc),
        }
    }
}

/// The items of a list, each by what it holds.
pub open spec fn info_views(items: Seq<InfoItem>) -> Seq<InfoItemView> {
    Seq::new(items.len(), |i: int| items[i]@)
}

/// What the first `n` events of a track tell, and the program change that
/// was told last. Texts, copyright notices, track names and instrument
/// names are told each time. A program change is told unless it repeats
/// the one told last.
pub open spec fn track_info_prefix(events: Seq<TrackEventView>, n: int) -> (
    Seq<InfoItemView>,
    Option<ProgramChange>,
)
    decreases n,
{
    if n <= 0 {
        (Seq::empty(), None)
    } else {
        let (items, last) = track_info_prefix(events, n - 1);
        match events[n - 1].event {
            EventView::MetaEvent(MetaEventView::Text(name)) => (
                items.push(InfoItemView::Name(name)),
                last,
            ),
            EventView::MetaEvent(MetaEventView::Copyright(name)) => (
                items.push(InfoItemView::Name(name)),
                last,
            ),
            EventView::MetaEvent(MetaEventView::SequenceTrackName(name)) => (
                items.push(InfoItemView::Name(name)),
                last,
            ),
            EventView::MetaEvent(MetaEventView::InstrumentName(name)) => (
                items.push(InfoItemView::Name(name)),
                last,
            ),
            EventView::MidiEvent(MidiEvent::ProgramChange(pc)) => if last != Some(pc) {
                (items.push(InfoItemView::Program(pc)), Some(pc))
            } else {
                (items, last)
            },
            _ => (items, last),
        }
    }
}

/// Gathers what a track tells of itself, in the order of its events.
pub fn track_info(track: &Track) -> (items: Vec<InfoItem>)
    ensures
        info_views(items@) == track_info_prefix(track@, track@.len() as int).0,
{
    let mut items: Vec<InfoItem> = Vec::new();
    let mut pc_seen = false;
    let mut pc_last = ProgramChange { channel: 0, program: 0 };
    let n: usize = track.track_events.len();
    let mut i: usize = 0;
    assert(info_views(items@) =~= Seq::<InfoItemView>::empty());
    while i < n
        invariant
            i <= n == track.track_events@.len(),
            info_views(items@) == track_info_prefix(track@, i as int).0,
            track_info_prefix(track@, i as int).1 == if pc_seen {
                Some(pc_last)
            } else {
                None::<ProgramChange>
            },
        decreases n - i,
    {
        let ghost before = info_views(items@);
        assert(track@[i as int] == track.track_events@[i as int]@);
        match &track.track_events[i].event {
            Event::MetaEvent(me) => {
                match me {
                    MetaEvent::Text(t) => {
                        items.push(InfoItem::Name(t.name.clone()));
                        assert(info_views(items@) =~= before.push(InfoItemView::Name(t.name@)));
                    },
                    MetaEvent::Copyright(t) => {
                        items.push(InfoItem::Name(t.name.clone()));
                        assert(info_views(items@) =~= before.push(InfoItemView::Name(t.name@)));
                    },
                    MetaEvent::SequenceTrackName(t) => {
                        items.push(InfoItem::Name(t.name.clone()));
                        assert(info_views(items@) =~= before.push(InfoItemView::Name(t.name@)));
                    },
                    MetaEvent::InstrumentName(t) => {
                        items.push(InfoItem::Name(t.name.clone()));
                        assert(info_views(items@) =~= before.push(InfoItemView::Name(t.name@)));
                    },
                    _ => {},
                }
            },
            Event::MidiEvent(me) => {
                match me {
                    MidiEvent::ProgramChange(pc) => {
                        if !pc_seen || pc_last.channel != pc.channel || pc_last.program
                            != pc.program {
                            items.push(InfoItem::Program(*pc));
                            assert(info_views(items@) =~= before.push(InfoItemView::Program(*pc)));
                            pc_seen = true;
                            pc_last = *pc;
                        }
                    },
                    _ => {},
                }
            },
            _ => {},
        }
        i += 1;
    }
    items
}

} // verus!
