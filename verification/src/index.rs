//! The merge of all tracks into one stream of event references, ordered by
//! absolute tick.

use std::cmp::Ordering;
use vstd::prelude::*;
use crate::midi::{Midi, TrackEventView};
use crate::util::clamp_u32;

verus! {

/// A reference to one event of a file with the tick at which it happens.
/// It names the event by track and place; it holds nothing of it.
#[derive(Clone, Copy, Debug, PartialEq, Eq, Structural)]
pub struct IndexEvent {
    /// Ticks from the start of the track to the event.
    pub time: u32,
    /// The place of the track in the file.
    pub track: usize,
    /// The place of the event in its track.
    pub tei: usize,
}

/// The order of the merged stream: by tick, among equal ticks by track,
/// among events of one track at one tick by their place in the track.
pub open spec fn index_lt(e0: IndexEvent, e1: IndexEvent) -> bool {
    e0.time < e1.time || (e0.time == e1.time && (e0.track < e1.track || (e0.track == e1.track
        && e0.tei < e1.tei)))
}

/// Whether no element of the sequence is above a later one.
pub open spec fn ascending(s: Seq<IndexEvent>) -> bool {
    forall|i: int, j: int| 0 <= i < j < s.len() ==> !index_lt(s[j], s[i])
}

/// Compares two references in the order of the merged stream.
pub fn symmetric_cmp(e0: &IndexEvent, e1: &IndexEvent) -> (ord: Ordering)
    ensures
        ord == Ordering::Less <==> index_lt(*e0, *e1),
        ord == Ordering::Greater <==> index_lt(*e1, *e0),
        ord == Ordering::Equal <==> *e0 == *e1,
{
    let mut ord = Ordering::Equal;
    if e0.time == e1.time {
        if e0.track == e1.track {
            if e0.tei < e1.tei {
                ord = Ordering::Less;
            } else if e0.tei > e1.tei {
                ord = Ordering::Greater;
            }
        } else if e0.track < e1.track {
            ord = Ordering::Less;
        } else {
            ord = Ordering::Greater;
        }
    } else if e0.time < e1.time {
        ord = Ordering::Less;
    } else {
        ord = Ordering::Greater;
    }
    ord
}

/// The order is a strict total order: no reference is below itself, of two
/// different references exactly one is below the other, and below carries
/// over a reference in between.
pub proof fn lemma_index_order_total(a: IndexEvent, b: IndexEvent, c: IndexEvent)
    ensures
        !index_lt(a, a),
        a != b ==> (index_lt(a, b) <==> !index_lt(b, a)),
        a == b ==> !index_lt(a, b),
        index_lt(a, b) && index_lt(b, c) ==> index_lt(a, c),
{
}

/// Two references to the same track at the same tick are ordered by their
/// place in the track, whichever of them is named first.
pub proof fn lemma_ties_ordered_by_event_index(e0: IndexEvent, e1: IndexEvent)
    requires
        e0.time == e1.time,
        e0.track == e1.track,
        e0.tei != e1.tei,
    ensures
        index_lt(e0, e1) <==> e0.tei < e1.tei,
        index_lt(e1, e0) <==> e1.tei < e0.tei,
        index_lt(e0, e1) != index_lt(e1, e0),
{
}

/// In an ascending sequence, of two references to the same track at the
/// same tick the one with the lower place in the track stands first,
/// wherever the two stood before the sequence was ordered.
pub proof fn lemma_ascending_ties(s: Seq<IndexEvent>, i: int, j: int)
    requires
        ascending(s),
        0 <= i < s.len(),
        0 <= j < s.len(),
        s[i].time == s[j].time,
        s[i].track == s[j].track,
        s[i].tei < s[j].tei,
    ensures
        i < j,
{
    if j < i {
        assert(!index_lt(s[i], s[j]));
    }
}

/// The ticks that the first `n` events of a track take together.
pub open spec fn tick_sum(events: Seq<TrackEventView>, n: int) -> int
    decreases n,
{
    if n <= 0 {
        0
    } else {
        tick_sum(events, n - 1) + events[n - 1].delta_time
    }
}

/// The absolute tick of event `i` of a track: the sum of the delta times
/// up to and with its own, held at the largest `u32` where the sum is above.
pub open spec fn absolute_tick(events: Seq<TrackEventView>, i: int) -> u32 {
    clamp_u32(tick_sum(events, i + 1))
}

/// The references to the events of track `ti`, in the order of the track.
pub open spec fn track_index_events(tracks: Seq<Seq<TrackEventView>>, ti: int) -> Seq<
    IndexEvent,
> {
    Seq::new(
        tracks[ti].len(),
        |i: int|
            IndexEvent {
                time: absolute_tick(tracks[ti], i),
                track: ti as usize,
                tei: i as usize,
            },
    )
}

/// The references to the events of the first `n` tracks, track behind track.
pub open spec fn merged_index_events(tracks: Seq<Seq<TrackEventView>>, n: int) -> Seq<IndexEvent>
    decreases n,
{
    if n <= 0 {
        Seq::empty()
    } else {
        merged_index_events(tracks, n - 1) + track_index_events(tracks, n - 1)
    }
}

/// Whether `e` refers to an event of `tracks` and holds its absolute tick.
pub open spec fn index_event_in(tracks: Seq<Seq<TrackEventView>>, e: IndexEvent) -> bool {
    &&& e.track < tracks.len()
    &&& e.tei < tracks[e.track as int].len()
    &&& e.time == absolute_tick(tracks[e.track as int], e.tei as int)
}

/// Every reference among those of the first `n` tracks refers to an event
/// of one of them.
pub proof fn lemma_merged_members(tracks: Seq<Seq<TrackEventView>>, n: int, e: IndexEvent)
    requires
        0 <= n <= tracks.len() <= usize::MAX,
        forall|t: int| 0 <= t < tracks.len() ==> (#[trigger] tracks[t]).len() <= usize::MAX,
        merged_index_events(tracks, n).contains(e),
    ensures
        index_event_in(tracks, e),
        e.track < n,
    decreases n,
{
    if n > 0 {
        let head = merged_index_events(tracks, n - 1);
        let tail = track_index_events(tracks, n - 1);
        let k = choose|k: int| 0 <= k < (head + tail).len() && (head + tail)[k] == e;
        if k < head.len() {
            assert(head[k] == e);
            lemma_merged_members(tracks, n - 1, e);
        } else {
            assert(tail[k - head.len()] == e);
        }
    }
}

/// Whether `s` is the merged stream of `tracks`: the references to all
/// events of all tracks, each once, none above a later one.
pub open spec fn is_merged_stream(tracks: Seq<Seq<TrackEventView>>, s: Seq<IndexEvent>) -> bool {
    &&& ascending(s)
    &&& s.to_multiset() == merged_index_events(tracks, tracks.len() as int).to_multiset()
}

/// The merged stream of `tracks`.
pub open spec fn merged_stream(tracks: Seq<Seq<TrackEventView>>) -> Seq<IndexEvent> {
    choose|s: Seq<IndexEvent>| is_merged_stream(tracks, s)
}

/// There is one merged stream at most: the order leaves no choice.
pub proof fn lemma_merged_stream_unique(
    tracks: Seq<Seq<TrackEventView>>,
    x: Seq<IndexEvent>,
    y: Seq<IndexEvent>,
)
    requires
        is_merged_stream(tracks, x),
        is_merged_stream(tracks, y),
    ensures
        x == y,
{
    let leq = |a: IndexEvent, b: IndexEvent| !index_lt(b, a);
    assert(vstd::relations::total_ordering(leq)) by {
        assert(vstd::relations::reflexive(leq));
        assert(vstd::relations::antisymmetric(leq)) by {
            assert forall|a: IndexEvent, b: IndexEvent| #[trigger]
                leq(a, b) && #[trigger] leq(b, a) implies a == b by {
                lemma_index_order_total(a, b, a);
            }
        }
        assert(vstd::relations::transitive(leq));
        assert(vstd::relations::strongly_connected(leq));
    }
    assert(vstd::relations::sorted_by(x, leq));
    assert(vstd::relations::sorted_by(y, leq));
    vstd::seq_lib::lemma_sorted_unique(x, y, leq);
}

/// `slice::sort_by` of the standard library, called with
/// [`symmetric_cmp`]: it puts the elements in ascending order by the
/// comparison it is given, which here is a total order, and neither adds
/// nor loses an element.
#[verifier::external_body]
fn sort_index_events(index_events: &mut Vec<IndexEvent>)
    ensures
        final(index_events)@.to_multiset() == old(index_events)@.to_multiset(),
        ascending(final(index_events)@),
{
    index_events.sort_by(|e0, e1| symmetric_cmp(e0, e1));
}

/// The references to all events of the file in the order of the merged
/// stream: every event of every track once, with its absolute tick, none
/// above a later one.
pub fn get_index_events(parsed_midi: &Midi) -> (index_events: Vec<IndexEvent>)
    ensures
        is_merged_stream(parsed_midi@.tracks, index_events@),
        index_events@ == merged_stream(parsed_midi@.tracks),
        forall|k: int|
            0 <= k < index_events@.len() ==> index_event_in(
                parsed_midi@.tracks,
                #[trigger] index_events@[k],
            ),
{
    let ghost tracks = parsed_midi@.tracks;
    let mut index_events = Vec::<IndexEvent>::new();
    let n_tracks: usize = parsed_midi.tracks.len();
    let mut ti: usize = 0;
    while ti < n_tracks
        invariant
            ti <= n_tracks == parsed_midi.tracks@.len(),
            tracks == parsed_midi@.tracks,
            index_events@ == merged_index_events(tracks, ti as int),
        decreases n_tracks - ti,
    {
        let track = &parsed_midi.tracks[ti];
        let n_events: usize = track.track_events.len();
        let mut curr_time: u32 = 0;
        let mut tei: usize = 0;
        assert(tracks[ti as int] == track@);
        assert(index_events@ =~= merged_index_events(tracks, ti as int) + track_index_events(
            tracks,
            ti as int,
        ).take(0));
        while tei < n_events
            invariant
                ti < n_tracks == parsed_midi.tracks@.len(),
                tracks == parsed_midi@.tracks,
                tracks[ti as int] == track@,
                tei <= n_events == track.track_events@.len(),
                curr_time == clamp_u32(tick_sum(track@, tei as int)),
                index_events@ == merged_index_events(tracks, ti as int) + track_index_events(
                    tracks,
                    ti as int,
                ).take(tei as int),
            decreases n_events - tei,
        {
            let delta: u32 = track.track_events[tei].delta_time;
            assert(track@[tei as int].delta_time == delta);
            let next_time: u32 = if delta > u32::MAX - curr_time {
                u32::MAX
            } else {
                curr_time + delta
            };
            assert(tick_sum(track@, tei + 1) == tick_sum(track@, tei as int) + delta);
            proof {
                lemma_tick_sum_nonnegative(track@, tei as int);
            }
            index_events.push(IndexEvent { time: next_time, track: ti, tei });
            curr_time = next_time;
            tei += 1;
            assert(index_events@ =~= merged_index_events(tracks, ti as int) + track_index_events(
                tracks,
                ti as int,
            ).take(tei as int));
        }
        assert(track_index_events(tracks, ti as int).take(tei as int) =~= track_index_events(
            tracks,
            ti as int,
        ));
        ti += 1;
    }
    let ghost merged = index_events@;
    sort_index_events(&mut index_events);
    proof {
        index_events@.to_multiset_ensures();
        merged.to_multiset_ensures();
        assert forall|k: int| 0 <= k < index_events@.len() implies index_event_in(
            tracks,
            #[trigger] index_events@[k],
        ) by {
            let e = index_events@[k];
            assert(index_events@.contains(e));
            assert(index_events@.to_multiset().count(e) > 0);
            assert(merged.to_multiset().count(e) > 0);
            assert(merged.contains(e));
            assert forall|t: int| 0 <= t < tracks.len() implies (#[trigger] tracks[t]).len()
                <= usize::MAX by {
                assert(tracks[t] == parsed_midi.tracks@[t]@);
                assert(parsed_midi.tracks@[t].track_events.len()
                    == parsed_midi.tracks@[t].track_events@.len());
            }
            lemma_merged_members(tracks, n_tracks as int, e);
        }
        assert(is_merged_stream(tracks, index_events@));
        lemma_merged_stream_unique(tracks, index_events@, merged_stream(tracks));
    }
    index_events
}

/// A sum of delta times is not negative.
pub proof fn lemma_tick_sum_nonnegative(events: Seq<TrackEventView>, n: int)
    ensures
        tick_sum(events, n) >= 0,
    decreases n,
{
    if n > 0 {
        lemma_tick_sum_nonnegative(events, n - 1);
    }
}

} // verus!
