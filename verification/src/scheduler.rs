//! The scheduler of one playback: from the wake-ups of the sound engine to
//! the commands the engine is to receive.
//!
//! The scheduler talks to no engine. A wake-up is a call of one of its
//! functions with the engine's time; what comes back is the list of
//! commands to hand to the engine. Whoever makes the calls keeps the state
//! behind a lock, hands the commands over with the lock released, and calls
//! [`batch_delivered`] when a batch has been handed over.

use vstd::prelude::*;
use crate::sequencer::SequencerControl;
use crate::timeline::{AbsEvent, UnionAbsEvent, UserModification};
use crate::util::clamp_u32;

verus! {

/// How far a playback has come.
#[derive(Clone, Copy, Debug, PartialEq, Eq, Structural)]
pub enum Phase {
    /// Nothing is scheduled.
    Idle,
    /// Wake-ups for batches are scheduled.
    Armed,
    /// The last command has been issued; its time has not come.
    Draining,
    /// The end of playback has been signalled.
    Complete,
}

/// A command for the sound engine. Times are engine times in milliseconds,
/// absolute.
#[derive(Clone, Copy, Debug, PartialEq, Eq, Structural)]
pub enum EngineCommand {
    /// Play a note of the given length at the given time.
    Note { channel: i32, key: i16, velocity: i16, duration_ms: u32, at_ms: u32 },
    /// Select an instrument program on a channel.
    ProgramSelect { channel: i32, program: i32, at_ms: u32 },
    /// Set the pitch bend of a channel.
    PitchBend { channel: i32, bend: i32, at_ms: u32 },
    /// Take the client of the batch wake-ups off the engine.
    UnregisterPeriodic,
    /// Wake the client for the end of playback at the given time.
    Final { at_ms: u32 },
    /// Wake the client for the next batch at the given time.
    ScheduleBatch { at_ms: u32 },
    /// Wake the client that shows progress at the given time.
    ScheduleProgress { at_ms: u32 },
    /// Show how far playback has come, in milliseconds of the piece.
    ShowProgress { done_ms: u32, total_ms: u32 },
}

/// The state of one playback.
pub struct CallbackData {
    pub seq_ctl: SequencerControl,
    /// The timeline.
    pub abs_events: Vec<AbsEvent>,
    /// The place in the timeline of the first command not issued yet.
    pub next_abs_event: usize,
    pub user_mod: UserModification,
    pub phase: Phase,
    /// Whether the first batch has fixed the engine time on which
    /// millisecond 0 of the timeline falls.
    pub clock_set: bool,
    /// Whether a batch is being handed to the engine.
    pub sending_events: bool,
    /// Whether the end of playback has been signalled.
    pub final_callback_handled: bool,
}

/// The engine time of a command of the timeline.
pub open spec fn engine_time(e: AbsEvent, add_ms: u32) -> u32 {
    clamp_u32(e.time_ms + add_ms)
}

/// The commands by which the engine is told of one command of the
/// timeline. The command that ends the timeline takes the client of the
/// batch wake-ups off the engine and schedules the wake-up for the end.
pub open spec fn commands_of(e: AbsEvent, add_ms: u32) -> Seq<EngineCommand> {
    let at_ms = engine_time(e, add_ms);
    match e.uae {
        UnionAbsEvent::NoteEvent(n) => seq![
            EngineCommand::Note {
                channel: n.channel,
                key: n.key,
                velocity: n.velocity,
                duration_ms: n.duration_ms,
                at_ms,
            },
        ],
        UnionAbsEvent::ProgramChange(p) => seq![
            EngineCommand::ProgramSelect { channel: p.channel, program: p.program, at_ms },
        ],
        UnionAbsEvent::PitchWheel(p) => seq![
            EngineCommand::PitchBend { channel: p.channel, bend: p.bend, at_ms },
        ],
        UnionAbsEvent::FinalEvent(_) => seq![
            EngineCommand::UnregisterPeriodic,
            EngineCommand::Final { at_ms },
        ],
    }
}

/// Whether the command falls into the batch that ends at engine time
/// `limit`.
pub open spec fn in_batch(e: AbsEvent, add_ms: u32, limit: int) -> bool {
    e.time_ms + add_ms <= limit
}

/// The place up to which a batch drains the timeline from place `next` on,
/// looking at the commands before place `hi`: behind the last of them that
/// falls into the batch, and `next` where none does. Commands before that
/// one are issued with it, though they fall behind the batch: a command
/// may be issued early, never late. Where the times of the commands never
/// go back, the commands issued are those that fall into the batch.
pub open spec fn batch_end(events: Seq<AbsEvent>, next: int, hi: int, add_ms: u32, limit: int)
    -> int
    decreases hi - next,
{
    if hi <= next {
        next
    } else if in_batch(events[hi - 1], add_ms, limit) {
        hi
    } else {
        batch_end(events, next, hi - 1, add_ms, limit)
    }
}

/// A batch leaves nothing due: it ends at a place of the timeline at or
/// behind the one it began at, and no command from that place up to `hi`
/// falls into the batch.
pub proof fn lemma_batch_leaves_nothing_due(
    events: Seq<AbsEvent>,
    next: int,
    hi: int,
    add_ms: u32,
    limit: int,
)
    requires
        0 <= next <= hi <= events.len(),
    ensures
        next <= batch_end(events, next, hi, add_ms, limit) <= hi,
        forall|j: int|
            batch_end(events, next, hi, add_ms, limit) <= j < hi ==> !in_batch(
                #[trigger] events[j],
                add_ms,
                limit,
            ),
    decreases hi - next,
{
    if hi > next && !in_batch(events[hi - 1], add_ms, limit) {
        lemma_batch_leaves_nothing_due(events, next, hi - 1, add_ms, limit);
    }
}

/// Whether the times of the commands from place `next` on never go back.
pub open spec fn times_ascend(events: Seq<AbsEvent>, next: int) -> bool {
    forall|i: int, j: int|
        next <= i <= j < events.len() ==> (#[trigger] events[i]).time_ms <= (
        #[trigger] events[j]).time_ms
}

/// Where the times of the commands never go back, a batch issues the
/// commands that fall into it and no other: every command before the place
/// at which the batch ends falls into the batch, and none from that place
/// on does.
pub proof fn lemma_ascending_batch_is_exact(
    events: Seq<AbsEvent>,
    next: int,
    add_ms: u32,
    limit: int,
)
    requires
        0 <= next <= events.len(),
        times_ascend(events, next),
    ensures
        forall|j: int|
            next <= j < batch_end(events, next, events.len() as int, add_ms, limit) ==> in_batch(
                #[trigger] events[j],
                add_ms,
                limit,
            ),
        forall|j: int|
            batch_end(events, next, events.len() as int, add_ms, limit) <= j < events.len()
                ==> !in_batch(#[trigger] events[j], add_ms, limit),
{
    let hi = events.len() as int;
    let end = batch_end(events, next, hi, add_ms, limit);
    lemma_batch_leaves_nothing_due(events, next, hi, add_ms, limit);
    lemma_batch_ends_behind_one_inside(events, next, hi, add_ms, limit);
    assert forall|j: int| next <= j < end implies in_batch(
        #[trigger] events[j],
        add_ms,
        limit,
    ) by {
        assert(in_batch(events[end - 1], add_ms, limit));
        assert(events[j].time_ms <= events[end - 1].time_ms);
    }
}

/// A batch that issues anything ends behind a command that falls into it.
pub proof fn lemma_batch_ends_behind_one_inside(
    events: Seq<AbsEvent>,
    next: int,
    hi: int,
    add_ms: u32,
    limit: int,
)
    requires
        0 <= next <= hi <= events.len(),
    ensures
        batch_end(events, next, hi, add_ms, limit) > next ==> in_batch(
            events[batch_end(events, next, hi, add_ms, limit) - 1],
            add_ms,
            limit,
        ),
    decreases hi - next,
{
    if hi > next && !in_batch(events[hi - 1], add_ms, limit) {
        lemma_batch_ends_behind_one_inside(events, next, hi - 1, add_ms, limit);
    }
}

/// The commands for the commands of the timeline from place `from` up to
/// place `to`, in their order.
pub open spec fn batch_commands(events: Seq<AbsEvent>, from: int, to: int, add_ms: u32) -> Seq<
    EngineCommand,
>
    decreases to - from,
{
    if from >= to {
        Seq::empty()
    } else {
        batch_commands(events, from, to - 1, add_ms) + commands_of(events[to - 1], add_ms)
    }
}

/// Whether the command that ends the timeline stands among those from
/// place `from` up to place `to`.
pub open spec fn holds_final(events: Seq<AbsEvent>, from: int, to: int) -> bool
    decreases to - from,
{
    if from >= to {
        false
    } else {
        holds_final(events, from, to - 1) || events[to - 1].uae is FinalEvent
    }
}

impl CallbackData {
    /// Whether the state is one that the scheduler itself can have reached.
    pub open spec fn wf(&self) -> bool {
        &&& self.next_abs_event <= self.abs_events@.len()
        &&& (self.phase is Complete) == self.final_callback_handled
        &&& !self.clock_set ==> self.next_abs_event == 0
    }

    /// The engine time on which millisecond 0 of the timeline falls for a
    /// batch at engine time `now`: fixed at the first batch as `now` and
    /// the initial delay, and kept from there on.
    pub open spec fn base_time(&self, now: u32) -> u32 {
        if !self.clock_set {
            clamp_u32(now + self.seq_ctl.initial_delay_ms)
        } else {
            self.seq_ctl.add_ms
        }
    }

    /// The place up to which the batch at engine time `now` drains the
    /// timeline.
    pub open spec fn next_after_batch(&self, now: u32) -> int {
        batch_end(
            self.abs_events@,
            self.next_abs_event as int,
            self.abs_events@.len() as int,
            self.base_time(now),
            now + self.seq_ctl.batch_duration_ms,
        )
    }

    /// The state of a playback of the given timeline before it begins.
    pub fn new(seq_ctl: SequencerControl, abs_events: Vec<AbsEvent>, user_mod: UserModification)
        -> (cb_data: CallbackData)
        ensures
            cb_data.wf(),
            cb_data.seq_ctl == seq_ctl,
            cb_data.abs_events == abs_events,
            cb_data.user_mod == user_mod,
            cb_data.next_abs_event == 0,
            cb_data.phase is Idle,
            !cb_data.clock_set,
            !cb_data.sending_events,
            !cb_data.final_callback_handled,
    {
        CallbackData {
            seq_ctl,
            abs_events,
            next_abs_event: 0,
            user_mod,
            phase: Phase::Idle,
            clock_set: false,
            sending_events: false,
            final_callback_handled: false,
        }
    }

    /// Whether every command of the timeline has been issued.
    pub fn all_events_sent(&self) -> (b: bool)
        ensures
            b == (self.next_abs_event == self.abs_events@.len()),
    {
        self.next_abs_event == self.abs_events.len()
    }
}

/// Adds two engine times, holding the sum at the largest `u32`.
fn add_clamped(a: u32, b: u32) -> (sum: u32)
    ensures
        sum == clamp_u32(a + b),
{
    match a.checked_add(b) {
        Some(v) => v,
        None => u32::MAX,
    }
}

/// The command that schedules the next wake-up for a batch at engine time
/// `date_ms`.
pub fn schedule_next_callback(date_ms: u32) -> (command: EngineCommand)
    ensures
        command == (EngineCommand::ScheduleBatch { at_ms: date_ms }),
{
    EngineCommand::ScheduleBatch { at_ms: date_ms }
}

/// The command that schedules the next wake-up to show progress at engine
/// time `date_ms`.
pub fn schedule_next_progress_callback(date_ms: u32) -> (command: EngineCommand)
    ensures
        command == (EngineCommand::ScheduleProgress { at_ms: date_ms }),
{
    EngineCommand::ScheduleProgress { at_ms: date_ms }
}

/// A batch that reaches the last command of the timeline issues all that
/// is left: where the last command falls into the batch, the batch ends at
/// the end of the timeline.
pub proof fn lemma_batch_with_last_issues_all(
    events: Seq<AbsEvent>,
    next: int,
    add_ms: u32,
    limit: int,
)
    requires
        0 <= next < events.len(),
        in_batch(events.last(), add_ms, limit),
    ensures
        batch_end(events, next, events.len() as int, add_ms, limit) == events.len(),
{
}

/// Begins a playback: schedules the first wake-up for a batch at engine
/// time `at_ms`, and one to show progress where that is asked for. Does
/// nothing to a playback that has begun.
pub fn arm(cb_data: &mut CallbackData, at_ms: u32, progress: bool) -> (commands: Vec<
    EngineCommand,
>)
    requires
        old(cb_data).wf(),
    ensures
        final(cb_data).wf(),
        old(cb_data).phase is Idle ==> *final(cb_data) == (CallbackData {
            phase: Phase::Armed,
            ..*old(cb_data)
        }) && commands@ == if progress {
            seq![EngineCommand::ScheduleBatch { at_ms }, EngineCommand::ScheduleProgress { at_ms }]
        } else {
            seq![EngineCommand::ScheduleBatch { at_ms }]
        },
        !(old(cb_data).phase is Idle) ==> *final(cb_data) == *old(cb_data) && commands@
            == Seq::<EngineCommand>::empty(),
{
    let mut commands: Vec<EngineCommand> = Vec::new();
    match cb_data.phase {
        Phase::Idle => {
            cb_data.phase = Phase::Armed;
            commands.push(schedule_next_callback(at_ms));
            if progress {
                commands.push(schedule_next_progress_callback(at_ms));
            }
            assert(commands@ =~= if progress {
                seq![
                    EngineCommand::ScheduleBatch { at_ms },
                    EngineCommand::ScheduleProgress { at_ms },
                ]
            } else {
                seq![EngineCommand::ScheduleBatch { at_ms }]
            });
        },
        _ => {},
    }
    commands
}

/// Issues the batch at engine time `now`: the commands of the timeline not
/// issued yet, in their order, up to the last that falls at or before `now`
/// and the batch duration. The first batch fixes the engine time on which
/// millisecond 0 of the timeline falls. The flag tells that the command
/// that ends the timeline is among those issued.
pub fn send_next_batch_events(cb_data: &mut CallbackData, now: u32) -> (r: (
    Vec<EngineCommand>,
    bool,
))
    requires
        old(cb_data).wf(),
    ensures
        old(cb_data).next_abs_event <= final(cb_data).next_abs_event <= old(
            cb_data,
        ).abs_events@.len(),
        final(cb_data).next_abs_event == old(cb_data).next_after_batch(now),
        final(cb_data).seq_ctl == (SequencerControl {
            add_ms: old(cb_data).base_time(now),
            ..old(cb_data).seq_ctl
        }),
        final(cb_data).clock_set,
        r.0@ == batch_commands(
            old(cb_data).abs_events@,
            old(cb_data).next_abs_event as int,
            final(cb_data).next_abs_event as int,
            old(cb_data).base_time(now),
        ),
        r.1 == holds_final(
            old(cb_data).abs_events@,
            old(cb_data).next_abs_event as int,
            final(cb_data).next_abs_event as int,
        ),
        final(cb_data).abs_events == old(cb_data).abs_events,
        final(cb_data).user_mod == old(cb_data).user_mod,
        final(cb_data).phase == old(cb_data).phase,
        final(cb_data).sending_events == old(cb_data).sending_events,
        final(cb_data).final_callback_handled == old(cb_data).final_callback_handled,
{
    if !cb_data.clock_set {
        cb_data.seq_ctl.add_ms = add_clamped(now, cb_data.seq_ctl.initial_delay_ms);
        cb_data.clock_set = true;
    }
    let add_ms: u32 = cb_data.seq_ctl.add_ms;
    let limit: u64 = now as u64 + cb_data.seq_ctl.batch_duration_ms as u64;
    let first: usize = cb_data.next_abs_event;
    let ghost events = cb_data.abs_events@;
    let n: usize = cb_data.abs_events.len();
    let mut end: usize = first;
    let mut j: usize = first;
    while j < n
        invariant
            first <= end <= j <= n == events.len(),
            events == cb_data.abs_events@,
            end == batch_end(events, first as int, j as int, add_ms, limit as int),
        decreases n - j,
    {
        if cb_data.abs_events[j].time_ms as u64 + add_ms as u64 <= limit {
            end = j + 1;
        }
        j += 1;
    }
    let mut commands: Vec<EngineCommand> = Vec::new();
    let mut final_event = false;
    while cb_data.next_abs_event < end
        invariant
            first <= cb_data.next_abs_event <= end <= n == events.len(),
            events == cb_data.abs_events@,
            cb_data.abs_events == old(cb_data).abs_events,
            cb_data.user_mod == old(cb_data).user_mod,
            cb_data.phase == old(cb_data).phase,
            cb_data.clock_set,
            cb_data.sending_events == old(cb_data).sending_events,
            cb_data.final_callback_handled == old(cb_data).final_callback_handled,
            cb_data.seq_ctl == (SequencerControl { add_ms, ..old(cb_data).seq_ctl }),
            commands@ == batch_commands(
                events,
                first as int,
                cb_data.next_abs_event as int,
                add_ms,
            ),
            final_event == holds_final(events, first as int, cb_data.next_abs_event as int),
        decreases end - cb_data.next_abs_event,
    {
        let abs_event: AbsEvent = cb_data.abs_events[cb_data.next_abs_event];
        let at_ms: u32 = add_clamped(abs_event.time_ms, add_ms);
        let ghost before = commands@;
        match abs_event.uae {
            UnionAbsEvent::NoteEvent(note_event) => {
                commands.push(
                    EngineCommand::Note {
                        channel: note_event.channel,
                        key: note_event.key,
                        velocity: note_event.velocity,
                        duration_ms: note_event.duration_ms,
                        at_ms,
                    },
                );
            },
            UnionAbsEvent::ProgramChange(program_change) => {
                commands.push(
                    EngineCommand::ProgramSelect {
                        channel: program_change.channel,
                        program: program_change.program,
                        at_ms,
                    },
                );
            },
            UnionAbsEvent::PitchWheel(pitch_wheel) => {
                commands.push(
                    EngineCommand::PitchBend {
                        channel: pitch_wheel.channel,
                        bend: pitch_wheel.bend,
                        at_ms,
                    },
                );
            },
            UnionAbsEvent::FinalEvent(_e) => {
                commands.push(EngineCommand::UnregisterPeriodic);
                commands.push(EngineCommand::Final { at_ms });
                final_event = true;
            },
        }
        assert(commands@ =~= before + commands_of(abs_event, add_ms));
        cb_data.next_abs_event += 1;
    }
    (commands, final_event)
}

/// Issues the batch at engine time `now` unless a batch is being handed to
/// the engine already; in that case nothing is issued and nothing changes.
/// A batch that is issued is marked as being handed over, until
/// [`batch_delivered`] is called. With the command that ends the timeline
/// a playback that is not complete goes over to draining.
pub fn handle_next_batch_events(cb_data: &mut CallbackData, now: u32) -> (r: (
    Vec<EngineCommand>,
    bool,
))
    requires
        old(cb_data).wf(),
    ensures
        final(cb_data).wf(),
        old(cb_data).sending_events ==> *final(cb_data) == *old(cb_data) && r.0@ == Seq::<
            EngineCommand,
        >::empty() && !r.1,
        !old(cb_data).sending_events ==> {
            &&& final(cb_data).sending_events
            &&& final(cb_data).clock_set
            &&& final(cb_data).next_abs_event == old(cb_data).next_after_batch(now)
            &&& final(cb_data).next_abs_event >= old(cb_data).next_abs_event
            &&& final(cb_data).seq_ctl == (SequencerControl {
                add_ms: old(cb_data).base_time(now),
                ..old(cb_data).seq_ctl
            })
            &&& r.0@ == batch_commands(
                old(cb_data).abs_events@,
                old(cb_data).next_abs_event as int,
                final(cb_data).next_abs_event as int,
                old(cb_data).base_time(now),
            )
            &&& r.1 == holds_final(
                old(cb_data).abs_events@,
                old(cb_data).next_abs_event as int,
                final(cb_data).next_abs_event as int,
            )
            &&& final(cb_data).phase == if r.1 && !(old(cb_data).phase is Complete) {
                Phase::Draining
            } else {
                old(cb_data).phase
            }
            &&& final(cb_data).abs_events == old(cb_data).abs_events
            &&& final(cb_data).user_mod == old(cb_data).user_mod
            &&& final(cb_data).final_callback_handled == old(cb_data).final_callback_handled
        },
{
    if cb_data.sending_events {
        return (Vec::new(), false);
    }
    cb_data.sending_events = true;
    let (commands, final_event) = send_next_batch_events(cb_data, now);
    if final_event && !cb_data.final_callback_handled {
        cb_data.phase = Phase::Draining;
    }
    (commands, final_event)
}

/// Marks the batch that was issued last as handed to the engine: the next
/// wake-up may issue a batch again.
pub fn batch_delivered(cb_data: &mut CallbackData)
    ensures
        *final(cb_data) == (CallbackData { sending_events: false, ..*old(cb_data) }),
{
    cb_data.sending_events = false;
}

/// Whether a wake-up for a batch has work to do: batches are scheduled, a
/// command is left to issue, and no batch is being handed to the engine.
pub open spec fn batch_is_due(s: CallbackData) -> bool {
    s.phase is Armed && s.next_abs_event < s.abs_events@.len() && !s.sending_events
}

/// The wake-up for a batch at engine time `now`.
///
/// Where a batch is due it is issued, and unless the command that ends the
/// timeline was among its commands, the next wake-up is scheduled half a
/// batch duration behind `now`. Where none is due, nothing is issued,
/// nothing is scheduled and nothing changes.
pub fn periodic_callback(cb_data: &mut CallbackData, now: u32) -> (commands: Vec<EngineCommand>)
    requires
        old(cb_data).wf(),
    ensures
        final(cb_data).wf(),
        !batch_is_due(*old(cb_data)) ==> *final(cb_data) == *old(cb_data) && commands@ == Seq::<
            EngineCommand,
        >::empty(),
        batch_is_due(*old(cb_data)) ==> {
            let sent = holds_final(
                old(cb_data).abs_events@,
                old(cb_data).next_abs_event as int,
                final(cb_data).next_abs_event as int,
            );
            &&& *final(cb_data) == (CallbackData {
                next_abs_event: old(cb_data).next_after_batch(now) as usize,
                seq_ctl: SequencerControl {
                    add_ms: old(cb_data).base_time(now),
                    ..old(cb_data).seq_ctl
                },
                sending_events: true,
                clock_set: true,
                phase: if sent {
                    Phase::Draining
                } else {
                    Phase::Armed
                },
                ..*old(cb_data)
            })
            &&& final(cb_data).next_abs_event >= old(cb_data).next_abs_event
            &&& commands@ == batch_commands(
                old(cb_data).abs_events@,
                old(cb_data).next_abs_event as int,
                final(cb_data).next_abs_event as int,
                old(cb_data).base_time(now),
            ) + if sent {
                Seq::<EngineCommand>::empty()
            } else {
                seq![
                    EngineCommand::ScheduleBatch {
                        at_ms: clamp_u32(now + old(cb_data).seq_ctl.batch_duration_ms / 2),
                    },
                ]
            }
        },
{
    let due = match cb_data.phase {
        Phase::Armed => !cb_data.all_events_sent() && !cb_data.sending_events,
        _ => false,
    };
    if !due {
        return Vec::new();
    }
    let (mut commands, final_event_sent) = handle_next_batch_events(cb_data, now);
    if !final_event_sent {
        let ghost before = commands@;
        let at_ms: u32 = add_clamped(now, cb_data.seq_ctl.batch_duration_ms / 2);
        commands.push(schedule_next_callback(at_ms));
        assert(commands@ =~= before + seq![EngineCommand::ScheduleBatch { at_ms }]);
    } else {
        assert(commands@ =~= commands@ + Seq::<EngineCommand>::empty());
    }
    commands
}

/// The state once the wake-up for the end of playback has come, and
/// whether the end is to be signalled: it is, unless it has been before.
pub open spec fn after_final(s: CallbackData) -> (CallbackData, bool) {
    (
        CallbackData { final_callback_handled: true, phase: Phase::Complete, ..s },
        !s.final_callback_handled,
    )
}

/// The wake-up for the end of playback. The playback is complete from now
/// on. The result tells whether the end is to be signalled to whoever waits
/// for it: it is at the first call, and at no later one.
pub fn final_callback(cb_data: &mut CallbackData) -> (notify: bool)
    ensures
        (*final(cb_data), notify) == after_final(*old(cb_data)),
        old(cb_data).wf() ==> final(cb_data).wf(),
{
    let handled = cb_data.final_callback_handled;
    cb_data.final_callback_handled = true;
    cb_data.phase = Phase::Complete;
    !handled
}

/// The end of playback is signalled once: of two wake-ups for it, one
/// behind the other, the second signals nothing and changes nothing, and
/// the two together signal once where the end had not been signalled
/// before, and not at all where it had. After the first the playback is
/// complete, and stays so.
pub proof fn lemma_completion_is_idempotent(s: CallbackData)
    ensures
        after_final(s).0.phase is Complete,
        after_final(s).0.final_callback_handled,
        after_final(after_final(s).0).0 == after_final(s).0,
        !after_final(after_final(s).0).1,
        (if after_final(s).1 { 1int } else { 0int }) + (if after_final(after_final(s).0).1 {
            1int
        } else {
            0int
        }) == if s.final_callback_handled {
            0int
        } else {
            1int
        },
        s.wf() ==> (after_final(s).1 <==> !(s.phase is Complete)),
{
}

/// The place in the piece, in milliseconds, that playback has reached at
/// engine time `time`: the engine time since millisecond 0 of the timeline,
/// divided by the tempo factor and rounded down, behind the begin of the
/// window. There is none before millisecond 0 of the timeline, and none
/// under a tempo factor of zero.
pub open spec fn progress_position(s: CallbackData, time: u32) -> Option<int> {
    if time >= s.seq_ctl.add_ms && s.user_mod.tempo_factor.millionths > 0 {
        Some(
            (time - s.seq_ctl.add_ms) * 1_000_000 / (s.user_mod.tempo_factor.millionths as int)
                + s.user_mod.begin_ms,
        )
    } else {
        None
    }
}

/// What the wake-up to show progress gives at engine time `time`.
///
/// Nothing once the end of playback has been signalled, and nothing for an
/// empty timeline. Otherwise the place reached is shown with the place of
/// the last command, where there is a place and it is not behind the last
/// command; and the next wake-up is scheduled a tenth of a second on.
pub open spec fn progress_commands(s: CallbackData, time: u32) -> Seq<EngineCommand> {
    if s.final_callback_handled || s.abs_events@.len() == 0 {
        Seq::empty()
    } else {
        let total_ms = s.abs_events@.last().time_ms_original;
        let again = EngineCommand::ScheduleProgress { at_ms: clamp_u32(time + 100) };
        match progress_position(s, time) {
            Some(done) => if done <= total_ms {
                seq![EngineCommand::ShowProgress { done_ms: done as u32, total_ms }, again]
            } else {
                seq![again]
            },
            None => seq![again],
        }
    }
}

/// The wake-up to show progress at engine time `time`.
pub fn progress_callback(cb_data: &CallbackData, time: u32) -> (commands: Vec<EngineCommand>)
    ensures
        commands@ == progress_commands(*cb_data, time),
{
    let mut commands: Vec<EngineCommand> = Vec::new();
    let n: usize = cb_data.abs_events.len();
    if cb_data.final_callback_handled || n == 0 {
        return commands;
    }
    let last_ms: u32 = cb_data.abs_events[n - 1].time_ms_original;
    let add_ms: u32 = cb_data.seq_ctl.add_ms;
    let millionths: u32 = cb_data.user_mod.tempo_factor.millionths;
    if time >= add_ms && millionths > 0 {
        let dt: u64 = (time - add_ms) as u64;
        let btime: u64 = dt * 1_000_000 / (millionths as u64) + cb_data.user_mod.begin_ms as u64;
        if btime <= last_ms as u64 {
            commands.push(EngineCommand::ShowProgress { done_ms: btime as u32, total_ms: last_ms });
        }
    }
    commands.push(schedule_next_progress_callback(add_clamped(time, 100)));
    assert(commands@ =~= progress_commands(*cb_data, time));
    commands
}

} // verus!
