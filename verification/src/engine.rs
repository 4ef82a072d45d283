//! Per-session event loop, as a state machine.
//!
//! The loop merges three event sources — an inbound notification, a timer
//! tick, and the cancellation signal — and reacts to one event at a time.
//! The engine holds the decisions of that loop: which command to send on
//! a tick, how to decode a notification (always under the request type of
//! the most recently issued command — the protocol has no correlation
//! IDs, so pairing is purely sequential), and when to tear the session
//! down. The caller performs each returned [`Action`] (the BLE write, the
//! log append, the disconnect) and feeds the next event in.
//!
//! Once the cancellation signal has been handled, the engine directs no
//! further sends or appends: every later event is answered with
//! [`Action::Idle`], and [`Action::Disconnect`] is issued exactly once.

use vstd::prelude::*;

verus! {

use crate::codec::CommandFrame;
use crate::codec::Data;
use crate::codec::encode_request;
use crate::codec::decode_notification;
use crate::codec::spec_decode_notification;
use crate::codec::spec_frame_for;
use crate::errors::CoreError;
use crate::scheduler::MAX_INTERVAL;
use crate::scheduler::PollState;
use crate::scheduler::spec_select_request;

/// One event of the merged stream the loop races on.
pub enum Event {
    /// Bytes arrived on the telemetry characteristic, with the
    /// millisecond Unix timestamp captured at receipt.
    Notification {
        /// The raw notification, framing header included.
        payload: Vec<u8>,
        /// Milliseconds since the Unix epoch at receipt time.
        timestamp_ms: u64,
    },
    /// The poll timer fired.
    Tick,
    /// The cancellation signal was raised.
    Cancel,
}

/// What the caller must do in response to one event.
pub enum Action {
    /// Write this command frame to the command characteristic.
    SendCommand {
        /// The frame to write.
        frame: CommandFrame,
    },
    /// Append this entry to the log and emit it to any live subscriber.
    AppendReading {
        /// The decoded reading with its receipt timestamp.
        entry: Data,
    },
    /// The notification could not be decoded: report the error, drop the
    /// reading, keep the loop alive.
    DiscardNotification {
        /// Why the notification was dropped.
        error: CoreError,
    },
    /// Tear the session down; issued exactly once, on cancellation.
    Disconnect,
    /// Nothing: the session is already cancelled.
    Idle,
}

/// The kind of an action, with its payload forgotten.
#[derive(Clone, Copy, PartialEq, Eq, Structural, Debug)]
pub enum ActionKind {
    /// A command write.
    SendCommand,
    /// A log append.
    AppendReading,
    /// A dropped notification.
    DiscardNotification,
    /// A session teardown.
    Disconnect,
    /// Nothing.
    Idle,
}

/// The kind of an action.
pub open spec fn spec_action_kind(action: Action) -> ActionKind {
    match action {
        Action::SendCommand { .. } => ActionKind::SendCommand,
        Action::AppendReading { .. } => ActionKind::AppendReading,
        Action::DiscardNotification { .. } => ActionKind::DiscardNotification,
        Action::Disconnect => ActionKind::Disconnect,
        Action::Idle => ActionKind::Idle,
    }
}

/// The event-loop state machine for one session: the scheduler state and
/// whether cancellation has been handled. The request type a notification
/// is decoded under is always `poll.active`, the type of the most recent
/// command.
#[derive(Clone, Copy, PartialEq, Eq, Structural, Debug)]
pub struct Engine {
    /// Scheduler state; `poll.active` is the pending request type.
    pub poll: PollState,
    /// The cancellation signal has been handled.
    pub cancelled: bool,
}

/// The engine state after one event.
pub open spec fn spec_next_engine(e: Engine, event: Event) -> Engine {
    if e.cancelled {
        e
    } else {
        match event {
            Event::Cancel => Engine { cancelled: true, ..e },
            Event::Tick => Engine {
                poll: PollState {
                    interval: e.poll.interval,
                    tick: (e.poll.tick + 1) as u64,
                    active: spec_select_request((e.poll.tick + 1) as u64, e.poll.interval),
                },
                ..e
            },
            Event::Notification { .. } => e,
        }
    }
}

/// The kind of action one event provokes.
pub open spec fn spec_step_kind(e: Engine, event: Event) -> ActionKind {
    if e.cancelled {
        ActionKind::Idle
    } else {
        match event {
            Event::Cancel => ActionKind::Disconnect,
            Event::Tick => ActionKind::SendCommand,
            Event::Notification { payload, .. } => {
                if spec_decode_notification(e.poll.active, payload@) is Ok {
                    ActionKind::AppendReading
                } else {
                    ActionKind::DiscardNotification
                }
            },
        }
    }
}

impl Engine {
    /// The scheduler state is well formed.
    pub open spec fn wf(self) -> bool {
        self.poll.wf()
    }

    /// A fresh engine for one session: no ticks yet, not cancelled.
    pub fn new(interval: u64) -> (engine: Self)
        requires
            1 <= interval <= MAX_INTERVAL,
        ensures
            engine.poll.interval == interval,
            engine.poll.tick == 0,
            !engine.cancelled,
            engine.wf(),
    {
        Engine { poll: PollState::new(interval), cancelled: false }
    }

    /// React to one event of the merged stream.
    ///
    /// A tick advances the scheduler and directs a send of the selected
    /// command; a notification is decoded under the pending request type
    /// and directed to the log, or discarded if malformed; the first
    /// cancellation directs the single disconnect; after that, every
    /// event is answered with [`Action::Idle`].
    pub fn handle_event(&mut self, event: Event) -> (action: Action)
        requires
            old(self).wf(),
            old(self).poll.tick < u64::MAX,
        ensures
            final(self).wf(),
            *final(self) == spec_next_engine(*old(self), event),
            spec_action_kind(action) == spec_step_kind(*old(self), event),
            action matches Action::SendCommand { frame }
                ==> frame == spec_frame_for(final(self).poll.active),
            action matches Action::AppendReading { entry }
                ==> event matches Event::Notification { payload, timestamp_ms }
                    && spec_decode_notification(old(self).poll.active, payload@)
                        == Ok::<crate::codec::ReadingV, CoreError>(entry.data@)
                    && entry.timestamp == timestamp_ms,
            action matches Action::DiscardNotification { error }
                ==> event matches Event::Notification { payload, .. }
                    && spec_decode_notification(old(self).poll.active, payload@)
                        == Err::<crate::codec::ReadingV, CoreError>(error),
    {
        if self.cancelled {
            return Action::Idle;
        }
        match event {
            Event::Cancel => {
                self.cancelled = true;
                Action::Disconnect
            },
            Event::Tick => {
                let request_type = self.poll.advance();
                Action::SendCommand { frame: encode_request(request_type) }
            },
            Event::Notification { payload, timestamp_ms } => {
                match decode_notification(&payload, &self.poll.active) {
                    Ok(reading) => Action::AppendReading {
                        entry: Data { data: reading, timestamp: timestamp_ms },
                    },
                    Err(error) => Action::DiscardNotification { error },
                }
            },
        }
    }
}

/// The engine state after a whole sequence of events.
pub open spec fn spec_run_engine(e: Engine, events: Seq<Event>) -> Engine
    decreases events.len(),
{
    if events.len() == 0 {
        e
    } else {
        spec_run_engine(spec_next_engine(e, events[0]), events.drop_first())
    }
}

/// The kinds of the actions a whole sequence of events provokes, in
/// order.
pub open spec fn spec_run_kinds(e: Engine, events: Seq<Event>) -> Seq<ActionKind>
    decreases events.len(),
{
    if events.len() == 0 {
        Seq::empty()
    } else {
        seq![spec_step_kind(e, events[0])] + spec_run_kinds(
            spec_next_engine(e, events[0]),
            events.drop_first(),
        )
    }
}

/// Every event provokes exactly one action.
pub proof fn lemma_run_kinds_len(e: Engine, events: Seq<Event>)
    ensures
        spec_run_kinds(e, events).len() == events.len(),
    decreases events.len(),
{
    if events.len() > 0 {
        lemma_run_kinds_len(spec_next_engine(e, events[0]), events.drop_first());
    }
}

/// Running a concatenation is running the parts in order.
pub proof fn lemma_run_engine_app(e: Engine, a: Seq<Event>, b: Seq<Event>)
    ensures
        spec_run_engine(e, a + b) == spec_run_engine(spec_run_engine(e, a), b),
    decreases a.len(),
{
    if a.len() == 0 {
        assert(a + b =~= b);
    } else {
        assert((a + b).drop_first() =~= a.drop_first() + b);
        lemma_run_engine_app(spec_next_engine(e, a[0]), a.drop_first(), b);
    }
}

/// A cancelled engine stays cancelled and answers everything with
/// [`ActionKind::Idle`].
pub proof fn lemma_cancelled_engine_is_idle(e: Engine, events: Seq<Event>)
    requires
        e.cancelled,
    ensures
        spec_run_engine(e, events) == e,
        forall|t: int| 0 <= t < events.len() ==> spec_run_kinds(e, events)[t] == ActionKind::Idle,
    decreases events.len(),
{
    lemma_run_kinds_len(e, events);
    if events.len() > 0 {
        assert(spec_next_engine(e, events[0]) == e);
        lemma_cancelled_engine_is_idle(e, events.drop_first());
        lemma_run_kinds_len(e, events.drop_first());
        assert forall|t: int| 0 <= t < events.len() implies spec_run_kinds(e, events)[t]
            == ActionKind::Idle by {
            if t > 0 {
                assert(spec_run_kinds(e, events)[t] == spec_run_kinds(e, events.drop_first())[t
                    - 1]);
            }
        }
    }
}

/// An engine that has seen no cancellation event is not cancelled.
pub proof fn lemma_no_cancel_no_cancelled(e: Engine, events: Seq<Event>)
    requires
        !e.cancelled,
        forall|t: int| 0 <= t < events.len() ==> !(#[trigger] events[t] is Cancel),
    ensures
        !spec_run_engine(e, events).cancelled,
    decreases events.len(),
{
    if events.len() > 0 {
        assert(!(events[0] is Cancel));
        assert(!spec_next_engine(e, events[0]).cancelled);
        assert(forall|t: int| 0 <= t < events.drop_first().len()
            ==> #[trigger] events.drop_first()[t] == events[t + 1]);
        lemma_no_cancel_no_cancelled(spec_next_engine(e, events[0]), events.drop_first());
    }
}

/// The action at one position is the step on the engine reached by the
/// prefix before it.
pub proof fn lemma_run_kinds_index(e: Engine, events: Seq<Event>, t: int)
    requires
        0 <= t < events.len(),
    ensures
        spec_run_kinds(e, events)[t] == spec_step_kind(
            spec_run_engine(e, events.take(t)),
            events[t],
        ),
    decreases t,
{
    lemma_run_kinds_len(e, events);
    if t == 0 {
        assert(events.take(0) =~= Seq::empty());
    } else {
        let e1 = spec_next_engine(e, events[0]);
        lemma_run_kinds_len(e1, events.drop_first());
        lemma_run_kinds_index(e1, events.drop_first(), t - 1);
        assert(events.drop_first()[t - 1] == events[t]);
        assert(events.drop_first().take(t - 1) =~= events.take(t).drop_first());
        assert(spec_run_engine(e, events.take(t)) == spec_run_engine(
            e1,
            events.take(t).drop_first(),
        ));
    }
}

/// Cancellation, end to end: if the cancellation signal arrives at
/// position `i` of the event stream (and not before), the engine answers
/// it with the single disconnect, and no later event provokes a send, an
/// append, or another disconnect — every later answer is idle.
pub proof fn lemma_cancellation(e: Engine, events: Seq<Event>, i: int, j: int)
    requires
        !e.cancelled,
        0 <= i < events.len(),
        events[i] is Cancel,
        forall|t: int| 0 <= t < i ==> !(#[trigger] events[t] is Cancel),
        i < j < events.len(),
    ensures
        spec_run_kinds(e, events)[i] == ActionKind::Disconnect,
        spec_run_kinds(e, events)[j] == ActionKind::Idle,
        forall|t: int| 0 <= t < i
            ==> #[trigger] spec_run_kinds(e, events)[t] != ActionKind::Disconnect,
{
    assert forall|t: int| 0 <= t < i implies #[trigger] spec_run_kinds(e, events)[t]
        != ActionKind::Disconnect by {
        lemma_run_kinds_index(e, events, t);
        assert(forall|u: int| 0 <= u < events.take(t).len()
            ==> #[trigger] events.take(t)[u] == events[u]);
        lemma_no_cancel_no_cancelled(e, events.take(t));
        assert(!(events[t] is Cancel));
    }
    lemma_run_kinds_len(e, events);
    let before = spec_run_engine(e, events.take(i));
    assert(forall|t: int| 0 <= t < events.take(i).len()
        ==> #[trigger] events.take(i)[t] == events[t]);
    lemma_no_cancel_no_cancelled(e, events.take(i));
    lemma_run_kinds_index(e, events, i);
    assert(spec_step_kind(before, events[i]) == ActionKind::Disconnect);

    let after = spec_run_engine(e, events.take(i + 1));
    assert(events.take(i + 1) =~= events.take(i) + seq![events[i]]);
    lemma_run_engine_app(e, events.take(i), seq![events[i]]);
    let single = seq![events[i]];
    assert(single.drop_first() =~= Seq::<Event>::empty());
    assert(spec_run_engine(before, single) == spec_run_engine(
        spec_next_engine(before, single[0]),
        single.drop_first(),
    ));
    assert(spec_run_engine(before, single) == spec_next_engine(before, events[i]));
    assert(after.cancelled);

    lemma_run_kinds_index(e, events, j);
    let at_j = spec_run_engine(e, events.take(j));
    assert(events.take(j) =~= events.take(i + 1) + events.subrange(i + 1, j));
    lemma_run_engine_app(e, events.take(i + 1), events.subrange(i + 1, j));
    lemma_cancelled_engine_is_idle(after, events.subrange(i + 1, j));
    assert(at_j == after);
    assert(spec_step_kind(at_j, events[j]) == ActionKind::Idle);
}

} // verus!
