//! The decisions of an actor's run loop: when `step` may run, what a step's
//! action does to the schedule, when a batch of events ends and which commands
//! stop the actor.
use vstd::prelude::*;

use crate::command::Command;
use crate::ids::ActorId;
use crate::policy::StepAction;
use std::time::Duration;

verus! {

/// Why an actor's `step` is not being called right now.
#[derive(Debug, Clone, Copy, PartialEq, Eq, Structural)]
pub enum StepPause {
    /// Not paused: `step` runs whenever the actor is idle.
    Running,
    /// Paused until the next event has been handled.
    AwaitEvent,
    /// Never run `step` again.
    Suppressed,
}

/// The scheduling state of an actor's `step`: whether it is paused, and the
/// back-off the last step asked for, if it has not elapsed yet.
#[derive(Debug, Clone, Copy)]
pub struct StepHandler {
    /// Whether `step` is paused, and why.
    pub pause: StepPause,
    /// The back-off delay still pending before the next `step`.
    pub backoff: Option<Duration>,
}

/// The pause that a step action leaves behind.
pub open spec fn pause_after(action: StepAction) -> StepPause {
    match action {
        StepAction::AwaitEvent => StepPause::AwaitEvent,
        StepAction::Never => StepPause::Suppressed,
        _ => StepPause::Running,
    }
}

impl Default for StepHandler {
    fn default() -> (r: StepHandler)
        ensures
            r.pause == StepPause::Running,
            r.backoff is None,
    {
        StepHandler { pause: StepPause::Running, backoff: None }
    }
}

impl StepHandler {
    /// `step` may run now: it is not paused and no back-off is pending.
    pub fn can_step(&self) -> (r: bool)
        ensures
            r == (self.pause == StepPause::Running && self.backoff is None),
    {
        match self.pause {
            StepPause::Running => self.backoff.is_none(),
            _ => false,
        }
    }

    /// A back-off is pending: `step` runs once it has elapsed.
    pub fn is_delayed(&self) -> (r: bool)
        ensures
            r == self.backoff is Some,
    {
        self.backoff.is_some()
    }

    /// Takes the pending back-off, once it has elapsed.
    pub fn take_backoff(&mut self) -> (r: Option<Duration>)
        ensures
            r == old(self).backoff,
            final(self).backoff is None,
            final(self).pause == old(self).pause,
    {
        let r = self.backoff;
        self.backoff = None;
        r
    }

    /// Clears the schedule after a failed step: `step` runs again as soon as
    /// the actor is idle.
    pub fn reset(&mut self)
        ensures
            final(self).pause == StepPause::Running,
            final(self).backoff is None,
    {
        self.pause = StepPause::Running;
        self.backoff = None;
    }

    /// Lifts a pause that waited for an event, once a batch of events has
    /// been handled; other pauses stay.
    pub fn event_handled(&mut self)
        ensures
            final(self).pause == if old(self).pause == StepPause::AwaitEvent {
                StepPause::Running
            } else {
                old(self).pause
            },
            final(self).backoff == old(self).backoff,
    {
        if let StepPause::AwaitEvent = self.pause {
            self.pause = StepPause::Running;
        }
    }
}

/// Applies the action returned by `step` to the schedule: `Continue` and
/// `Yield` keep `step` running, `AwaitEvent` pauses it until an event is
/// handled, `Backoff(d)` delays it by `d`, `Never` stops it for good.
/// Returns whether the loop must yield to the runtime before going on.
pub fn handle_step_action(step_action: StepAction, step_handler: &mut StepHandler) -> (yield_now: bool)
    ensures
        final(step_handler).pause == pause_after(step_action),
        final(step_handler).backoff == match step_action {
            StepAction::Backoff(d) => Some(d),
            _ => old(step_handler).backoff,
        },
        yield_now == step_action is Yield,
{
    let (pause, yield_now) = match step_action {
        StepAction::Continue => (StepPause::Running, false),
        StepAction::Yield => (StepPause::Running, true),
        StepAction::AwaitEvent => (StepPause::AwaitEvent, false),
        StepAction::Backoff(duration) => {
            step_handler.backoff = Some(duration);
            (StepPause::Running, false)
        },
        StepAction::Never => (StepPause::Suppressed, false),
    };
    step_handler.pause = pause;
    yield_now
}

/// Whether a command stops the actor `me`: a stop for an actor of its name, or
/// a stop of the whole runtime.
pub open spec fn stops(cmd: Command, me: Seq<char>) -> bool {
    match cmd {
        Command::StopActor(id) => id@ == me,
        Command::StopRuntime => true,
        Command::StopBroker => false,
    }
}

/// Decides whether the actor `me` leaves its loop on command `cmd`.
pub fn stops_actor(cmd: &Command, me: &ActorId) -> (r: bool)
    ensures
        r == stops(*cmd, me@),
{
    match cmd {
        Command::StopActor(id) => *id == *me,
        Command::StopRuntime => true,
        Command::StopBroker => false,
    }
}

/// Only `Never` stops `step` for good and only `AwaitEvent` waits for an
/// event; after `Continue`, `Yield` or `Backoff`, `step` is not paused, so it
/// runs again as soon as no back-off is pending. `Backoff(d)` sets a back-off
/// of `d`; the other actions leave the back-off as it was.
pub proof fn law_step_actions_schedule(action: StepAction, h: StepHandler)
    ensures
        pause_after(action) == StepPause::Suppressed <==> action is Never,
        pause_after(action) == StepPause::AwaitEvent <==> action is AwaitEvent,
        !(action is Never) && !(action is AwaitEvent) ==> pause_after(action) == StepPause::Running,
        action is Continue && h.backoff is None ==> (StepHandler { pause: pause_after(action), backoff: h.backoff }).pause
            == StepPause::Running,
{
}

/// Whether a batch goes on after `handled` events, given the actor's limit of
/// events per tick: it goes on while the count is below the limit, so the actor
/// yields once it has handled that many events.
pub open spec fn batch_continues(handled: int, limit: int) -> bool {
    handled < limit
}

/// Counts one more event handled in the current tick and says whether the
/// batch may take another event from the mailbox.
pub fn count_handled(handled: &mut usize, limit: usize) -> (more: bool)
    requires
        *old(handled) < usize::MAX,
    ensures
        *final(handled) == *old(handled) + 1,
        more == batch_continues(*final(handled) as int, limit as int),
{
    *handled = *handled + 1;
    *handled < limit
}

/// A tick never handles more events than the actor's limit: a tick starts with
/// one event and takes another only while the count is below the limit. (A
/// limit of zero still lets the one event that started the tick through.)
pub proof fn law_tick_handles_at_most_limit(limit: int, handled: int)
    requires
        handled >= 1,
        forall|c: int| 1 <= c < handled ==> #[trigger] batch_continues(c, limit),
    ensures
        handled <= limit || handled == 1,
{
    if handled > 1 && handled > limit {
        assert(batch_continues(handled - 1, limit));
    }
}

/// What an actor's loop does next.
#[derive(Debug, Clone, Copy, PartialEq, Eq, Structural)]
pub enum NextMove {
    /// Leave the loop: a command stopped the actor.
    Stop,
    /// Handle a tick of events from the mailbox.
    HandleEvents,
    /// Run `step`.
    Step,
    /// Nothing to do now: wait for a command, an event or the back-off.
    Wait,
}

/// The next move of an actor's loop. A stop command comes first. After a tick
/// of events, `step` runs when it can, so that a busy mailbox does not starve
/// it; otherwise a ready event is handled first, then `step` if it can run,
/// and else the actor waits.
pub open spec fn next_move_for(stop: bool, tick_ended: bool, can_step: bool, event_ready: bool) -> NextMove {
    if stop {
        NextMove::Stop
    } else if tick_ended && can_step {
        NextMove::Step
    } else if event_ready {
        NextMove::HandleEvents
    } else if can_step {
        NextMove::Step
    } else {
        NextMove::Wait
    }
}

/// Chooses the loop's next move from whether a stop command arrived, whether
/// the last move was a tick of events, the step schedule, and whether an event
/// is waiting in the mailbox.
pub fn next_move(stop: bool, tick_ended: bool, step_handler: &StepHandler, event_ready: bool) -> (m: NextMove)
    ensures
        m == next_move_for(
            stop,
            tick_ended,
            step_handler.pause == StepPause::Running && step_handler.backoff is None,
            event_ready,
        ),
{
    let can_step = step_handler.can_step();
    if stop {
        NextMove::Stop
    } else if tick_ended && can_step {
        NextMove::Step
    } else if event_ready {
        NextMove::HandleEvents
    } else if can_step {
        NextMove::Step
    } else {
        NextMove::Wait
    }
}

/// Whether a move ends a tick of events: exactly when it handled events.
pub fn ends_tick(m: NextMove) -> (r: bool)
    ensures
        r == (m == NextMove::HandleEvents),
{
    match m {
        NextMove::HandleEvents => true,
        _ => false,
    }
}

/// After a tick of events, `step` runs before any further event whenever it
/// can run and no stop command arrived.
pub proof fn law_step_runs_after_a_tick(tick_ended: bool, can_step: bool, event_ready: bool)
    requires
        tick_ended,
        can_step,
    ensures
        next_move_for(false, tick_ended, can_step, event_ready) == NextMove::Step,
{
}

/// Neither side starves: after a step (or at the start), a ready event is
/// handled next; after a tick, `step` runs next when it can; a stop command
/// always wins; and the actor waits only when no event is ready and `step`
/// cannot run.
pub proof fn law_events_and_steps_alternate(stop: bool, tick_ended: bool, can_step: bool, event_ready: bool)
    ensures
        stop ==> next_move_for(stop, tick_ended, can_step, event_ready) == NextMove::Stop,
        !stop && !tick_ended && event_ready ==> next_move_for(stop, tick_ended, can_step, event_ready)
            == NextMove::HandleEvents,
        next_move_for(stop, tick_ended, can_step, event_ready) == NextMove::Wait <==> (!stop && !event_ready && !can_step),
        next_move_for(stop, tick_ended, can_step, event_ready) == NextMove::Step ==> can_step,
        next_move_for(stop, tick_ended, can_step, event_ready) == NextMove::HandleEvents ==> event_ready,
{
}

/// Whether an actor may hand an event to the broker, checked before and again
/// after waiting for room in its channel: not once shutdown has begun, when the
/// send fails as if the mailbox were closed.
pub fn gate(stopping: bool) -> (r: Result<(), crate::error::Error>)
    ensures
        stopping ==> r == Err::<(), crate::error::Error>(crate::error::Error::MailboxClosed),
        !stopping ==> r is Ok,
{
    if stopping {
        Err(crate::error::Error::MailboxClosed)
    } else {
        Ok(())
    }
}

} // verus!
