//! How a running student program is brought to an end.

use crate::command::execution_context::ExecutionContext;
use crate::command::Cause;
use crate::command::CommandError;
use vstd::prelude::*;

verus! {

/// How often the supervisor is looked after before it counts as stuck.
pub const TERMINATION_POLLS: u32 = 20;

/// Milliseconds between two looks at the supervisor.
pub const TERMINATION_POLL_INTERVAL: u64 = 100;

/// What the platform reports while a program is terminated.
#[derive(Debug, Clone, Copy, PartialEq, Eq, Structural)]
pub enum TerminationEvent {
    /// The termination begins.
    Begin,
    /// The interval has passed; `finished` says whether the supervisor has
    /// run to its end.
    Polled { finished: bool },
    /// The supervisor was joined; `panicked` says whether it had panicked.
    Joined { panicked: bool },
}

/// What the platform is to do next.
#[derive(Debug, Clone, Copy, PartialEq, Eq, Structural)]
pub enum TerminationAction {
    /// Nothing: the termination has succeeded.
    Done,
    /// Release the shared state, sleep for the interval, take the shared
    /// state again and report whether the supervisor has finished.
    Poll,
    /// Join the supervisor and report how it ended.
    Join,
    /// Give up with this error.
    Fail(CommandError),
}

/// The progress of one termination.
#[derive(Debug, Clone, Copy, PartialEq, Eq, Structural)]
pub struct Termination {
    /// How often the supervisor may still be looked after.
    pub polls_left: u32,
}

/// The step of a termination as a function: the action, the polls that are
/// left, and the two flags of the shared state after the step.
///
/// At the beginning nothing is to do where no supervisor is attached; else
/// the running flag is cleared, which tells the supervisor to stop its
/// program, and the first poll is due. A poll that finds the supervisor
/// finished leads to the join, after which the supervisor is detached. A
/// poll that finds it running leads to the next poll, up to
/// `TERMINATION_POLLS` in all; then the termination fails.
pub open spec fn termination_step(
    polls_left: u32,
    attached: bool,
    running_flag: bool,
    event: TerminationEvent,
) -> (TerminationAction, u32, bool, bool) {
    match event {
        TerminationEvent::Begin => if attached {
            (TerminationAction::Poll, TERMINATION_POLLS, attached, false)
        } else {
            (TerminationAction::Done, polls_left, attached, running_flag)
        },
        TerminationEvent::Polled { finished } => if finished {
            (TerminationAction::Join, polls_left, attached, running_flag)
        } else if polls_left > 1 {
            (TerminationAction::Poll, (polls_left - 1) as u32, attached, running_flag)
        } else {
            (
                TerminationAction::Fail(CommandError::NonRecoverable(Cause::SupervisorStuck)),
                0,
                attached,
                running_flag,
            )
        },
        TerminationEvent::Joined { panicked } => if panicked {
            (
                TerminationAction::Fail(CommandError::NonRecoverable(Cause::SupervisorPanicked)),
                polls_left,
                false,
                running_flag,
            )
        } else {
            (TerminationAction::Done, polls_left, false, running_flag)
        },
    }
}

impl Termination {
    /// A termination that has not begun.
    pub fn new() -> (progress: Self)
        ensures
            progress.polls_left == TERMINATION_POLLS,
    {
        Termination { polls_left: TERMINATION_POLLS }
    }
}

/// One step in the termination of the running student program. The caller
/// holds the shared state, hands in what it observed, and does what the
/// returned action says; it calls again with what came of that, until the
/// action is `Done` or `Fail`. The queue and the data-ready line are not
/// touched.
pub fn terminate_student_program(
    exec: &mut ExecutionContext,
    progress: &mut Termination,
    event: TerminationEvent,
) -> (action: TerminationAction)
    ensures
        (action, final(progress).polls_left, final(exec).supervisor_attached, final(exec).running_flag)
            == termination_step(
            old(progress).polls_left,
            old(exec).supervisor_attached,
            old(exec).running_flag,
            event,
        ),
        final(exec).event_vec == old(exec).event_vec,
        final(exec).update_pin == old(exec).update_pin,
{
    match event {
        TerminationEvent::Begin => {
            if !exec.is_student_program_running() {
                return TerminationAction::Done;
            }
            exec.running_flag = false;
            progress.polls_left = TERMINATION_POLLS;
            TerminationAction::Poll
        },
        TerminationEvent::Polled { finished } => {
            if finished {
                TerminationAction::Join
            } else if progress.polls_left > 1 {
                progress.polls_left = progress.polls_left - 1;
                TerminationAction::Poll
            } else {
                progress.polls_left = 0;
                TerminationAction::Fail(CommandError::NonRecoverable(Cause::SupervisorStuck))
            }
        },
        TerminationEvent::Joined { panicked } => {
            exec.supervisor_attached = false;
            if panicked {
                TerminationAction::Fail(CommandError::NonRecoverable(Cause::SupervisorPanicked))
            } else {
                TerminationAction::Done
            }
        },
    }
}

} // verus!
