//! The supervision of one student program, and the bundle of its results.

use crate::command::execution_context::ResultId;
use crate::command::paths::result_name;
use crate::communication::IoErrorKind;
use crate::simple_archive::entry_body;
use crate::simple_archive::entry_head;
use crate::simple_archive::stored_form;
use crate::simple_archive::Compression;
use crate::simple_archive::Writer;
use vstd::prelude::*;
use vstd::slice::slice_subrange;
use vstd::string::StringSliceAdditionalSpecFns;

verus! {

/// Largest number of bytes that a file contributes to a bundle.
pub const MAXIMUM_FILE_SIZE: usize = 1_000_000;

/// The exit code of a program that was killed.
pub const KILLED_EXIT_CODE: u8 = 255;

/// Milliseconds for which the supervisor waits for the child at a time.
pub const WAIT_INTERVAL: u64 = 1000;

/// Milliseconds that a killed child has to be gone.
pub const KILL_GRACE: u64 = 200;

/// How a child process ended, as the platform reports it.
#[derive(Debug, Clone, Copy, PartialEq, Eq, Structural)]
pub enum ExitStatus {
    /// The child exited with this code.
    Exited(u32),
    /// The child was ended by this signal.
    Signaled(i32),
    /// It is not known how the child ended.
    Undetermined,
}

/// What the platform reports to the supervisor.
#[derive(Debug, Clone, Copy, PartialEq, Eq, Structural)]
pub enum SupervisorEvent {
    /// The child ended within the wait.
    ChildExited(ExitStatus),
    /// The wait ran out with the child alive; `running_flag` is the flag
    /// of the shared state as read after the wait.
    WaitElapsed { running_flag: bool },
    /// The child was killed and was gone within the grace period.
    ChildKilled,
    /// The child was killed and was still there after the grace period.
    ChildSurvived,
}

/// What the platform is to do next for the supervisor.
#[derive(Debug, Clone, Copy, PartialEq, Eq, Structural)]
pub enum SupervisorAction {
    /// Wait up to `WAIT_INTERVAL` for the child to end; if it does not,
    /// read the running flag of the shared state.
    Wait,
    /// Kill the child and wait up to `KILL_GRACE` for it to be gone.
    Kill,
    /// The execution is over with this exit code: build the bundle and
    /// record the end of the execution in the shared state.
    Finish(u8),
    /// The child cannot be stopped: give up.
    Abort,
}

/// Where the supervisor stands.
#[derive(Debug, Clone, Copy, PartialEq, Eq, Structural)]
pub enum Supervisor {
    /// The child runs, and may do so for this many seconds more.
    Watching { seconds_left: u16 },
    /// The child was told to die.
    Killing,
    /// The execution is over.
    Finished,
}

/// The exit code of a child that ended by itself: its own code where it
/// exited, cut to the lowest eight bits, else 0.
pub open spec fn exit_code(status: ExitStatus) -> u8 {
    match status {
        ExitStatus::Exited(code) => (code % 256) as u8,
        _ => 0,
    }
}

/// The supervisor at the launch of a program with `timeout` seconds to run,
/// and what is to do first: a program without time is killed at once.
pub open spec fn supervisor_start(timeout: u16) -> (Supervisor, SupervisorAction) {
    if timeout == 0 {
        (Supervisor::Killing, SupervisorAction::Kill)
    } else {
        (Supervisor::Watching { seconds_left: timeout }, SupervisorAction::Wait)
    }
}

/// The step of the supervisor as a function.
///
/// A child that ends while it is watched ends the execution with its exit
/// code. When a wait runs out, the child is killed if the running flag was
/// cleared or if its time is up; else the next wait begins. A killed child
/// ends the execution with `KILLED_EXIT_CODE`; one that survives is beyond
/// help, and so is every event that does not fit the state.
pub open spec fn supervisor_step(state: Supervisor, event: SupervisorEvent) -> (
    Supervisor,
    SupervisorAction,
) {
    match (state, event) {
        (Supervisor::Watching { seconds_left }, SupervisorEvent::ChildExited(status)) => (
            Supervisor::Finished,
            SupervisorAction::Finish(exit_code(status)),
        ),
        (
            Supervisor::Watching { seconds_left },
            SupervisorEvent::WaitElapsed { running_flag },
        ) => if running_flag && seconds_left > 1 {
            (
                Supervisor::Watching { seconds_left: (seconds_left - 1) as u16 },
                SupervisorAction::Wait,
            )
        } else {
            (Supervisor::Killing, SupervisorAction::Kill)
        },
        (Supervisor::Killing, SupervisorEvent::ChildKilled) => (
            Supervisor::Finished,
            SupervisorAction::Finish(KILLED_EXIT_CODE),
        ),
        _ => (Supervisor::Finished, SupervisorAction::Abort),
    }
}

impl Supervisor {
    /// The supervisor of a program that was just launched.
    pub fn start(timeout: u16) -> (begun: (Supervisor, SupervisorAction))
        ensures
            begun == supervisor_start(timeout),
    {
        if timeout == 0 {
            (Supervisor::Killing, SupervisorAction::Kill)
        } else {
            (Supervisor::Watching { seconds_left: timeout }, SupervisorAction::Wait)
        }
    }

    /// Takes what the platform reports and says what is to do next.
    pub fn step(&mut self, event: SupervisorEvent) -> (action: SupervisorAction)
        ensures
            (*final(self), action) == supervisor_step(*old(self), event),
    {
        let (next, action) = match (*self, event) {
            (Supervisor::Watching { seconds_left }, SupervisorEvent::ChildExited(status)) => {
                let code: u8 = match status {
                    ExitStatus::Exited(code) => (code % 256) as u8,
                    _ => 0,
                };
                (Supervisor::Finished, SupervisorAction::Finish(code))
            },
            (
                Supervisor::Watching { seconds_left },
                SupervisorEvent::WaitElapsed { running_flag },
            ) => {
                if running_flag && seconds_left > 1 {
                    (
                        Supervisor::Watching { seconds_left: seconds_left - 1 },
                        SupervisorAction::Wait,
                    )
                } else {
                    (Supervisor::Killing, SupervisorAction::Kill)
                }
            },
            (Supervisor::Killing, SupervisorEvent::ChildKilled) => (
                Supervisor::Finished,
                SupervisorAction::Finish(KILLED_EXIT_CODE),
            ),
            _ => (Supervisor::Finished, SupervisorAction::Abort),
        };
        *self = next;
        action
    }
}

/// The watching of a child comes to an end: a supervisor that watches with
/// `seconds_left` seconds to go asks for at most that many waits, whatever
/// the platform reports.
pub proof fn lemma_supervisor_waits_are_bounded(
    seconds_left: u16,
    event: SupervisorEvent,
)
    requires
        seconds_left >= 1,
    ensures
        ({
            let (next, action) = supervisor_step(Supervisor::Watching { seconds_left }, event);
            action == SupervisorAction::Wait ==> next == (Supervisor::Watching {
                seconds_left: (seconds_left - 1) as u16,
            }) && seconds_left > 1
        }),
{
}

/// The first `MAXIMUM_FILE_SIZE` bytes of `data`.
pub open spec fn truncated(data: Seq<u8>) -> Seq<u8> {
    if data.len() <= MAXIMUM_FILE_SIZE {
        data
    } else {
        data.take(MAXIMUM_FILE_SIZE as int)
    }
}

/// The archive `archive` with one more entry for the file `data`, cut to
/// `MAXIMUM_FILE_SIZE` bytes; the archive as it is where the file is
/// missing; `None` where the entry cannot be written.
pub open spec fn with_file(
    archive: Seq<u8>,
    name: Seq<u8>,
    data: Option<Seq<u8>>,
    compression: Compression,
) -> Option<Seq<u8>> {
    match data {
        None => Some(archive),
        Some(data) => if name.len() > 255 {
            None
        } else {
            match stored_form(truncated(data), compression) {
                Some(stored) => if stored.len() <= u32::MAX {
                    Some(archive + entry_head(name) + entry_body(stored))
                } else {
                    None
                },
                None => None,
            }
        },
    }
}

/// Adds the file `data` to the archive under `name`, unless it is missing.
pub fn add_to_archive_if_exists(
    archive: &mut Writer,
    name: &str,
    data: Option<Vec<u8>>,
    compression: Compression,
) -> (r: Result<(), IoErrorKind>)
    ensures
        match with_file(
            old(archive)@,
            name.spec_bytes(),
            crate::simple_archive::optional_bytes(data),
            compression,
        ) {
            Some(bytes) => r == Ok::<(), IoErrorKind>(()) && final(archive)@ == bytes,
            None => r == Err::<(), IoErrorKind>(IoErrorKind::Other),
        },
{
    match data {
        Some(data) => {
            let kept = if data.len() <= MAXIMUM_FILE_SIZE {
                data.as_slice()
            } else {
                slice_subrange(data.as_slice(), 0, MAXIMUM_FILE_SIZE)
            };
            assert(kept@ =~= truncated(data@));
            archive.append_data(name, kept, compression)
        },
        None => Ok(()),
    }
}

/// The bundle of an execution: up to three entries, in this order, each
/// for a file that exists. The result file, under the name of the
/// result, as it is; the output of the program, as `student_log`,
/// compressed; the log of the scheduler, as `log`, compressed.
pub open spec fn result_archive(
    name: Seq<u8>,
    result: Option<Seq<u8>>,
    student_log: Option<Seq<u8>>,
    log: Option<Seq<u8>>,
) -> Option<Seq<u8>> {
    match with_file(Seq::empty(), name, result, Compression::Stored) {
        None => None,
        Some(first) => match with_file(
            first,
            "student_log".spec_bytes(),
            student_log,
            Compression::Zopfli,
        ) {
            None => None,
            Some(second) => with_file(second, "log".spec_bytes(), log, Compression::Zopfli),
        },
    }
}

/// Builds the bundle of the execution `res` from the files that the caller
/// has read: the result file of the program, its output, and the log of
/// the scheduler; `None` stands for a file that does not exist. The caller
/// writes the bundle to its place, removes the first two files and
/// empties the third.
pub fn build_result_archive(
    res: ResultId,
    result: Option<Vec<u8>>,
    student_log: Option<Vec<u8>>,
    log: Option<Vec<u8>>,
) -> (r: Result<Vec<u8>, IoErrorKind>)
    ensures
        match result_archive(
            vstd::utf8::encode_utf8(result_name(res)),
            crate::simple_archive::optional_bytes(result),
            crate::simple_archive::optional_bytes(student_log),
            crate::simple_archive::optional_bytes(log),
        ) {
            Some(bytes) => r is Ok && r->Ok_0@ == bytes,
            None => r == Err::<Vec<u8>, IoErrorKind>(IoErrorKind::Other),
        },
{
    let mut archive = Writer::new(Vec::new());
    let name = res.to_string();
    match add_to_archive_if_exists(&mut archive, name.as_str(), result, Compression::Stored) {
        Ok(()) => {},
        Err(e) => {
            return Err(e);
        },
    }
    match add_to_archive_if_exists(&mut archive, "student_log", student_log, Compression::Zopfli) {
        Ok(()) => {},
        Err(e) => {
            return Err(e);
        },
    }
    match add_to_archive_if_exists(&mut archive, "log", log, Compression::Zopfli) {
        Ok(()) => {},
        Err(e) => {
            return Err(e);
        },
    }
    Ok(archive.into_inner())
}

} // verus!
