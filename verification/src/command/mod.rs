//! The commands of the on-board computer: how they are read, checked and
//! answered.
//!
//! A handler talks to the on-board computer over the link and leaves what
//! only the platform can do (files, processes, the clock) to its caller: it
//! returns what the command asks for, and further functions answer the
//! on-board computer once the platform has done its part.

use crate::bytes::from_le16;
use crate::bytes::from_le32;
use crate::bytes::u16_from_le;
use crate::bytes::u32_from_le;
use crate::communication::appended;
use crate::communication::bytes_view;
use crate::communication::cep::Frame;
use crate::communication::continues;
use crate::communication::lemma_continues;
use crate::communication::lemma_done;
use crate::communication::lemma_grown;
use crate::communication::lemma_step;
use crate::communication::lemma_two_steps;
use crate::communication::parameters;
use crate::communication::replay::after;
use crate::communication::replay::lemma_receive_ignores_rest;
use crate::communication::replay::lemma_send_multi_ignores_rest;
use crate::communication::replay::replay_await_ack;
use crate::communication::replay::replay_receive;
use crate::communication::replay::replay_receive_multi;
use crate::communication::replay::replay_send;
use crate::communication::replay::replay_send_multi;
use crate::communication::replay::returned;
use crate::communication::replay::used;
use crate::communication::replay::LinkParameters;
use crate::communication::replay::Replay;
use crate::communication::CEPPacket;
use crate::communication::CommunicationError;
use crate::communication::RecordedHandle;
use crate::communication::IoErrorKind;
use crate::communication::LinkEvent;
use crate::communication::PacketLink;
use vstd::prelude::*;
use vstd::slice::slice_to_vec;

pub mod common;
pub mod execute_program;
pub mod execution_context;
pub mod paths;

pub use common::terminate_student_program;
pub use execute_program::build_result_archive;
pub use execution_context::Event;
pub use execution_context::ExecutionContext;
pub use execution_context::ProgramStatus;
pub use execution_context::ResultId;
pub use execution_context::RetryEvent;
pub use execution_context::UpdatePin;

verus! {

/// Milliseconds to wait for the acknowledgement that ends a command.
pub const COMMAND_TIMEOUT: u64 = 1000;

/// What went wrong with a command.
#[derive(Debug, Clone, Copy, PartialEq, Eq, Structural)]
pub enum Cause {
    /// The link layer failed.
    Link(CommunicationError),
    /// The command has another length than its kind calls for.
    WrongLength { actual: usize, expected: usize },
    /// A frame other than a data frame stood where a command was expected.
    NotACommand,
    /// The data frame of the command was empty.
    EmptyCommand,
    /// The first byte of the command names no command.
    UnknownCommand(u8),
    /// The program to execute is not installed.
    MissingProgram,
    /// The result asked for does not exist.
    MissingResult,
    /// A file operation failed.
    Io(IoErrorKind),
    /// The archive could not be unpacked.
    UnpackFailed,
    /// The student program could not be started.
    LaunchFailed,
    /// The supervisor of the running program panicked.
    SupervisorPanicked,
    /// The supervisor of the running program did not finish in time.
    SupervisorStuck,
    /// The system time could not be set.
    TimeNotSet,
}

/// The three classes of failure at the command boundary.
#[derive(Debug, Clone, Copy, PartialEq, Eq, Structural)]
pub enum CommandError {
    /// An invariant or the platform failed. The scheduler gives up.
    NonRecoverable(Cause),
    /// The link layer found a packet invalid. The dispatcher goes on.
    External(Cause),
    /// The on-board computer sent something ill-formed. The dispatcher
    /// goes on.
    ProtocolViolation(Cause),
}

pub type CommandResult = Result<(), CommandError>;

/// The class of a failure of the link layer: an invalid packet is external,
/// a failure of the stream is not recoverable, everything else is a
/// protocol violation.
pub open spec fn link_failure(e: CommunicationError) -> CommandError {
    match e {
        CommunicationError::PacketInvalidError => CommandError::External(Cause::Link(e)),
        CommunicationError::Io(_) => CommandError::NonRecoverable(Cause::Link(e)),
        _ => CommandError::ProtocolViolation(Cause::Link(e)),
    }
}

impl vstd::std_specs::convert::FromSpecImpl<CommunicationError> for CommandError {
    open spec fn obeys_from_spec() -> bool {
        true
    }

    open spec fn from_spec(e: CommunicationError) -> Self {
        link_failure(e)
    }
}

impl From<CommunicationError> for CommandError {
    fn from(e: CommunicationError) -> (error: Self) {
        match e {
            CommunicationError::PacketInvalidError => CommandError::External(Cause::Link(e)),
            CommunicationError::TimedOut
            | CommunicationError::NotAcknowledged
            | CommunicationError::CepParsing(_) => CommandError::ProtocolViolation(Cause::Link(e)),
            CommunicationError::Io(_) => CommandError::NonRecoverable(Cause::Link(e)),
        }
    }
}

impl vstd::std_specs::convert::FromSpecImpl<IoErrorKind> for CommandError {
    open spec fn obeys_from_spec() -> bool {
        true
    }

    open spec fn from_spec(kind: IoErrorKind) -> Self {
        CommandError::NonRecoverable(Cause::Io(kind))
    }
}

impl From<IoErrorKind> for CommandError {
    /// A failed file operation is not recoverable.
    fn from(kind: IoErrorKind) -> (error: Self) {
        CommandError::NonRecoverable(Cause::Io(kind))
    }
}

/// The kinds of command, which the first byte of a command names.
#[derive(Debug, Clone, Copy, PartialEq, Eq, Structural)]
pub enum CommandKind {
    StoreArchive,
    ExecuteProgram,
    StopProgram,
    GetStatus,
    ReturnResult,
    UpdateTime,
}

impl CommandKind {
    /// The kind that the opcode `byte` names.
    pub open spec fn of(byte: u8) -> Option<CommandKind> {
        if byte == 1 {
            Some(CommandKind::StoreArchive)
        } else if byte == 2 {
            Some(CommandKind::ExecuteProgram)
        } else if byte == 3 {
            Some(CommandKind::StopProgram)
        } else if byte == 4 {
            Some(CommandKind::GetStatus)
        } else if byte == 5 {
            Some(CommandKind::ReturnResult)
        } else if byte == 6 {
            Some(CommandKind::UpdateTime)
        } else {
            None
        }
    }

    /// The length of a command of this kind, opcode included.
    pub open spec fn length(self) -> nat {
        match self {
            CommandKind::StoreArchive => 3,
            CommandKind::ExecuteProgram => 9,
            CommandKind::StopProgram => 1,
            CommandKind::GetStatus => 1,
            CommandKind::ReturnResult => 7,
            CommandKind::UpdateTime => 5,
        }
    }
}

/// A command as it came over the link: its kind and all of its bytes.
#[derive(Debug, Clone, PartialEq, Eq)]
pub struct Command {
    pub kind: CommandKind,
    pub data: Vec<u8>,
}

/// What an execute-program command asks for.
#[derive(Debug, Clone, Copy, PartialEq, Eq, Structural)]
pub struct Execution {
    pub program_id: u16,
    pub timestamp: u32,
    /// The wall-clock budget, in seconds.
    pub timeout: u16,
}

/// The command that a received packet holds, or why it holds none.
pub open spec fn decoded(received: Result<Frame, CommunicationError>) -> Result<
    (CommandKind, Seq<u8>),
    CommandError,
> {
    match received {
        Err(e) => Err(link_failure(e)),
        Ok(Frame::Data(data)) => if data.len() == 0 {
            Err(CommandError::ProtocolViolation(Cause::EmptyCommand))
        } else {
            match CommandKind::of(data[0]) {
                Some(kind) => Ok((kind, data)),
                None => Err(CommandError::ProtocolViolation(Cause::UnknownCommand(data[0]))),
            }
        },
        Ok(_) => Err(CommandError::ProtocolViolation(Cause::NotACommand)),
    }
}

/// The result of reading a command, with the bytes as a mathematical value.
pub open spec fn command_view(r: Result<Command, CommandError>) -> Result<
    (CommandKind, Seq<u8>),
    CommandError,
> {
    match r {
        Ok(command) => Ok((command.kind, command.data@)),
        Err(e) => Err(e),
    }
}

/// What a handler returns that sent `Nack` because of `reason`: the reason,
/// or the failure of the link where `Nack` did not go out.
pub open spec fn refusal(sent: Result<(), CommunicationError>, reason: CommandError) -> CommandError {
    match sent {
        Ok(()) => reason,
        Err(e) => link_failure(e),
    }
}

/// The check of the length of a command: nothing happens where `data` has
/// `n` bytes; else `Nack` is sent, and the call fails with a protocol
/// violation.
pub open spec fn replay_check_length(
    data: Seq<u8>,
    n: nat,
    events: Seq<LinkEvent>,
    link: LinkParameters,
) -> Replay<CommandResult> {
    if data.len() == n {
        Some((Ok(()), 0))
    } else {
        match replay_send(Frame::Nack, events, link) {
            None => None,
            Some((sent, used)) => Some(
                (
                    Err(
                        refusal(
                            sent,
                            CommandError::ProtocolViolation(
                                Cause::WrongLength { actual: data.len() as usize, expected: n as usize },
                            ),
                        ),
                    ),
                    used,
                ),
            ),
        }
    }
}

/// Checks that a command has `n` bytes. Where it has not, `Nack` goes out
/// and the call fails with `ProtocolViolation`.
pub fn check_length<C: PacketLink>(com: &mut C, vec: &[u8], n: usize) -> (r: CommandResult)
    ensures
        continues(old(com).history(), final(com).history()),
        replay_check_length(
            vec@,
            n as nat,
            appended(old(com).history(), final(com).history()),
            parameters::<C>(),
        ) == Some((r, appended(old(com).history(), final(com).history()).len())),
{
    let actual_len = vec.len();
    if actual_len == n {
        proof {
            lemma_grown(com.history(), Seq::empty());
            assert(com.history() + Seq::<LinkEvent>::empty() =~= com.history());
        }
        Ok(())
    } else {
        let reason = CommandError::ProtocolViolation(
            Cause::WrongLength { actual: actual_len, expected: n },
        );
        match com.send_packet(&CEPPacket::Nack) {
            Ok(()) => Err(reason),
            Err(e) => Err(CommandError::from(e)),
        }
    }
}

/// Waits for a command: reads one packet, which must be a data packet that
/// begins with the opcode of a command.
pub fn receive_command<C: PacketLink>(com: &mut C) -> (r: Result<Command, CommandError>)
    ensures
        continues(old(com).history(), final(com).history()),
        replay_receive(
            appended(old(com).history(), final(com).history()),
            C::DATA_PACKET_RETRIES as nat,
        ) is Some,
        used(
            replay_receive(
                appended(old(com).history(), final(com).history()),
                C::DATA_PACKET_RETRIES as nat,
            ),
        ) == appended(old(com).history(), final(com).history()).len(),
        command_view(r) == decoded(
            returned(
                replay_receive(
                    appended(old(com).history(), final(com).history()),
                    C::DATA_PACKET_RETRIES as nat,
                ),
            ),
        ),
{
    let packet = match com.receive_packet() {
        Ok(packet) => packet,
        Err(e) => {
            return Err(CommandError::from(e));
        },
    };
    let data = match packet {
        CEPPacket::Data(data) => data,
        _ => {
            return Err(CommandError::ProtocolViolation(Cause::NotACommand));
        },
    };
    if data.len() == 0 {
        return Err(CommandError::ProtocolViolation(Cause::EmptyCommand));
    }
    let opcode = data[0];
    let kind = if opcode == 0x01 {
        CommandKind::StoreArchive
    } else if opcode == 0x02 {
        CommandKind::ExecuteProgram
    } else if opcode == 0x03 {
        CommandKind::StopProgram
    } else if opcode == 0x04 {
        CommandKind::GetStatus
    } else if opcode == 0x05 {
        CommandKind::ReturnResult
    } else if opcode == 0x06 {
        CommandKind::UpdateTime
    } else {
        return Err(CommandError::ProtocolViolation(Cause::UnknownCommand(opcode)));
    };
    Ok(Command { kind, data })
}

/// What a handler makes of a utility of the platform that it had to run:
/// `Ok(true)` says that the utility ran with success, `Ok(false)` that it
/// ran and failed, and an error that it could not be run. Whatever went
/// wrong is not recoverable.
pub fn utility_result(outcome: Result<bool, IoErrorKind>, failure: Cause) -> (r: CommandResult)
    ensures
        r == (match outcome {
            Ok(true) => Ok::<(), CommandError>(()),
            Ok(false) => Err(CommandError::NonRecoverable(failure)),
            Err(kind) => Err(CommandError::NonRecoverable(Cause::Io(kind))),
        }),
{
    match outcome {
        Ok(true) => Ok(()),
        Ok(false) => Err(CommandError::NonRecoverable(failure)),
        Err(kind) => Err(CommandError::from(kind)),
    }
}

/// Answers a command with `Ack`, once its work is done.
pub fn acknowledge<C: PacketLink>(com: &mut C) -> (r: CommandResult)
    ensures
        continues(old(com).history(), final(com).history()),
        replay_send(
            Frame::Ack,
            appended(old(com).history(), final(com).history()),
            parameters::<C>(),
        ) is Some,
        used(
            replay_send(
                Frame::Ack,
                appended(old(com).history(), final(com).history()),
                parameters::<C>(),
            ),
        ) == appended(old(com).history(), final(com).history()).len(),
        r == (match returned(
            replay_send(
                Frame::Ack,
                appended(old(com).history(), final(com).history()),
                parameters::<C>(),
            ),
        ) {
            Ok(()) => Ok(()),
            Err(e) => Err(link_failure(e)),
        }),
{
    match com.send_packet(&CEPPacket::Ack) {
        Ok(()) => Ok(()),
        Err(e) => Err(CommandError::from(e)),
    }
}

/// Answers a command that cannot be carried out with `Nack`, and fails with
/// `reason`.
pub fn reject<C: PacketLink>(com: &mut C, reason: CommandError) -> (r: CommandResult)
    ensures
        continues(old(com).history(), final(com).history()),
        replay_send(
            Frame::Nack,
            appended(old(com).history(), final(com).history()),
            parameters::<C>(),
        ) is Some,
        used(
            replay_send(
                Frame::Nack,
                appended(old(com).history(), final(com).history()),
                parameters::<C>(),
            ),
        ) == appended(old(com).history(), final(com).history()).len(),
        r == Err::<(), CommandError>(
            refusal(
                returned(
                    replay_send(
                        Frame::Nack,
                        appended(old(com).history(), final(com).history()),
                        parameters::<C>(),
                    ),
                ),
                reason,
            ),
        ),
{
    match com.send_packet(&CEPPacket::Nack) {
        Ok(()) => Err(reason),
        Err(e) => Err(CommandError::from(e)),
    }
}

/// What a handler makes of the check of the length: the error of the check,
/// or `value` where the length was right.
pub open spec fn checked<T>(check: CommandResult, value: T) -> Result<T, CommandError> {
    match check {
        Ok(()) => Ok(value),
        Err(e) => Err(e),
    }
}

/// The number that the four little-endian bytes `b0` to `b3` hold in two's
/// complement.
pub open spec fn signed_from_le32(b0: u8, b1: u8, b2: u8, b3: u8) -> i32 {
    let value = from_le32(b0, b1, b2, b3);
    if value < 0x8000_0000 {
        value as i32
    } else {
        (value - 0x1_0000_0000) as i32
    }
}

/// The first part of store archive: once the command has the right length,
/// the archive is received as a multi-packet transfer.
pub open spec fn replay_store_archive(
    data: Seq<u8>,
    events: Seq<LinkEvent>,
    link: LinkParameters,
) -> Replay<Result<(u16, Seq<u8>), CommandError>> {
    if data.len() != 3 {
        match replay_check_length(data, 3, events, link) {
            None => None,
            Some((check, n)) => Some((checked(check, (0u16, Seq::<u8>::empty())), n)),
        }
    } else {
        match replay_receive_multi(events, link.retries) {
            None => None,
            Some((Ok(bytes), n)) => Some((Ok((from_le16(data[1], data[2]), bytes)), n)),
            Some((Err(e), n)) => Some((Err(link_failure(e)), n)),
        }
    }
}

/// The result of the first part of store archive, with the bytes as a
/// mathematical value.
pub open spec fn archive_view(r: Result<(u16, Vec<u8>), CommandError>) -> Result<
    (u16, Seq<u8>),
    CommandError,
> {
    match r {
        Ok((id, bytes)) => Ok((id, bytes@)),
        Err(e) => Err(e),
    }
}

/// Store archive, up to the unpacking: checks the length of the command
/// and receives the archive. Returns the program id and the bytes of the
/// archive, which the caller unpacks into the directory of the program
/// before it answers with `acknowledge`.
pub fn store_archive<C: PacketLink>(data: &[u8], com: &mut C) -> (r: Result<
    (u16, Vec<u8>),
    CommandError,
>)
    ensures
        continues(old(com).history(), final(com).history()),
        appended(old(com).history(), final(com).history()).len() < u64::MAX
            ==> replay_store_archive(
            data@,
            appended(old(com).history(), final(com).history()),
            parameters::<C>(),
        ) == Some((archive_view(r), appended(old(com).history(), final(com).history()).len())),
{
    match check_length(com, data, 3) {
        Ok(()) => {},
        Err(e) => {
            return Err(e);
        },
    }
    proof {
        lemma_continues(old(com).history(), com.history());
        assert(com.history() =~= old(com).history());
    }
    let id = u16_from_le(data[1], data[2]);
    match com.receive_multi_packet() {
        Ok(bytes) => Ok((id, bytes)),
        Err(e) => Err(CommandError::from(e)),
    }
}

/// Execute program, up to the launch: checks the length of the command and
/// reads the program id, the timestamp and the timeout from it. The caller
/// stops a running program, launches the new one under a supervisor and
/// answers with `acknowledge`, or with `reject` where the program is
/// missing.
pub fn execute_program<C: PacketLink>(data: &[u8], com: &mut C) -> (r: Result<
    Execution,
    CommandError,
>)
    ensures
        continues(old(com).history(), final(com).history()),
        replay_check_length(
            data@,
            9,
            appended(old(com).history(), final(com).history()),
            parameters::<C>(),
        ) is Some,
        used(
            replay_check_length(
                data@,
                9,
                appended(old(com).history(), final(com).history()),
                parameters::<C>(),
            ),
        ) == appended(old(com).history(), final(com).history()).len(),
        r == checked(
            returned(
                replay_check_length(
                    data@,
                    9,
                    appended(old(com).history(), final(com).history()),
                    parameters::<C>(),
                ),
            ),
            Execution {
                program_id: from_le16(data@[1], data@[2]),
                timestamp: from_le32(data@[3], data@[4], data@[5], data@[6]),
                timeout: from_le16(data@[7], data@[8]),
            },
        ),
{
    match check_length(com, data, 9) {
        Ok(()) => {},
        Err(e) => {
            return Err(e);
        },
    }
    let program_id = u16_from_le(data[1], data[2]);
    let timestamp = u32_from_le(data[3], data[4], data[5], data[6]);
    let timeout = u16_from_le(data[7], data[8]);
    Ok(Execution { program_id, timestamp, timeout })
}

/// Stop program, up to the termination: checks the length of the command.
/// The caller terminates the running program and answers with
/// `acknowledge`.
pub fn stop_program<C: PacketLink>(data: &[u8], com: &mut C) -> (r: CommandResult)
    ensures
        continues(old(com).history(), final(com).history()),
        replay_check_length(
            data@,
            1,
            appended(old(com).history(), final(com).history()),
            parameters::<C>(),
        ) == Some((r, appended(old(com).history(), final(com).history()).len())),
{
    check_length(com, data, 1)
}

/// Update time, up to the setting of the clock: checks the length of the
/// command and reads the seconds since the epoch from it, a signed number.
/// The caller sets the clock and answers with `acknowledge`.
pub fn update_time<C: PacketLink>(data: &[u8], com: &mut C) -> (r: Result<i32, CommandError>)
    ensures
        continues(old(com).history(), final(com).history()),
        replay_check_length(
            data@,
            5,
            appended(old(com).history(), final(com).history()),
            parameters::<C>(),
        ) is Some,
        used(
            replay_check_length(
                data@,
                5,
                appended(old(com).history(), final(com).history()),
                parameters::<C>(),
            ),
        ) == appended(old(com).history(), final(com).history()).len(),
        r == checked(
            returned(
                replay_check_length(
                    data@,
                    5,
                    appended(old(com).history(), final(com).history()),
                    parameters::<C>(),
                ),
            ),
            signed_from_le32(data@[1], data@[2], data@[3], data@[4]),
        ),
{
    match check_length(com, data, 5) {
        Ok(()) => {},
        Err(e) => {
            return Err(e);
        },
    }
    let value = u32_from_le(data[1], data[2], data[3], data[4]);
    if value < 0x8000_0000 {
        Ok(value as i32)
    } else {
        Ok((value as i64 - 0x1_0000_0000i64) as i32)
    }
}

/// Return result, up to the reading of the bundle: checks the length of
/// the command and reads from it which result is asked for. The caller
/// reads the bundle and hands it to `transfer_result`.
pub fn return_result<C: PacketLink>(data: &[u8], com: &mut C) -> (r: Result<
    ResultId,
    CommandError,
>)
    ensures
        continues(old(com).history(), final(com).history()),
        replay_check_length(
            data@,
            7,
            appended(old(com).history(), final(com).history()),
            parameters::<C>(),
        ) is Some,
        used(
            replay_check_length(
                data@,
                7,
                appended(old(com).history(), final(com).history()),
                parameters::<C>(),
            ),
        ) == appended(old(com).history(), final(com).history()).len(),
        r == checked(
            returned(
                replay_check_length(
                    data@,
                    7,
                    appended(old(com).history(), final(com).history()),
                    parameters::<C>(),
                ),
            ),
            ResultId {
                program_id: from_le16(data@[1], data@[2]),
                timestamp: from_le32(data@[3], data@[4], data@[5], data@[6]),
            },
        ),
{
    match check_length(com, data, 7) {
        Ok(()) => {},
        Err(e) => {
            return Err(e);
        },
    }
    let program_id = u16_from_le(data[1], data[2]);
    let timestamp = u32_from_le(data[3], data[4], data[5], data[6]);
    Ok(ResultId { program_id, timestamp })
}

/// The transfer of a bundle: a missing bundle is answered with `Nack` and
/// is a protocol violation. A bundle goes out as a multi-packet transfer,
/// and then the handler waits, under `COMMAND_TIMEOUT`, for the
/// acknowledgement of the on-board computer.
pub open spec fn replay_transfer_result(
    bundle: Option<Seq<u8>>,
    events: Seq<LinkEvent>,
    link: LinkParameters,
) -> Replay<CommandResult> {
    match bundle {
        None => match replay_send(Frame::Nack, events, link) {
            None => None,
            Some((sent, n)) => Some(
                (Err(refusal(sent, CommandError::ProtocolViolation(Cause::MissingResult))), n),
            ),
        },
        Some(bytes) => match replay_send_multi(bytes, events, link) {
            None => None,
            Some((Err(e), n)) => Some((Err(link_failure(e)), n)),
            Some((Ok(()), n)) => match replay_await_ack(
                events.skip(n as int),
                COMMAND_TIMEOUT,
                link.unlimited_timeout,
                link.retries,
            ) {
                None => None,
                Some((Ok(()), m)) => Some((Ok(()), n + m)),
                Some((Err(e), m)) => Some((Err(link_failure(e)), n + m)),
            },
        },
    }
}

/// The bundle as a mathematical value.
pub open spec fn bundle_view(bundle: Option<Vec<u8>>) -> Option<Seq<u8>> {
    match bundle {
        Some(bytes) => Some(bytes@),
        None => None,
    }
}

/// Return result, from the bundle on: `bundle` is what the file of the
/// result holds, or `None` where there is no such file. Only where the
/// call succeeds has the on-board computer acknowledged the bundle: the
/// caller then deletes the file and takes the result out of the queue
/// with `ExecutionContext::delete_result`.
pub fn transfer_result<C: PacketLink>(com: &mut C, bundle: Option<Vec<u8>>) -> (r: CommandResult)
    ensures
        continues(old(com).history(), final(com).history()),
        replay_transfer_result(
            bundle_view(bundle),
            appended(old(com).history(), final(com).history()),
            parameters::<C>(),
        ) == Some((r, appended(old(com).history(), final(com).history()).len())),
{
    let ghost before = com.history();
    let ghost link = parameters::<C>();
    let bytes = match bundle {
        Some(bytes) => bytes,
        None => {
            return match com.send_packet(&CEPPacket::Nack) {
                Ok(()) => Err(CommandError::ProtocolViolation(Cause::MissingResult)),
                Err(e) => Err(CommandError::from(e)),
            };
        },
    };
    match com.send_multi_packet(bytes.as_slice()) {
        Ok(()) => {},
        Err(e) => {
            return Err(CommandError::from(e));
        },
    }
    let ghost sent = com.history();
    let acknowledged = com.await_ack(COMMAND_TIMEOUT);
    proof {
        let first = appended(before, sent);
        let second = appended(sent, com.history());
        assert(before + Seq::<LinkEvent>::empty() =~= before);
        lemma_two_steps(before, Seq::empty(), before, sent, com.history());
        assert(Seq::<LinkEvent>::empty() + (first + second) =~= first + second);
        lemma_send_multi_ignores_rest(bytes@, first, second, link);
        assert((first + second).skip(first.len() as int) =~= second);
        lemma_done(returned(replay_send_multi(bytes@, first, link)));
    }
    match acknowledged {
        Ok(()) => Ok(()),
        Err(e) => Err(CommandError::from(e)),
    }
}

/// The answer to a request for status: the next event of `queue`, sent as
/// a data packet.
pub open spec fn replay_report_status(
    events: Seq<LinkEvent>,
    queue: execution_context::EventQueue,
    link: LinkParameters,
) -> Replay<CommandResult> {
    match replay_send(Frame::Data(execution_context::status_reply(queue)), events, link) {
        None => None,
        Some((Ok(()), n)) => Some((Ok(()), n)),
        Some((Err(e), n)) => Some((Err(link_failure(e)), n)),
    }
}

/// Get status, from the queue on: answers with the next event of the
/// queue, or with `[0]` where the queue is empty. A status is reported
/// before anything else and leaves the queue; so does every other event
/// but a result, which stays queued until it was reported
/// `EVENT_SEND_TRIES` times. Whether or not the answer goes out, the queue
/// moves on, and the data-ready line follows it.
pub fn report_status<C: PacketLink>(com: &mut C, exec: &mut ExecutionContext) -> (r: CommandResult)
    ensures
        continues(old(com).history(), final(com).history()),
        replay_report_status(
            appended(old(com).history(), final(com).history()),
            old(exec).event_vec@,
            parameters::<C>(),
        ) == Some((r, appended(old(com).history(), final(com).history()).len())),
        final(exec).event_vec@ == execution_context::after_status(old(exec).event_vec@),
        final(exec).update_pin.high == (final(exec).event_vec@.len() > 0),
        final(exec).supervisor_attached == old(exec).supervisor_attached,
        final(exec).running_flag == old(exec).running_flag,
        old(exec).well_formed() ==> final(exec).well_formed(),
{
    let reply = exec.next_status();
    proof {
        execution_context::lemma_reply_is_short(old(exec).event_vec@);
    }
    match com.send_packet(&CEPPacket::Data(reply)) {
        Ok(()) => Ok(()),
        Err(e) => Err(CommandError::from(e)),
    }
}

/// Get status: once the command has the right length, the queue is asked
/// for the next event, and the answer goes out as a data packet.
pub open spec fn replay_get_status(
    data: Seq<u8>,
    events: Seq<LinkEvent>,
    queue: execution_context::EventQueue,
    link: LinkParameters,
) -> Replay<CommandResult> {
    if data.len() != 1 {
        replay_check_length(data, 1, events, link)
    } else {
        replay_report_status(events, queue, link)
    }
}

/// Get status: checks the length of the command and answers from the
/// queue, as `report_status` does. Where the command has the wrong length,
/// the queue is not touched.
pub fn get_status<C: PacketLink>(data: &[u8], com: &mut C, exec: &mut ExecutionContext) -> (r:
    CommandResult)
    ensures
        continues(old(com).history(), final(com).history()),
        replay_get_status(
            data@,
            appended(old(com).history(), final(com).history()),
            old(exec).event_vec@,
            parameters::<C>(),
        ) == Some((r, appended(old(com).history(), final(com).history()).len())),
        data@.len() != 1 ==> *final(exec) == *old(exec),
        data@.len() == 1 ==> final(exec).event_vec@ == execution_context::after_status(
            old(exec).event_vec@,
        ),
        final(exec).update_pin.high == (if data@.len() == 1 {
            final(exec).event_vec@.len() > 0
        } else {
            old(exec).update_pin.high
        }),
        final(exec).supervisor_attached == old(exec).supervisor_attached,
        final(exec).running_flag == old(exec).running_flag,
        old(exec).well_formed() ==> final(exec).well_formed(),
{
    match check_length(com, data, 1) {
        Ok(()) => {},
        Err(e) => {
            return Err(e);
        },
    }
    proof {
        lemma_continues(old(com).history(), com.history());
        assert(com.history() =~= old(com).history());
    }
    report_status(com, exec)
}

/// What the platform is to do for a command whose first part is done.
#[derive(Debug, Clone, PartialEq, Eq)]
pub enum Request {
    /// Unpack `archive` into the directory of the program `program_id`.
    Unpack { program_id: u16, archive: Vec<u8> },
    /// Stop the running program, if there is one, and launch this one
    /// under a supervisor.
    Launch(Execution),
    /// Stop the running program, if there is one.
    Terminate,
    /// Take the shared state and answer with `report_status`.
    ReportStatus,
    /// Read the bundle of this result.
    ReadBundle(ResultId),
    /// Set the clock to this many seconds since the epoch.
    SetTime(i32),
}

/// A request as a mathematical value.
pub enum Task {
    Unpack { program_id: u16, archive: Seq<u8> },
    Launch(Execution),
    Terminate,
    ReportStatus,
    ReadBundle(ResultId),
    SetTime(i32),
}

impl View for Request {
    type V = Task;

    open spec fn view(&self) -> Task {
        match self {
            Request::Unpack { program_id, archive } => Task::Unpack {
                program_id: *program_id,
                archive: archive@,
            },
            Request::Launch(execution) => Task::Launch(*execution),
            Request::Terminate => Task::Terminate,
            Request::ReportStatus => Task::ReportStatus,
            Request::ReadBundle(id) => Task::ReadBundle(*id),
            Request::SetTime(seconds) => Task::SetTime(*seconds),
        }
    }
}

/// The result of the first part of a command, as a mathematical value.
pub open spec fn request_view(r: Result<Request, CommandError>) -> Result<Task, CommandError> {
    match r {
        Ok(request) => Ok(request@),
        Err(e) => Err(e),
    }
}

/// What a command of the kind `kind` with the bytes `data` asks of the
/// platform, once its length is right; `archive` is what was received
/// behind a store archive command.
pub open spec fn task_of(kind: CommandKind, data: Seq<u8>, archive: Seq<u8>) -> Task {
    match kind {
        CommandKind::StoreArchive => Task::Unpack {
            program_id: from_le16(data[1], data[2]),
            archive,
        },
        CommandKind::ExecuteProgram => Task::Launch(
            Execution {
                program_id: from_le16(data[1], data[2]),
                timestamp: from_le32(data[3], data[4], data[5], data[6]),
                timeout: from_le16(data[7], data[8]),
            },
        ),
        CommandKind::StopProgram => Task::Terminate,
        CommandKind::GetStatus => Task::ReportStatus,
        CommandKind::ReturnResult => Task::ReadBundle(
            ResultId {
                program_id: from_le16(data[1], data[2]),
                timestamp: from_le32(data[3], data[4], data[5], data[6]),
            },
        ),
        CommandKind::UpdateTime => Task::SetTime(
            signed_from_le32(data[1], data[2], data[3], data[4]),
        ),
    }
}

/// The first part of the handler of a command: the check of the length,
/// and for store archive the reception of the archive.
pub open spec fn replay_first_part(
    kind: CommandKind,
    data: Seq<u8>,
    events: Seq<LinkEvent>,
    link: LinkParameters,
) -> Replay<Result<Task, CommandError>> {
    match kind {
        CommandKind::StoreArchive => match replay_store_archive(data, events, link) {
            None => None,
            Some((Ok((_, archive)), n)) => Some((Ok(task_of(kind, data, archive)), n)),
            Some((Err(e), n)) => Some((Err(e), n)),
        },
        _ => match replay_check_length(data, kind.length(), events, link) {
            None => None,
            Some((check, n)) => Some((checked(check, task_of(kind, data, Seq::empty())), n)),
        },
    }
}

/// The handling of a command up to the work of the platform: a packet is
/// received, which must hold a command, and the first part of the handler
/// of that command follows.
pub open spec fn replay_process_command(events: Seq<LinkEvent>, link: LinkParameters) -> Replay<
    Result<Task, CommandError>,
> {
    match replay_receive(events, link.retries) {
        None => None,
        Some((received, n)) => match decoded(received) {
            Err(e) => Some((Err(e), n)),
            Ok((kind, data)) => after(n, replay_first_part(kind, data, events.skip(n as int), link)),
        },
    }
}

/// Waits for a command and handles it up to the work that only the
/// platform can do, which the returned request names. A command that is
/// ill-formed is answered with `Nack` where its handler says so, and the
/// call fails.
pub fn process_command<C: PacketLink>(com: &mut C) -> (r: Result<Request, CommandError>)
    ensures
        continues(old(com).history(), final(com).history()),
        appended(old(com).history(), final(com).history()).len() < u64::MAX
            ==> replay_process_command(
            appended(old(com).history(), final(com).history()),
            parameters::<C>(),
        ) == Some((request_view(r), appended(old(com).history(), final(com).history()).len())),
{
    let ghost before = com.history();
    let ghost link = parameters::<C>();
    let received = receive_command(com);
    let ghost read = com.history();
    let ghost first = appended(before, read);
    let Command { kind, data } = match received {
        Ok(command) => command,
        Err(e) => {
            return Err(e);
        },
    };
    let r = match kind {
        CommandKind::StoreArchive => match store_archive(data.as_slice(), com) {
            Ok((program_id, archive)) => Ok(Request::Unpack { program_id, archive }),
            Err(e) => Err(e),
        },
        CommandKind::ExecuteProgram => match execute_program(data.as_slice(), com) {
            Ok(execution) => Ok(Request::Launch(execution)),
            Err(e) => Err(e),
        },
        CommandKind::StopProgram => match stop_program(data.as_slice(), com) {
            Ok(()) => Ok(Request::Terminate),
            Err(e) => Err(e),
        },
        CommandKind::GetStatus => match check_length(com, data.as_slice(), 1) {
            Ok(()) => Ok(Request::ReportStatus),
            Err(e) => Err(e),
        },
        CommandKind::ReturnResult => match return_result(data.as_slice(), com) {
            Ok(id) => Ok(Request::ReadBundle(id)),
            Err(e) => Err(e),
        },
        CommandKind::UpdateTime => match update_time(data.as_slice(), com) {
            Ok(seconds) => Ok(Request::SetTime(seconds)),
            Err(e) => Err(e),
        },
    };
    proof {
        let second = appended(read, com.history());
        assert(before + Seq::<LinkEvent>::empty() =~= before);
        lemma_two_steps(before, Seq::empty(), before, read, com.history());
        assert(Seq::<LinkEvent>::empty() + (first + second) =~= first + second);
        lemma_receive_ignores_rest(first, second, link.retries);
        assert((first + second).skip(first.len() as int) =~= second);
    }
    r
}

/// What came of the work that a request asked for.
#[derive(Debug, PartialEq, Eq)]
pub enum Outcome {
    /// The archive was unpacked, or not: `Ok(false)` says that the tool
    /// failed, an error that it could not be run.
    Unpacked(Result<bool, IoErrorKind>),
    /// The program was launched and its supervisor started, or not.
    Launched(Result<(), CommandError>),
    /// The running program was stopped.
    Terminated,
    /// The bundle was read; `None` says that there is none.
    Bundle(Option<Vec<u8>>),
    /// The clock was set, or not, as for `Unpacked`.
    TimeSet(Result<bool, IoErrorKind>),
}

/// An outcome as a mathematical value.
pub enum Report {
    Unpacked(Result<bool, IoErrorKind>),
    Launched(Result<(), CommandError>),
    Terminated,
    Bundle(Option<Seq<u8>>),
    TimeSet(Result<bool, IoErrorKind>),
}

impl View for Outcome {
    type V = Report;

    open spec fn view(&self) -> Report {
        match self {
            Outcome::Unpacked(r) => Report::Unpacked(*r),
            Outcome::Launched(r) => Report::Launched(*r),
            Outcome::Terminated => Report::Terminated,
            Outcome::Bundle(bundle) => Report::Bundle(bundle_view(*bundle)),
            Outcome::TimeSet(r) => Report::TimeSet(*r),
        }
    }
}

/// What a utility of the platform that failed means for the command.
pub open spec fn utility_failure(outcome: Result<bool, IoErrorKind>, failure: Cause) -> Option<
    CommandError,
> {
    match outcome {
        Ok(true) => None,
        Ok(false) => Some(CommandError::NonRecoverable(failure)),
        Err(kind) => Some(CommandError::NonRecoverable(Cause::Io(kind))),
    }
}

/// The answer of a handler that is `Ack` unless `failure` holds an error,
/// in which case nothing is sent.
pub open spec fn replay_acknowledge(
    failure: Option<CommandError>,
    events: Seq<LinkEvent>,
    link: LinkParameters,
) -> Replay<CommandResult> {
    match failure {
        Some(e) => Some((Err(e), 0)),
        None => match replay_send(Frame::Ack, events, link) {
            None => None,
            Some((Ok(()), n)) => Some((Ok(()), n)),
            Some((Err(e), n)) => Some((Err(link_failure(e)), n)),
        },
    }
}

/// The second part of the handler of a command. Work that succeeded is
/// answered with `Ack`. A utility that failed is not recoverable, and
/// nothing is sent. A launch that failed is answered with `Nack`, and its
/// error is returned. A bundle is transferred.
pub open spec fn replay_complete_command(
    outcome: Report,
    events: Seq<LinkEvent>,
    link: LinkParameters,
) -> Replay<CommandResult> {
    match outcome {
        Report::Unpacked(r) => replay_acknowledge(
            utility_failure(r, Cause::UnpackFailed),
            events,
            link,
        ),
        Report::Launched(Ok(())) => replay_acknowledge(None, events, link),
        Report::Launched(Err(e)) => match replay_send(Frame::Nack, events, link) {
            None => None,
            Some((sent, n)) => Some((Err(refusal(sent, e)), n)),
        },
        Report::Terminated => replay_acknowledge(None, events, link),
        Report::Bundle(bundle) => replay_transfer_result(bundle, events, link),
        Report::TimeSet(r) => replay_acknowledge(utility_failure(r, Cause::TimeNotSet), events, link),
    }
}

/// Ends the handling of a command with what came of the work of the
/// platform. Only where the call succeeds for a bundle has the on-board
/// computer acknowledged it: the caller then deletes the bundle and takes
/// the result out of the queue with `ExecutionContext::delete_result`.
pub fn complete_command<C: PacketLink>(com: &mut C, outcome: Outcome) -> (r: CommandResult)
    ensures
        continues(old(com).history(), final(com).history()),
        replay_complete_command(
            outcome@,
            appended(old(com).history(), final(com).history()),
            parameters::<C>(),
        ) == Some((r, appended(old(com).history(), final(com).history()).len())),
{
    let failure = match outcome {
        Outcome::Unpacked(r) => utility_result(r, Cause::UnpackFailed),
        Outcome::Launched(Ok(())) => Ok(()),
        Outcome::Launched(Err(e)) => {
            return reject(com, e);
        },
        Outcome::Terminated => Ok(()),
        Outcome::Bundle(bundle) => {
            return transfer_result(com, bundle);
        },
        Outcome::TimeSet(r) => utility_result(r, Cause::TimeNotSet),
    };
    match failure {
        Ok(()) => acknowledge(com),
        Err(e) => {
            proof {
                lemma_grown(com.history(), Seq::empty());
                assert(com.history() + Seq::<LinkEvent>::empty() =~= com.history());
            }
            Err(e)
        },
    }
}

} // verus!
