//! The serial link to the on-board computer: frames, acknowledgement, retries
//! and multi-packet transfers over a byte stream with a settable read timeout.

use crate::communication::cep::Frame;
use crate::communication::cep::MAXIMUM_DATA_LENGTH;
use crate::communication::progress::lemma_receive_ends;
use crate::communication::progress::lemma_receiving_goes_on;
use crate::communication::progress::lemma_receiving_multi_goes_on;
use crate::communication::progress::lemma_receiving_multi_starts;
use crate::communication::progress::lemma_receiving_multi_stops;
use crate::communication::progress::lemma_receiving_starts;
use crate::communication::progress::lemma_receiving_stops;
use crate::communication::progress::lemma_round_ends;
use crate::communication::progress::lemma_sending_goes_on;
use crate::communication::progress::lemma_sending_multi_fails;
use crate::communication::progress::lemma_sending_multi_goes_on;
use crate::communication::progress::lemma_sending_multi_starts;
use crate::communication::progress::lemma_sending_multi_stops;
use crate::communication::progress::lemma_sending_starts;
use crate::communication::progress::lemma_sending_stops;
use crate::communication::progress::receiving;
use crate::communication::progress::receiving_multi;
use crate::communication::progress::sending;
use crate::communication::progress::sending_multi;
use crate::communication::replay::first_chunk;
use crate::communication::replay::io_error;
use crate::communication::replay::lemma_receive_ignores_rest;
use crate::communication::replay::parse_error;
use crate::communication::replay::replay_await_ack;
use crate::communication::replay::replay_receive;
use crate::communication::replay::replay_receive_multi;
use crate::communication::replay::replay_rounds;
use crate::communication::replay::replay_send;
use crate::communication::replay::replay_send_multi;
use crate::communication::replay::replay_write;
use crate::communication::replay::returned;
use crate::communication::replay::LinkParameters;
use vstd::prelude::*;
use vstd::slice::slice_subrange;
use vstd::slice::slice_to_vec;

pub mod cep;
pub mod laws;
mod progress;
pub mod replay;
pub mod scripted;
pub mod socket;

pub use cep::CEPPacket;
pub use cep::CEPPacketHeader;
pub use cep::CEPParseError;
pub use scripted::ScriptedHandle;

verus! {

/// What the link layer tells apart in a failure of the byte stream.
#[derive(Debug, Clone, Copy, PartialEq, Eq, Structural)]
pub enum IoErrorKind {
    /// The read timeout ran out.
    TimedOut,
    /// The stream handed over bytes that it cannot vouch for.
    InvalidData,
    /// The stream ended before the requested bytes were there.
    UnexpectedEof,
    /// Any other failure.
    Other,
}

/// Why an operation of the link layer failed.
#[derive(Debug, Clone, Copy, PartialEq, Eq, Structural)]
pub enum CommunicationError {
    /// A packet was not the one that the exchange called for, or the retries
    /// of a data packet ran out.
    PacketInvalidError,
    /// The bytes received are no frame.
    CepParsing(CEPParseError),
    /// The byte stream failed. Not recoverable on its own.
    Io(IoErrorKind),
    /// A read timed out.
    TimedOut,
    /// `Nack` was received where `Ack` was expected.
    NotAcknowledged,
}

pub type ComResult<T> = Result<T, CommunicationError>;

/// One completed call on a byte stream.
pub enum LinkEvent {
    /// A read handed out these bytes.
    Read(Seq<u8>),
    /// A read failed and handed out nothing.
    ReadFailed(IoErrorKind),
    /// A write took these bytes.
    Written(Seq<u8>),
    /// A write failed; none of its bytes count as sent.
    WriteFailed(IoErrorKind),
    /// The read timeout was set to this many milliseconds.
    TimeoutSet(u64),
}

/// A bidirectional byte stream with a settable read timeout, as the
/// platform provides it. Nothing is taken for granted of an implementation:
/// `Recorded` checks what it hands back.
pub trait CommunicationHandle {
    /// Milliseconds to wait for the acknowledgement of a data frame.
    const INTEGRITY_ACK_TIMEOUT: u64;

    /// Milliseconds to wait between commands: in effect, forever.
    const UNLIMITED_TIMEOUT: u64;

    /// How often a data frame is sent, or awaited, before the link gives up.
    const DATA_PACKET_RETRIES: usize = 4;

    /// Sets the timeout of the reads that follow, in milliseconds.
    fn set_timeout(&mut self, timeout: u64);

    /// Reads exactly `n` bytes, or fails.
    fn read_exact(&mut self, n: usize) -> Result<Vec<u8>, IoErrorKind>;

    /// Writes all of `bytes` and flushes, or fails.
    fn write_all(&mut self, bytes: &[u8]) -> Result<(), IoErrorKind>;
}

/// A byte stream that keeps a record of its use.
///
/// `history` is the record of every call completed on the stream, oldest
/// first. The contracts of the link layer describe what a call appends to it.
pub trait RecordedHandle {
    /// Milliseconds to wait for the acknowledgement of a data frame.
    const INTEGRITY_ACK_TIMEOUT: u64;

    /// Milliseconds to wait between commands: in effect, forever.
    const UNLIMITED_TIMEOUT: u64;

    /// How often a data frame is sent, or awaited, before the link gives up.
    const DATA_PACKET_RETRIES: usize = 4;

    spec fn history(&self) -> Seq<LinkEvent>;

    /// Sets the timeout of the reads that follow.
    fn set_timeout(&mut self, timeout: u64)
        ensures
            final(self).history() == old(self).history().push(LinkEvent::TimeoutSet(timeout)),
    ;

    /// Reads exactly `n` bytes, or fails.
    fn read_exact(&mut self, n: usize) -> (r: Result<Vec<u8>, IoErrorKind>)
        ensures
            match r {
                Ok(bytes) => bytes@.len() == n && final(self).history() == old(
                    self,
                ).history().push(LinkEvent::Read(bytes@)),
                Err(kind) => final(self).history() == old(self).history().push(
                    LinkEvent::ReadFailed(kind),
                ),
            },
    ;

    /// Writes all of `bytes` and flushes, or fails.
    fn write_all(&mut self, bytes: &[u8]) -> (r: Result<(), IoErrorKind>)
        ensures
            match r {
                Ok(()) => final(self).history() == old(self).history().push(
                    LinkEvent::Written(bytes@),
                ),
                Err(kind) => final(self).history() == old(self).history().push(
                    LinkEvent::WriteFailed(kind),
                ),
            },
    ;
}

/// A stream of the platform with the record of its use.
pub struct Recorded<H: CommunicationHandle> {
    /// The stream itself.
    pub stream: H,
    /// The calls completed so far.
    pub log: Ghost<Seq<LinkEvent>>,
}

impl<H: CommunicationHandle> Recorded<H> {
    /// `stream` with an empty record.
    pub fn new(stream: H) -> (recorded: Self)
        ensures
            recorded.history() == Seq::<LinkEvent>::empty(),
    {
        Recorded { stream, log: Ghost(Seq::empty()) }
    }

    /// The stream itself.
    pub fn into_inner(self) -> (stream: H)
        ensures
            stream == self.stream,
    {
        self.stream
    }
}

impl<H: CommunicationHandle> RecordedHandle for Recorded<H> {
    const INTEGRITY_ACK_TIMEOUT: u64 = H::INTEGRITY_ACK_TIMEOUT;

    const UNLIMITED_TIMEOUT: u64 = H::UNLIMITED_TIMEOUT;

    const DATA_PACKET_RETRIES: usize = H::DATA_PACKET_RETRIES;

    open spec fn history(&self) -> Seq<LinkEvent> {
        self.log@
    }

    fn set_timeout(&mut self, timeout: u64) {
        self.stream.set_timeout(timeout);
        proof {
            self.log@ = self.log@.push(LinkEvent::TimeoutSet(timeout));
        }
    }

    /// Reads from the stream. A stream that hands back another number of
    /// bytes than it was asked for has handed back invalid data.
    fn read_exact(&mut self, n: usize) -> (r: Result<Vec<u8>, IoErrorKind>) {
        match self.stream.read_exact(n) {
            Ok(bytes) => {
                if bytes.len() == n {
                    proof {
                        self.log@ = self.log@.push(LinkEvent::Read(bytes@));
                    }
                    Ok(bytes)
                } else {
                    proof {
                        self.log@ = self.log@.push(LinkEvent::ReadFailed(IoErrorKind::InvalidData));
                    }
                    Err(IoErrorKind::InvalidData)
                }
            },
            Err(kind) => {
                proof {
                    self.log@ = self.log@.push(LinkEvent::ReadFailed(kind));
                }
                Err(kind)
            },
        }
    }

    fn write_all(&mut self, bytes: &[u8]) -> (r: Result<(), IoErrorKind>) {
        match self.stream.write_all(bytes) {
            Ok(()) => {
                proof {
                    self.log@ = self.log@.push(LinkEvent::Written(bytes@));
                }
                Ok(())
            },
            Err(kind) => {
                proof {
                    self.log@ = self.log@.push(LinkEvent::WriteFailed(kind));
                }
                Err(kind)
            },
        }
    }
}

/// The events that a call appended: `after` without its first `before.len()`.
pub open spec fn appended(before: Seq<LinkEvent>, after: Seq<LinkEvent>) -> Seq<LinkEvent> {
    after.skip(before.len() as int)
}

/// `after` continues `before`.
pub open spec fn continues(before: Seq<LinkEvent>, after: Seq<LinkEvent>) -> bool {
    before.len() <= after.len() && after.take(before.len() as int) == before
}

/// A call that went on from `before` to `after` added `appended(before,
/// after)` to the history.
pub proof fn lemma_continues(before: Seq<LinkEvent>, after: Seq<LinkEvent>)
    requires
        continues(before, after),
    ensures
        after == before + appended(before, after),
{
    assert(after =~= after.take(before.len() as int) + after.skip(before.len() as int));
}

/// A history that grew by `added` continues the one before.
pub proof fn lemma_grown(before: Seq<LinkEvent>, added: Seq<LinkEvent>)
    ensures
        continues(before, before + added),
        appended(before, before + added) == added,
{
    assert((before + added).take(before.len() as int) =~= before);
    assert((before + added).skip(before.len() as int) =~= added);
}

/// A call that began at `start`, behind the events `done` of the calls
/// before it, adds its events to them.
pub proof fn lemma_step(
    before: Seq<LinkEvent>,
    done: Seq<LinkEvent>,
    start: Seq<LinkEvent>,
    now: Seq<LinkEvent>,
)
    requires
        start == before + done,
        continues(start, now),
    ensures
        now == before + (done + appended(start, now)),
        continues(before, now),
        appended(before, now) == done + appended(start, now),
{
    lemma_continues(start, now);
    assert(now =~= before + (done + appended(start, now)));
    lemma_grown(before, done + appended(start, now));
}

/// Two calls, one behind the other, behind the events `done`.
pub proof fn lemma_two_steps(
    before: Seq<LinkEvent>,
    done: Seq<LinkEvent>,
    start: Seq<LinkEvent>,
    between: Seq<LinkEvent>,
    now: Seq<LinkEvent>,
)
    requires
        start == before + done,
        continues(start, between),
        continues(between, now),
    ensures
        now == before + (done + (appended(start, between) + appended(between, now))),
        continues(before, now),
        appended(before, now) == done + (appended(start, between) + appended(between, now)),
{
    lemma_continues(start, between);
    lemma_continues(between, now);
    let added = done + (appended(start, between) + appended(between, now));
    assert(now =~= before + added);
    lemma_grown(before, added);
}

/// There is one way to succeed with nothing to return.
pub proof fn lemma_done(r: ComResult<()>)
    requires
        r is Ok,
    ensures
        r == Ok::<(), CommunicationError>(()),
{
    match r {
        Ok(unit) => {
            assert(unit == ());
        },
        Err(_) => {},
    }
}

/// The timeouts and the number of attempts of the streams of type `H`.
pub open spec fn parameters<H: RecordedHandle>() -> LinkParameters {
    LinkParameters {
        integrity_ack_timeout: H::INTEGRITY_ACK_TIMEOUT,
        unlimited_timeout: H::UNLIMITED_TIMEOUT,
        retries: H::DATA_PACKET_RETRIES as nat,
    }
}

/// The result of a transfer, with the bytes as a mathematical value.
pub open spec fn bytes_view(r: ComResult<Vec<u8>>) -> ComResult<Seq<u8>> {
    match r {
        Ok(bytes) => Ok(bytes@),
        Err(e) => Err(e),
    }
}

/// The result of a receiving call, with the packet as a mathematical value.
pub open spec fn packet_view(r: ComResult<CEPPacket>) -> ComResult<Frame> {
    match r {
        Ok(packet) => Ok(packet@),
        Err(e) => Err(e),
    }
}

impl vstd::std_specs::convert::FromSpecImpl<IoErrorKind> for CommunicationError {
    open spec fn obeys_from_spec() -> bool {
        true
    }

    open spec fn from_spec(value: IoErrorKind) -> Self {
        io_error(value)
    }
}

impl From<IoErrorKind> for CommunicationError {
    /// A timeout stays a timeout, invalid data makes the packet invalid, and
    /// any other failure of the stream is passed on as it is.
    fn from(value: IoErrorKind) -> (e: Self) {
        match value {
            IoErrorKind::TimedOut => CommunicationError::TimedOut,
            IoErrorKind::InvalidData => CommunicationError::PacketInvalidError,
            _ => CommunicationError::Io(value),
        }
    }
}

impl vstd::std_specs::convert::FromSpecImpl<CEPParseError> for CommunicationError {
    open spec fn obeys_from_spec() -> bool {
        true
    }

    open spec fn from_spec(value: CEPParseError) -> Self {
        parse_error(value)
    }
}

impl From<CEPParseError> for CommunicationError {
    /// A failure of the stream under the parser counts as a failure of the
    /// stream; everything else is a parsing error.
    fn from(value: CEPParseError) -> (e: Self) {
        match value {
            CEPParseError::Io(kind) => CommunicationError::from(kind),
            e => CommunicationError::CepParsing(e),
        }
    }
}

/// Writes the encoding of `packet` in one piece.
fn write_frame<H: RecordedHandle>(com: &mut H, packet: &CEPPacket) -> (r: ComResult<()>)
    requires
        packet@.encodable(),
    ensures
        continues(old(com).history(), final(com).history()),
        appended(old(com).history(), final(com).history()).len() == 1,
        replay_write(packet@, appended(old(com).history(), final(com).history())) == Some(
            (r, 1nat),
        ),
{
    let ghost before = com.history();
    let bytes = packet.serialize();
    match com.write_all(bytes.as_slice()) {
        Ok(()) => {
            proof {
                assert(com.history() =~= before + seq![LinkEvent::Written(bytes@)]);
                lemma_grown(before, seq![LinkEvent::Written(bytes@)]);
            }
            Ok(())
        },
        Err(kind) => {
            proof {
                assert(com.history() =~= before + seq![LinkEvent::WriteFailed(kind)]);
                lemma_grown(before, seq![LinkEvent::WriteFailed(kind)]);
            }
            Err(CommunicationError::from(kind))
        },
    }
}

/// The packet operations of the link layer, which every byte stream has.
pub trait PacketLink: RecordedHandle + Sized {
    /// Reads one packet.
    ///
    /// A data frame with a valid checksum is answered with `Ack` and
    /// returned. One with an invalid checksum is answered with `Nack`, and
    /// reading starts again, `DATA_PACKET_RETRIES` times in all; then the
    /// call fails with `PacketInvalidError`. Any other frame is returned as
    /// it is.
    fn receive_packet(&mut self) -> (r: ComResult<CEPPacket>)
        ensures
            continues(old(self).history(), final(self).history()),
            replay_receive(
                appended(old(self).history(), final(self).history()),
                Self::DATA_PACKET_RETRIES as nat,
            ) == Some(
                (packet_view(r), appended(old(self).history(), final(self).history()).len()),
            ),
    ;

    /// Waits for an acknowledgement under the read timeout `timeout`, and
    /// sets the timeout back to `UNLIMITED_TIMEOUT` afterwards.
    ///
    /// `Ack` is success, `Nack` fails with `NotAcknowledged`, any other
    /// packet with `PacketInvalidError`.
    fn await_ack(&mut self, timeout: u64) -> (r: ComResult<()>)
        ensures
            continues(old(self).history(), final(self).history()),
            replay_await_ack(
                appended(old(self).history(), final(self).history()),
                timeout,
                Self::UNLIMITED_TIMEOUT,
                Self::DATA_PACKET_RETRIES as nat,
            ) == Some((r, appended(old(self).history(), final(self).history()).len())),
    ;

    /// Writes one packet. A data packet then waits for its acknowledgement
    /// under `INTEGRITY_ACK_TIMEOUT`; on `Nack` it is written again, until
    /// it was written `DATA_PACKET_RETRIES` times; then the call fails with
    /// `PacketInvalidError`. The other packets are written and forgotten.
    fn send_packet(&mut self, packet: &CEPPacket) -> (r: ComResult<()>)
        requires
            packet@.encodable(),
        ensures
            continues(old(self).history(), final(self).history()),
            replay_send(
                packet@,
                appended(old(self).history(), final(self).history()),
                parameters::<Self>(),
            ) == Some((r, appended(old(self).history(), final(self).history()).len())),
    ;

    /// Sends `bytes` in chunks of at most `MAXIMUM_DATA_LENGTH` bytes, each
    /// as a data packet, then `Eof`, and waits for the final
    /// acknowledgement.
    fn send_multi_packet(&mut self, bytes: &[u8]) -> (r: ComResult<()>)
        ensures
            continues(old(self).history(), final(self).history()),
            replay_send_multi(
                bytes@,
                appended(old(self).history(), final(self).history()),
                parameters::<Self>(),
            ) == Some((r, appended(old(self).history(), final(self).history()).len())),
    ;

    /// Receives packets and joins the payloads of the data packets until
    /// `Eof` arrives, which is answered with `Ack`.
    ///
    /// The receiver gives up with `PacketInvalidError` once it has received
    /// `u64::MAX` packets without an end.
    fn receive_multi_packet(&mut self) -> (r: ComResult<Vec<u8>>)
        ensures
            continues(old(self).history(), final(self).history()),
            appended(old(self).history(), final(self).history()).len() < u64::MAX
                ==> replay_receive_multi(
                appended(old(self).history(), final(self).history()),
                Self::DATA_PACKET_RETRIES as nat,
            ) == Some(
                (bytes_view(r), appended(old(self).history(), final(self).history()).len()),
            ),
    ;
}

impl<H: RecordedHandle> PacketLink for H {
    fn receive_packet(&mut self) -> (r: ComResult<CEPPacket>) {
        let ghost before = self.history();
        let ghost tries = Self::DATA_PACKET_RETRIES as nat;
        let ghost mut done: Seq<LinkEvent> = Seq::empty();
        let mut attempt: usize = 0;
        proof {
            assert(before + done =~= before);
            lemma_receiving_starts(tries);
        }
        while attempt < Self::DATA_PACKET_RETRIES
            invariant
                attempt <= Self::DATA_PACKET_RETRIES,
                tries == Self::DATA_PACKET_RETRIES as nat,
                before == old(self).history(),
                self.history() == before + done,
                receiving(done, tries, (tries - attempt) as nat),
            decreases Self::DATA_PACKET_RETRIES - attempt,
        {
            let ghost start = self.history();
            let ghost left = (tries - attempt) as nat;
            let parsed = CEPPacket::try_from_read(self);
            let ghost read = self.history();
            let ghost reads = appended(start, read);
            match parsed {
                Ok(CEPPacket::Data(payload)) => {
                    let answered = write_frame(self, &CEPPacket::Ack);
                    let r = match answered {
                        Ok(()) => Ok(CEPPacket::Data(payload)),
                        Err(e) => Err(e),
                    };
                    proof {
                        let answer = appended(read, self.history());
                        lemma_two_steps(before, done, start, read, self.history());
                        lemma_receive_ends(reads, answer, left);
                        lemma_receiving_stops(done, reads + answer, tries, left, packet_view(r));
                    }
                    return r;
                },
                Ok(packet) => {
                    proof {
                        lemma_step(before, done, start, read);
                        lemma_receive_ends(reads, Seq::empty(), left);
                        assert(reads + Seq::<LinkEvent>::empty() =~= reads);
                        lemma_receiving_stops(done, reads, tries, left, Ok(packet@));
                    }
                    return Ok(packet);
                },
                Err(CEPParseError::InvalidCRC) => {
                    let answered = write_frame(self, &CEPPacket::Nack);
                    let ghost answer = appended(read, self.history());
                    proof {
                        lemma_two_steps(before, done, start, read, self.history());
                    }
                    match answered {
                        Ok(()) => {
                            proof {
                                lemma_receiving_goes_on(done, reads, answer, tries, left);
                                done = done + (reads + answer);
                            }
                        },
                        Err(e) => {
                            proof {
                                lemma_receive_ends(reads, answer, left);
                                lemma_receiving_stops(done, reads + answer, tries, left, Err(e));
                            }
                            return Err(e);
                        },
                    }
                },
                Err(e) => {
                    let error = CommunicationError::from(e);
                    proof {
                        lemma_step(before, done, start, read);
                        lemma_receive_ends(reads, Seq::empty(), left);
                        assert(reads + Seq::<LinkEvent>::empty() =~= reads);
                        lemma_receiving_stops(done, reads, tries, left, Err(error));
                    }
                    return Err(error);
                },
            }
            attempt += 1;
        }
        proof {
            lemma_receiving_stops(
                done,
                Seq::empty(),
                tries,
                0,
                Err(CommunicationError::PacketInvalidError),
            );
            assert(done + Seq::<LinkEvent>::empty() =~= done);
            lemma_grown(before, done);
        }
        Err(CommunicationError::PacketInvalidError)
    }

    fn await_ack(&mut self, timeout: u64) -> (r: ComResult<()>) {
        let ghost before = self.history();
        self.set_timeout(timeout);
        let ghost armed = self.history();
        let result = self.receive_packet();
        let ghost received = appended(armed, self.history());
        proof {
            lemma_continues(armed, self.history());
        }
        self.set_timeout(Self::UNLIMITED_TIMEOUT);
        proof {
            let first = LinkEvent::TimeoutSet(timeout);
            let last = LinkEvent::TimeoutSet(Self::UNLIMITED_TIMEOUT);
            let all = seq![first] + received + seq![last];
            assert(self.history() =~= before + all);
            lemma_grown(before, all);
            assert(all.skip(1) =~= received + seq![last]);
            lemma_receive_ignores_rest(received, seq![last], Self::DATA_PACKET_RETRIES as nat);
            assert(all[received.len() + 1 as int] == last);
        }
        match result {
            Ok(CEPPacket::Ack) => Ok(()),
            Ok(CEPPacket::Nack) => Err(CommunicationError::NotAcknowledged),
            Ok(_) => Err(CommunicationError::PacketInvalidError),
            Err(e) => Err(e),
        }
    }

    fn send_packet(&mut self, packet: &CEPPacket) -> (r: ComResult<()>) {
        let ghost before = self.history();
        let ghost link = parameters::<Self>();
        let written = write_frame(self, packet);
        let ghost wrote = self.history();
        let ghost first = appended(before, wrote);
        match written {
            Ok(()) => {},
            Err(e) => {
                return Err(e);
            },
        }
        let is_data = match packet {
            CEPPacket::Data(_) => true,
            _ => false,
        };
        if !is_data {
            return Ok(());
        }
        let ghost mut done: Seq<LinkEvent> = Seq::empty();
        let mut round: usize = 0;
        proof {
            assert(wrote + done =~= wrote);
            lemma_sending_starts(packet@, link);
        }
        while round < Self::DATA_PACKET_RETRIES
            invariant
                round <= Self::DATA_PACKET_RETRIES,
                before == old(self).history(),
                link == parameters::<Self>(),
                packet@.encodable(),
                packet@ is Data,
                continues(before, wrote),
                first == appended(before, wrote),
                first.len() == 1,
                replay_write(packet@, first) == Some((Ok::<(), CommunicationError>(()), 1nat)),
                self.history() == wrote + done,
                sending(packet@, done, (link.retries - round) as nat, link),
            decreases Self::DATA_PACKET_RETRIES - round,
        {
            let ghost start = self.history();
            let ghost left = (link.retries - round) as nat;
            let acknowledged = self.await_ack(Self::INTEGRITY_ACK_TIMEOUT);
            let ghost heard = self.history();
            let ghost waited = appended(start, heard);
            match acknowledged {
                Ok(()) => {
                    proof {
                        lemma_step(wrote, done, start, heard);
                        lemma_round_ends(packet@, waited, Seq::empty(), left, link, Ok(()));
                        assert(waited + Seq::<LinkEvent>::empty() =~= waited);
                        lemma_sending_stops(
                            packet@,
                            before,
                            wrote,
                            heard,
                            done,
                            waited,
                            left,
                            link,
                            Ok(()),
                        );
                    }
                    return Ok(());
                },
                Err(CommunicationError::NotAcknowledged) => {
                    if round + 1 < Self::DATA_PACKET_RETRIES {
                        let rewritten = write_frame(self, packet);
                        let ghost again = appended(heard, self.history());
                        proof {
                            lemma_two_steps(wrote, done, start, heard, self.history());
                        }
                        match rewritten {
                            Ok(()) => {
                                proof {
                                    lemma_sending_goes_on(packet@, done, waited, again, left, link);
                                    done = done + (waited + again);
                                }
                            },
                            Err(e) => {
                                proof {
                                    lemma_round_ends(packet@, waited, again, left, link, Err(e));
                                    lemma_sending_stops(
                                        packet@,
                                        before,
                                        wrote,
                                        self.history(),
                                        done,
                                        waited + again,
                                        left,
                                        link,
                                        Err(e),
                                    );
                                }
                                return Err(e);
                            },
                        }
                    } else {
                        proof {
                            lemma_step(wrote, done, start, heard);
                            lemma_sending_goes_on(packet@, done, waited, Seq::empty(), left, link);
                            assert(waited + Seq::<LinkEvent>::empty() =~= waited);
                            done = done + waited;
                        }
                    }
                },
                Err(e) => {
                    proof {
                        lemma_step(wrote, done, start, heard);
                        lemma_round_ends(packet@, waited, Seq::empty(), left, link, Err(e));
                        assert(waited + Seq::<LinkEvent>::empty() =~= waited);
                        lemma_sending_stops(
                            packet@,
                            before,
                            wrote,
                            heard,
                            done,
                            waited,
                            left,
                            link,
                            Err(e),
                        );
                    }
                    return Err(e);
                },
            }
            round += 1;
        }
        proof {
            assert(done + Seq::<LinkEvent>::empty() =~= done);
            lemma_grown(wrote, done);
            lemma_sending_stops(
                packet@,
                before,
                wrote,
                self.history(),
                done,
                Seq::empty(),
                0,
                link,
                Err(CommunicationError::PacketInvalidError),
            );
        }
        Err(CommunicationError::PacketInvalidError)
    }

    fn send_multi_packet(&mut self, bytes: &[u8]) -> (r: ComResult<()>) {
        let ghost before = self.history();
        let ghost link = parameters::<Self>();
        let ghost mut done: Seq<LinkEvent> = Seq::empty();
        let mut offset: usize = 0;
        proof {
            assert(before + done =~= before);
            assert(bytes@.skip(0) =~= bytes@);
            lemma_sending_multi_starts(bytes@, link);
        }
        while offset < bytes.len()
            invariant
                offset <= bytes.len(),
                before == old(self).history(),
                link == parameters::<Self>(),
                self.history() == before + done,
                sending_multi(bytes@, done, bytes@.skip(offset as int), link),
            decreases bytes.len() - offset,
        {
            let remaining = bytes.len() - offset;
            let end: usize = if remaining <= MAXIMUM_DATA_LENGTH {
                bytes.len()
            } else {
                offset + MAXIMUM_DATA_LENGTH
            };
            let chunk = slice_to_vec(slice_subrange(bytes, offset, end));
            let ghost tail = bytes@.skip(offset as int);
            proof {
                assert(chunk@ =~= first_chunk(tail));
                assert(tail.skip(chunk@.len() as int) =~= bytes@.skip(end as int));
            }
            let ghost start = self.history();
            let packet = CEPPacket::Data(chunk);
            assert(packet@ == Frame::Data(first_chunk(tail)));
            let sent = self.send_packet(&packet);
            let ghost events = appended(start, self.history());
            proof {
                lemma_step(before, done, start, self.history());
            }
            match sent {
                Ok(()) => {
                    proof {
                        lemma_done(sent);
                        lemma_sending_multi_goes_on(bytes@, done, tail, events, link);
                        done = done + events;
                    }
                },
                Err(e) => {
                    proof {
                        lemma_sending_multi_fails(bytes@, done, tail, events, link, e);
                    }
                    return Err(e);
                },
            }
            offset = end;
        }
        let ghost start = self.history();
        let sent = self.send_packet(&CEPPacket::Eof);
        let ghost sent_all = self.history();
        let ghost events = appended(start, sent_all);
        proof {
            assert(bytes@.skip(offset as int) =~= Seq::<u8>::empty());
        }
        match sent {
            Ok(()) => {},
            Err(e) => {
                proof {
                    lemma_step(before, done, start, sent_all);
                    lemma_sending_multi_stops(bytes@, done, events, Seq::empty(), link, Err(e));
                    assert(events + Seq::<LinkEvent>::empty() =~= events);
                }
                return Err(e);
            },
        }
        let acknowledged = self.await_ack(Self::INTEGRITY_ACK_TIMEOUT);
        proof {
            let waited = appended(sent_all, self.history());
            lemma_two_steps(before, done, start, sent_all, self.history());
            lemma_sending_multi_stops(bytes@, done, events, waited, link, acknowledged);
        }
        acknowledged
    }

    fn receive_multi_packet(&mut self) -> (r: ComResult<Vec<u8>>) {
        let ghost before = self.history();
        let ghost tries = Self::DATA_PACKET_RETRIES as nat;
        let ghost mut done: Seq<LinkEvent> = Seq::empty();
        let mut buffer: Vec<u8> = Vec::new();
        let mut packets: u64 = 0;
        proof {
            assert(before + done =~= before);
            lemma_receiving_multi_starts(tries);
        }
        while packets < u64::MAX
            invariant
                before == old(self).history(),
                tries == Self::DATA_PACKET_RETRIES as nat,
                self.history() == before + done,
                packets <= done.len(),
                receiving_multi(done, buffer@, tries),
            decreases u64::MAX - packets,
        {
            let ghost start = self.history();
            let pack = self.receive_packet();
            let ghost heard = self.history();
            let ghost received = appended(start, heard);
            match pack {
                Ok(CEPPacket::Data(payload)) => {
                    let ghost joined = buffer@;
                    buffer.extend_from_slice(payload.as_slice());
                    proof {
                        lemma_step(before, done, start, heard);
                        assert(returned(replay_receive(received, tries)) == Ok::<
                            Frame,
                            CommunicationError,
                        >(Frame::Data(payload@)));
                        lemma_receiving_multi_goes_on(done, joined, received, Seq::empty(), tries);
                        assert(received + Seq::<LinkEvent>::empty() =~= received);
                        assert(buffer@ == joined + payload@);
                        done = done + received;
                    }
                },
                Ok(CEPPacket::Eof) => {
                    let answered = write_frame(self, &CEPPacket::Ack);
                    let ghost joined = buffer@;
                    let r = match answered {
                        Ok(()) => Ok(buffer),
                        Err(e) => Err(e),
                    };
                    proof {
                        let answer = appended(heard, self.history());
                        lemma_two_steps(before, done, start, heard, self.history());
                        lemma_receiving_multi_stops(
                            done,
                            joined,
                            received,
                            answer,
                            tries,
                            bytes_view(r),
                        );
                    }
                    return r;
                },
                Err(CommunicationError::Io(kind)) => {
                    proof {
                        lemma_step(before, done, start, heard);
                        lemma_receiving_multi_stops(
                            done,
                            buffer@,
                            received,
                            Seq::empty(),
                            tries,
                            Err(CommunicationError::Io(kind)),
                        );
                        assert(received + Seq::<LinkEvent>::empty() =~= received);
                    }
                    return Err(CommunicationError::Io(kind));
                },
                Err(CommunicationError::TimedOut) => {
                    proof {
                        lemma_step(before, done, start, heard);
                        lemma_receiving_multi_stops(
                            done,
                            buffer@,
                            received,
                            Seq::empty(),
                            tries,
                            Err(CommunicationError::TimedOut),
                        );
                        assert(received + Seq::<LinkEvent>::empty() =~= received);
                    }
                    return Err(CommunicationError::TimedOut);
                },
                _ => {
                    let answered = write_frame(self, &CEPPacket::Nack);
                    let ghost answer = appended(heard, self.history());
                    proof {
                        lemma_two_steps(before, done, start, heard, self.history());
                    }
                    match answered {
                        Ok(()) => {
                            proof {
                                lemma_receiving_multi_goes_on(
                                    done,
                                    buffer@,
                                    received,
                                    answer,
                                    tries,
                                );
                                assert(buffer@ + Seq::<u8>::empty() =~= buffer@);
                                done = done + (received + answer);
                            }
                        },
                        Err(e) => {
                            proof {
                                lemma_receiving_multi_stops(
                                    done,
                                    buffer@,
                                    received,
                                    answer,
                                    tries,
                                    Err(e),
                                );
                            }
                            return Err(e);
                        },
                    }
                },
            }
            packets += 1;
        }
        proof {
            lemma_grown(before, done);
        }
        Err(CommunicationError::PacketInvalidError)
    }
}

} // verus!
