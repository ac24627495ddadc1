//! What the operations of the link layer do, told as replays.
//!
//! A replay walks along the events that a call left in the history of the
//! stream and says what the call returned and how many events it caused. It
//! is `None` where the events do not begin with a run of the operation.

use crate::communication::cep::first_read;
use crate::communication::cep::replay_frame;
use crate::communication::cep::CEPParseError;
use crate::communication::cep::Frame;
use crate::communication::cep::MAXIMUM_DATA_LENGTH;
use crate::communication::CommunicationError;
use crate::communication::IoErrorKind;
use crate::communication::LinkEvent;
use vstd::prelude::*;

verus! {

/// The result of a replay: what was returned, and the number of events used.
pub type Replay<R> = Option<(R, nat)>;

/// The replay `rest` behind `used` events that were replayed before it.
pub open spec fn after<R>(used: nat, rest: Replay<R>) -> Replay<R> {
    match rest {
        None => None,
        Some((r, n)) => Some((r, used + n)),
    }
}

/// The number of events that a replay used; 0 where there is none.
pub open spec fn used<R>(replay: Replay<R>) -> nat {
    match replay {
        Some((_, n)) => n,
        None => 0,
    }
}

/// What a replay returned.
pub open spec fn returned<R>(replay: Replay<R>) -> R
    recommends
        replay is Some,
{
    match replay {
        Some((r, _)) => r,
        None => arbitrary(),
    }
}

/// The error that a failure of the stream becomes.
pub open spec fn io_error(kind: IoErrorKind) -> CommunicationError {
    match kind {
        IoErrorKind::TimedOut => CommunicationError::TimedOut,
        IoErrorKind::InvalidData => CommunicationError::PacketInvalidError,
        _ => CommunicationError::Io(kind),
    }
}

/// The error that a failure of the parser becomes.
pub open spec fn parse_error(e: CEPParseError) -> CommunicationError {
    match e {
        CEPParseError::Io(kind) => io_error(kind),
        _ => CommunicationError::CepParsing(e),
    }
}

/// What the first of `events` says of a write of `bytes`.
pub open spec fn first_write(events: Seq<LinkEvent>, bytes: Seq<u8>) -> Option<
    Result<(), IoErrorKind>,
> {
    if events.len() == 0 {
        None
    } else {
        match events[0] {
            LinkEvent::Written(written) => if written == bytes {
                Some(Ok(()))
            } else {
                None
            },
            LinkEvent::WriteFailed(kind) => Some(Err(kind)),
            _ => None,
        }
    }
}

/// Writing one frame: a single write of its encoding.
pub open spec fn replay_write(frame: Frame, events: Seq<LinkEvent>) -> Replay<
    Result<(), CommunicationError>,
> {
    match first_write(events, frame.wire()) {
        None => None,
        Some(Ok(())) => Some((Ok(()), 1)),
        Some(Err(kind)) => Some((Err(io_error(kind)), 1)),
    }
}

/// Receiving one packet with `tries` attempts left.
///
/// Each attempt reads one frame. A data frame with a valid checksum is
/// answered with `Ack` and returned; any other frame is returned as it is.
/// A data frame with an invalid checksum is answered with `Nack`, and the
/// next attempt begins. Any other failure ends the call, and so does a
/// failed write. With no attempt left the call fails with
/// `PacketInvalidError`.
pub open spec fn replay_receive(events: Seq<LinkEvent>, tries: nat) -> Replay<
    Result<Frame, CommunicationError>,
>
    decreases tries,
{
    if tries == 0 {
        Some((Err(CommunicationError::PacketInvalidError), 0))
    } else {
        match replay_frame(events) {
            None => None,
            Some((Ok(Frame::Data(payload)), n)) => match replay_write(Frame::Ack, events.skip(n as int)) {
                None => None,
                Some((Ok(()), _)) => Some((Ok(Frame::Data(payload)), n + 1)),
                Some((Err(e), _)) => Some((Err(e), n + 1)),
            },
            Some((Ok(frame), n)) => Some((Ok(frame), n)),
            Some((Err(CEPParseError::InvalidCRC), n)) => match replay_write(
                Frame::Nack,
                events.skip(n as int),
            ) {
                None => None,
                Some((Ok(()), _)) => after(n + 1, replay_receive(events.skip(n + 1 as int), (tries - 1) as nat)),
                Some((Err(e), _)) => Some((Err(e), n + 1)),
            },
            Some((Err(e), n)) => Some((Err(parse_error(e)), n)),
        }
    }
}

/// What a received packet means to one who waits for an acknowledgement.
pub open spec fn acknowledgement(received: Result<Frame, CommunicationError>) -> Result<
    (),
    CommunicationError,
> {
    match received {
        Ok(Frame::Ack) => Ok(()),
        Ok(Frame::Nack) => Err(CommunicationError::NotAcknowledged),
        Ok(_) => Err(CommunicationError::PacketInvalidError),
        Err(e) => Err(e),
    }
}

/// Waiting for an acknowledgement: the timeout is set to `timeout`, one
/// packet is received, and the timeout is set back to `unlimited`, whatever
/// was received.
pub open spec fn replay_await_ack(
    events: Seq<LinkEvent>,
    timeout: u64,
    unlimited: u64,
    tries: nat,
) -> Replay<Result<(), CommunicationError>> {
    if events.len() == 0 || events[0] != LinkEvent::TimeoutSet(timeout) {
        None
    } else {
        match replay_receive(events.skip(1), tries) {
            None => None,
            Some((received, n)) => if events.len() > n + 1 && events[n + 1 as int] == LinkEvent::TimeoutSet(
                unlimited,
            ) {
                Some((acknowledgement(received), n + 2))
            } else {
                None
            },
        }
    }
}

/// The timeouts and the number of attempts of one stream.
pub struct LinkParameters {
    pub integrity_ack_timeout: u64,
    pub unlimited_timeout: u64,
    pub retries: nat,
}

/// The rounds that follow the first write of a data frame, with `left`
/// rounds to go. A round waits for an acknowledgement. `Ack` ends the call
/// with success. `Nack` makes the sender write the frame again, unless this
/// was the last round. Anything else ends the call with that error. When no
/// round is left, the call fails with `PacketInvalidError`.
pub open spec fn replay_rounds(
    frame: Frame,
    events: Seq<LinkEvent>,
    left: nat,
    link: LinkParameters,
) -> Replay<Result<(), CommunicationError>>
    decreases left,
{
    if left == 0 {
        Some((Err(CommunicationError::PacketInvalidError), 0))
    } else {
        match replay_await_ack(
            events,
            link.integrity_ack_timeout,
            link.unlimited_timeout,
            link.retries,
        ) {
            None => None,
            Some((Ok(()), n)) => Some((Ok(()), n)),
            Some((Err(CommunicationError::NotAcknowledged), n)) => if left == 1 {
                Some((Err(CommunicationError::PacketInvalidError), n))
            } else {
                match replay_write(frame, events.skip(n as int)) {
                    None => None,
                    Some((Ok(()), _)) => after(
                        n + 1,
                        replay_rounds(frame, events.skip(n + 1 as int), (left - 1) as nat, link),
                    ),
                    Some((Err(e), _)) => Some((Err(e), n + 1)),
                }
            },
            Some((Err(e), n)) => Some((Err(e), n)),
        }
    }
}

/// Sending one packet: the frame is written; a data frame then waits for
/// its acknowledgement, in up to `link.retries` rounds.
pub open spec fn replay_send(frame: Frame, events: Seq<LinkEvent>, link: LinkParameters) -> Replay<
    Result<(), CommunicationError>,
> {
    match replay_write(frame, events) {
        None => None,
        Some((Err(e), n)) => Some((Err(e), n)),
        Some((Ok(()), n)) => if frame is Data {
            after(n, replay_rounds(frame, events.skip(n as int), link.retries, link))
        } else {
            Some((Ok(()), n))
        },
    }
}

/// The first chunk of `bytes`: at most `MAXIMUM_DATA_LENGTH` of them.
pub open spec fn first_chunk(bytes: Seq<u8>) -> Seq<u8> {
    if bytes.len() <= MAXIMUM_DATA_LENGTH {
        bytes
    } else {
        bytes.take(MAXIMUM_DATA_LENGTH as int)
    }
}

/// Sending `bytes` as a multi-packet transfer: each chunk goes out as a data
/// packet, in order; then `Eof` is sent, and the sender waits for the final
/// acknowledgement. The first error ends the call.
pub open spec fn replay_send_multi(bytes: Seq<u8>, events: Seq<LinkEvent>, link: LinkParameters) -> Replay<
    Result<(), CommunicationError>,
>
    decreases bytes.len(),
{
    if bytes.len() == 0 {
        match replay_send(Frame::Eof, events, link) {
            None => None,
            Some((Err(e), n)) => Some((Err(e), n)),
            Some((Ok(()), n)) => after(
                n,
                replay_await_ack(
                    events.skip(n as int),
                    link.integrity_ack_timeout,
                    link.unlimited_timeout,
                    link.retries,
                ),
            ),
        }
    } else {
        let chunk = first_chunk(bytes);
        match replay_send(Frame::Data(chunk), events, link) {
            None => None,
            Some((Err(e), n)) => Some((Err(e), n)),
            Some((Ok(()), n)) => after(
                n,
                replay_send_multi(bytes.skip(chunk.len() as int), events.skip(n as int), link),
            ),
        }
    }
}

/// `payload` put in front of what a transfer returned.
pub open spec fn prepend(payload: Seq<u8>, rest: Replay<Result<Seq<u8>, CommunicationError>>) -> Replay<
    Result<Seq<u8>, CommunicationError>,
> {
    match rest {
        None => None,
        Some((Ok(bytes), n)) => Some((Ok(payload + bytes), n)),
        Some((Err(e), n)) => Some((Err(e), n)),
    }
}

/// Receiving a multi-packet transfer: packets are received one after the
/// other. The payload of a data packet is appended to what was received.
/// `Eof` ends the transfer: it is answered with `Ack`, and the bytes are
/// returned. A failure of the stream, a timeout among them, ends the call
/// with that error. Anything else is answered with `Nack`, and receiving
/// goes on.
pub open spec fn replay_receive_multi(events: Seq<LinkEvent>, tries: nat) -> Replay<
    Result<Seq<u8>, CommunicationError>,
>
    decreases events.len(),
{
    match replay_receive(events, tries) {
        None => None,
        Some((received, n)) => if n > events.len() {
            None
        } else {
            match received {
                Ok(Frame::Data(payload)) => if n == 0 {
                    None
                } else {
                    after(n, prepend(payload, replay_receive_multi(events.skip(n as int), tries)))
                },
                Ok(Frame::Eof) => match replay_write(Frame::Ack, events.skip(n as int)) {
                    None => None,
                    Some((Ok(()), _)) => Some((Ok(Seq::empty()), n + 1)),
                    Some((Err(e), _)) => Some((Err(e), n + 1)),
                },
                Err(CommunicationError::Io(kind)) => Some((Err(CommunicationError::Io(kind)), n)),
                Err(CommunicationError::TimedOut) => Some((Err(CommunicationError::TimedOut), n)),
                _ => match replay_write(Frame::Nack, events.skip(n as int)) {
                    None => None,
                    Some((Ok(()), _)) => after(
                        n + 1,
                        replay_receive_multi(events.skip(n + 1 as int), tries),
                    ),
                    Some((Err(e), _)) => Some((Err(e), n + 1)),
                },
            }
        }
    }
}

/// Events behind the ones that a replay used do not change it.
pub proof fn lemma_frame_ignores_rest(events: Seq<LinkEvent>, rest: Seq<LinkEvent>)
    requires
        replay_frame(events) is Some,
    ensures
        used(replay_frame(events)) <= events.len(),
        replay_frame(events + rest) == replay_frame(events),
{
    let all = events + rest;
    assert(all[0] == events[0]);
    if events.len() >= 1 {
        assert(all.skip(1) =~= events.skip(1) + rest);
    }
    if events.len() >= 2 {
        assert(all.skip(2) =~= events.skip(2) + rest);
        assert(all.skip(1)[0] == events.skip(1)[0]);
    }
    if events.len() >= 3 {
        assert(all.skip(3) =~= events.skip(3) + rest);
        assert(all.skip(2)[0] == events.skip(2)[0]);
    }
    if events.len() >= 4 {
        assert(all.skip(3)[0] == events.skip(3)[0]);
    }
}

/// Events behind the ones that a replay used do not change it.
pub proof fn lemma_write_ignores_rest(frame: Frame, events: Seq<LinkEvent>, rest: Seq<LinkEvent>)
    requires
        replay_write(frame, events) is Some,
    ensures
        used(replay_write(frame, events)) <= events.len(),
        replay_write(frame, events + rest) == replay_write(frame, events),
{
    assert((events + rest)[0] == events[0]);
}

/// Events behind the ones that a replay used do not change it.
pub proof fn lemma_receive_ignores_rest(events: Seq<LinkEvent>, rest: Seq<LinkEvent>, tries: nat)
    requires
        replay_receive(events, tries) is Some,
    ensures
        used(replay_receive(events, tries)) <= events.len(),
        replay_receive(events + rest, tries) == replay_receive(events, tries),
    decreases tries,
{
    if tries > 0 {
        let all = events + rest;
        lemma_frame_ignores_rest(events, rest);
        let n = used(replay_frame(events));
        assert(all.skip(n as int) =~= events.skip(n as int) + rest);
        match returned(replay_frame(events)) {
            Ok(Frame::Data(_)) => {
                lemma_write_ignores_rest(Frame::Ack, events.skip(n as int), rest);
            },
            Ok(_) => {},
            Err(CEPParseError::InvalidCRC) => {
                lemma_write_ignores_rest(Frame::Nack, events.skip(n as int), rest);
                if returned(replay_write(Frame::Nack, events.skip(n as int))) is Ok {
                    assert(all.skip(n + 1 as int) =~= events.skip(n + 1 as int) + rest);
                    lemma_receive_ignores_rest(events.skip(n + 1 as int), rest, (tries - 1) as nat);
                }
            },
            Err(_) => {},
        }
    }
}

/// Events behind the ones that a replay used do not change it.
pub proof fn lemma_await_ack_ignores_rest(
    events: Seq<LinkEvent>,
    rest: Seq<LinkEvent>,
    timeout: u64,
    unlimited: u64,
    tries: nat,
)
    requires
        replay_await_ack(events, timeout, unlimited, tries) is Some,
    ensures
        used(replay_await_ack(events, timeout, unlimited, tries)) <= events.len(),
        replay_await_ack(events + rest, timeout, unlimited, tries) == replay_await_ack(
            events,
            timeout,
            unlimited,
            tries,
        ),
{
    let all = events + rest;
    assert(all[0] == events[0]);
    assert(all.skip(1) =~= events.skip(1) + rest);
    lemma_receive_ignores_rest(events.skip(1), rest, tries);
    let n = used(replay_receive(events.skip(1), tries));
    assert(all[n + 1 as int] == events[n + 1 as int]);
}

/// Events behind the ones that a replay used do not change it.
pub proof fn lemma_rounds_ignore_rest(
    frame: Frame,
    events: Seq<LinkEvent>,
    rest: Seq<LinkEvent>,
    left: nat,
    link: LinkParameters,
)
    requires
        replay_rounds(frame, events, left, link) is Some,
    ensures
        used(replay_rounds(frame, events, left, link)) <= events.len(),
        replay_rounds(frame, events + rest, left, link) == replay_rounds(frame, events, left, link),
    decreases left,
{
    if left > 0 {
        let all = events + rest;
        lemma_await_ack_ignores_rest(
            events,
            rest,
            link.integrity_ack_timeout,
            link.unlimited_timeout,
            link.retries,
        );
        let waited = replay_await_ack(
            events,
            link.integrity_ack_timeout,
            link.unlimited_timeout,
            link.retries,
        );
        let n = used(waited);
        if returned(waited) == Err::<(), CommunicationError>(CommunicationError::NotAcknowledged) && left
            > 1 {
            assert(all.skip(n as int) =~= events.skip(n as int) + rest);
            lemma_write_ignores_rest(frame, events.skip(n as int), rest);
            if returned(replay_write(frame, events.skip(n as int))) is Ok {
                assert(all.skip(n + 1 as int) =~= events.skip(n + 1 as int) + rest);
                lemma_rounds_ignore_rest(
                    frame,
                    events.skip(n + 1 as int),
                    rest,
                    (left - 1) as nat,
                    link,
                );
            }
        }
    }
}

/// Events behind the ones that a replay used do not change it.
pub proof fn lemma_send_ignores_rest(
    frame: Frame,
    events: Seq<LinkEvent>,
    rest: Seq<LinkEvent>,
    link: LinkParameters,
)
    requires
        replay_send(frame, events, link) is Some,
    ensures
        used(replay_send(frame, events, link)) <= events.len(),
        replay_send(frame, events + rest, link) == replay_send(frame, events, link),
{
    lemma_write_ignores_rest(frame, events, rest);
    if returned(replay_write(frame, events)) is Ok && frame is Data {
        assert((events + rest).skip(1) =~= events.skip(1) + rest);
        lemma_rounds_ignore_rest(frame, events.skip(1), rest, link.retries, link);
    }
}

/// Events behind the ones that a replay used do not change it.
pub proof fn lemma_send_multi_ignores_rest(
    bytes: Seq<u8>,
    events: Seq<LinkEvent>,
    rest: Seq<LinkEvent>,
    link: LinkParameters,
)
    requires
        replay_send_multi(bytes, events, link) is Some,
    ensures
        used(replay_send_multi(bytes, events, link)) <= events.len(),
        replay_send_multi(bytes, events + rest, link) == replay_send_multi(bytes, events, link),
    decreases bytes.len(),
{
    let all = events + rest;
    if bytes.len() == 0 {
        lemma_send_ignores_rest(Frame::Eof, events, rest, link);
        let n = used(replay_send(Frame::Eof, events, link));
        if returned(replay_send(Frame::Eof, events, link)) is Ok {
            assert(all.skip(n as int) =~= events.skip(n as int) + rest);
            lemma_await_ack_ignores_rest(
                events.skip(n as int),
                rest,
                link.integrity_ack_timeout,
                link.unlimited_timeout,
                link.retries,
            );
        }
    } else {
        let chunk = first_chunk(bytes);
        lemma_send_ignores_rest(Frame::Data(chunk), events, rest, link);
        let n = used(replay_send(Frame::Data(chunk), events, link));
        if returned(replay_send(Frame::Data(chunk), events, link)) is Ok {
            assert(all.skip(n as int) =~= events.skip(n as int) + rest);
            lemma_send_multi_ignores_rest(
                bytes.skip(chunk.len() as int),
                events.skip(n as int),
                rest,
                link,
            );
        }
    }
}

} // verus!
