//! How far a call of the link layer has come: the steps by which the loops
//! of the operations follow their replays.

use crate::communication::cep::replay_frame;
use crate::communication::cep::CEPParseError;
use crate::communication::cep::Frame;
use crate::communication::replay::after;
use crate::communication::replay::first_chunk;
use crate::communication::replay::lemma_await_ack_ignores_rest;
use crate::communication::replay::lemma_frame_ignores_rest;
use crate::communication::replay::lemma_receive_ignores_rest;
use crate::communication::replay::lemma_send_ignores_rest;
use crate::communication::replay::lemma_write_ignores_rest;
use crate::communication::replay::parse_error;
use crate::communication::replay::prepend;
use crate::communication::replay::replay_await_ack;
use crate::communication::replay::replay_receive;
use crate::communication::replay::replay_receive_multi;
use crate::communication::replay::replay_rounds;
use crate::communication::replay::replay_send;
use crate::communication::replay::replay_send_multi;
use crate::communication::replay::replay_write;
use crate::communication::replay::returned;
use crate::communication::replay::used;
use crate::communication::replay::LinkParameters;
use crate::communication::replay::Replay;
use crate::communication::appended;
use crate::communication::continues;
use crate::communication::lemma_continues;
use crate::communication::lemma_grown;
use crate::communication::CommunicationError;
use crate::communication::LinkEvent;
use vstd::prelude::*;

verus! {

/// A receiver whose failed attempts caused `done` goes on with `left`
/// attempts: whatever follows is replayed as a call with `left` tries.
#[verifier::opaque]
pub closed spec fn receiving(done: Seq<LinkEvent>, tries: nat, left: nat) -> bool {
    forall|rest: Seq<LinkEvent>|
        #[trigger] replay_receive(done + rest, tries) == after(
            done.len(),
            replay_receive(rest, left),
        )
}

pub proof fn lemma_receiving_starts(tries: nat)
    ensures
        receiving(Seq::empty(), tries, tries),
{
    reveal(receiving);
    assert forall|rest: Seq<LinkEvent>|
        #[trigger] replay_receive(Seq::empty() + rest, tries) == after(
            0,
            replay_receive(rest, tries),
        ) by {
        assert(Seq::<LinkEvent>::empty() + rest =~= rest);
    }
}

/// One failed attempt: a frame with an invalid checksum was read through
/// `reads`, and `answer` is the write of `Nack`.
pub proof fn lemma_receiving_goes_on(
    done: Seq<LinkEvent>,
    reads: Seq<LinkEvent>,
    answer: Seq<LinkEvent>,
    tries: nat,
    left: nat,
)
    requires
        receiving(done, tries, left),
        left > 0,
        replay_frame(reads) == Some(
            (Err::<Frame, CEPParseError>(CEPParseError::InvalidCRC), reads.len()),
        ),
        answer.len() == 1,
        replay_write(Frame::Nack, answer) == Some((Ok::<(), CommunicationError>(()), 1nat)),
    ensures
        receiving(done + (reads + answer), tries, (left - 1) as nat),
{
    reveal(receiving);
    let grown = done + (reads + answer);
    assert forall|rest: Seq<LinkEvent>|
        #[trigger] replay_receive(grown + rest, tries) == after(
            grown.len(),
            replay_receive(rest, (left - 1) as nat),
        ) by {
        let tail = reads + answer + rest;
        assert(grown + rest =~= done + tail);
        assert(tail =~= reads + (answer + rest));
        lemma_frame_ignores_rest(reads, answer + rest);
        assert(tail.skip(reads.len() as int) =~= answer + rest);
        lemma_write_ignores_rest(Frame::Nack, answer, rest);
        assert(tail.skip(reads.len() + 1 as int) =~= rest);
        assert(replay_receive(tail, left) == after(
            reads.len() + 1,
            replay_receive(rest, (left - 1) as nat),
        ));
    }
}

/// The last attempt of a receiver: a frame was read through `reads`, and
/// where the frame called for an answer, `answer` holds the write.
pub proof fn lemma_receive_ends(reads: Seq<LinkEvent>, answer: Seq<LinkEvent>, tries: nat)
    requires
        tries > 0,
        replay_frame(reads) is Some,
        used(replay_frame(reads)) == reads.len(),
        match returned(replay_frame(reads)) {
            Ok(Frame::Data(_)) => answer.len() == 1 && replay_write(Frame::Ack, answer) is Some,
            Ok(_) => answer.len() == 0,
            Err(CEPParseError::InvalidCRC) => answer.len() == 1 && replay_write(
                Frame::Nack,
                answer,
            ) is Some && returned(replay_write(Frame::Nack, answer)) is Err,
            Err(_) => answer.len() == 0,
        },
    ensures
        replay_receive(reads + answer, tries) == Some(
            (
                match returned(replay_frame(reads)) {
                    Ok(Frame::Data(payload)) => match returned(replay_write(Frame::Ack, answer)) {
                        Ok(()) => Ok(Frame::Data(payload)),
                        Err(e) => Err(e),
                    },
                    Ok(frame) => Ok(frame),
                    Err(CEPParseError::InvalidCRC) => Err(
                        returned(replay_write(Frame::Nack, answer))->Err_0,
                    ),
                    Err(e) => Err(parse_error(e)),
                },
                (reads + answer).len(),
            ),
        ),
{
    let all = reads + answer;
    lemma_frame_ignores_rest(reads, answer);
    assert(all.skip(reads.len() as int) =~= answer);
}

/// The call ends: what came behind `done` is a whole call with `left`
/// tries, and so all of it is a whole call with `tries`.
pub proof fn lemma_receiving_stops(
    done: Seq<LinkEvent>,
    tail: Seq<LinkEvent>,
    tries: nat,
    left: nat,
    r: Result<Frame, CommunicationError>,
)
    requires
        receiving(done, tries, left),
        replay_receive(tail, left) == Some((r, tail.len())),
    ensures
        replay_receive(done + tail, tries) == Some((r, (done + tail).len())),
{
    reveal(receiving);
}

/// A sender whose rounds so far caused `done` goes on with `left` rounds.
#[verifier::opaque]
pub closed spec fn sending(
    frame: Frame,
    done: Seq<LinkEvent>,
    left: nat,
    link: LinkParameters,
) -> bool {
    forall|rest: Seq<LinkEvent>|
        #[trigger] replay_rounds(frame, done + rest, link.retries, link) == after(
            done.len(),
            replay_rounds(frame, rest, left, link),
        )
}

pub proof fn lemma_sending_starts(frame: Frame, link: LinkParameters)
    ensures
        sending(frame, Seq::empty(), link.retries, link),
{
    reveal(sending);
    assert forall|rest: Seq<LinkEvent>|
        #[trigger] replay_rounds(frame, Seq::empty() + rest, link.retries, link) == after(
            0,
            replay_rounds(frame, rest, link.retries, link),
        ) by {
        assert(Seq::<LinkEvent>::empty() + rest =~= rest);
    }
}

/// One round that ends in `Nack`: `waited` are the events of the wait, and
/// `again` is the write of the frame that follows, unless the round was the
/// last.
pub proof fn lemma_sending_goes_on(
    frame: Frame,
    done: Seq<LinkEvent>,
    waited: Seq<LinkEvent>,
    again: Seq<LinkEvent>,
    left: nat,
    link: LinkParameters,
)
    requires
        sending(frame, done, left, link),
        left > 0,
        replay_await_ack(
            waited,
            link.integrity_ack_timeout,
            link.unlimited_timeout,
            link.retries,
        ) == Some(
            (Err::<(), CommunicationError>(CommunicationError::NotAcknowledged), waited.len()),
        ),
        left == 1 ==> again.len() == 0,
        left > 1 ==> again.len() == 1 && replay_write(frame, again) == Some(
            (Ok::<(), CommunicationError>(()), 1nat),
        ),
    ensures
        sending(frame, done + (waited + again), (left - 1) as nat, link),
{
    reveal(sending);
    let grown = done + (waited + again);
    assert forall|rest: Seq<LinkEvent>|
        #[trigger] replay_rounds(frame, grown + rest, link.retries, link) == after(
            grown.len(),
            replay_rounds(frame, rest, (left - 1) as nat, link),
        ) by {
        let tail = waited + again + rest;
        assert(grown + rest =~= done + tail);
        assert(tail =~= waited + (again + rest));
        lemma_await_ack_ignores_rest(
            waited,
            again + rest,
            link.integrity_ack_timeout,
            link.unlimited_timeout,
            link.retries,
        );
        if left > 1 {
            assert(tail.skip(waited.len() as int) =~= again + rest);
            lemma_write_ignores_rest(frame, again, rest);
            assert(tail.skip(waited.len() + 1 as int) =~= rest);
        } else {
            assert(tail =~= waited + rest);
        }
        assert(replay_rounds(frame, tail, left, link) == after(
            (waited + again).len(),
            replay_rounds(frame, rest, (left - 1) as nat, link),
        ));
    }
}

/// The round of a sender that ends the call: with `Ack`, with an error
/// other than `Nack`, or with a failed write of the frame.
pub proof fn lemma_round_ends(
    frame: Frame,
    waited: Seq<LinkEvent>,
    again: Seq<LinkEvent>,
    left: nat,
    link: LinkParameters,
    r: Result<(), CommunicationError>,
)
    requires
        left > 0,
        replay_await_ack(
            waited,
            link.integrity_ack_timeout,
            link.unlimited_timeout,
            link.retries,
        ) is Some,
        used(
            replay_await_ack(
                waited,
                link.integrity_ack_timeout,
                link.unlimited_timeout,
                link.retries,
            ),
        ) == waited.len(),
        ({
            let answer = returned(
                replay_await_ack(
                    waited,
                    link.integrity_ack_timeout,
                    link.unlimited_timeout,
                    link.retries,
                ),
            );
            if answer == Err::<(), CommunicationError>(CommunicationError::NotAcknowledged) {
                left > 1 && again.len() == 1 && replay_write(frame, again) == Some((r, 1nat))
                    && r is Err
            } else {
                again.len() == 0 && r == answer
            }
        }),
    ensures
        replay_rounds(frame, waited + again, left, link) == Some((r, (waited + again).len())),
{
    let all = waited + again;
    lemma_await_ack_ignores_rest(
        waited,
        again,
        link.integrity_ack_timeout,
        link.unlimited_timeout,
        link.retries,
    );
    assert(all.skip(waited.len() as int) =~= again);
}

/// The call ends: the first write and the rounds make up a whole call.
/// The frame was written between `before` and `wrote`; the rounds `done`
/// and the last round `tail` led from there to `now`.
pub proof fn lemma_sending_stops(
    frame: Frame,
    before: Seq<LinkEvent>,
    wrote: Seq<LinkEvent>,
    now: Seq<LinkEvent>,
    done: Seq<LinkEvent>,
    tail: Seq<LinkEvent>,
    left: nat,
    link: LinkParameters,
    r: Result<(), CommunicationError>,
)
    requires
        frame is Data,
        continues(before, wrote),
        appended(before, wrote).len() == 1,
        replay_write(frame, appended(before, wrote)) == Some(
            (Ok::<(), CommunicationError>(()), 1nat),
        ),
        continues(wrote, now),
        appended(wrote, now) == done + tail,
        sending(frame, done, left, link),
        replay_rounds(frame, tail, left, link) == Some((r, tail.len())),
    ensures
        continues(before, now),
        replay_send(frame, appended(before, now), link) == Some((r, appended(before, now).len())),
{
    reveal(sending);
    let first = appended(before, wrote);
    let all = first + (done + tail);
    lemma_continues(before, wrote);
    lemma_continues(wrote, now);
    assert(now =~= before + all);
    lemma_grown(before, all);
    lemma_write_ignores_rest(frame, first, done + tail);
    assert(all.skip(1) =~= done + tail);
}

/// A transfer whose packets so far caused `done` goes on with the bytes
/// `remaining`.
#[verifier::opaque]
pub closed spec fn sending_multi(
    bytes: Seq<u8>,
    done: Seq<LinkEvent>,
    remaining: Seq<u8>,
    link: LinkParameters,
) -> bool {
    forall|rest: Seq<LinkEvent>|
        #[trigger] replay_send_multi(bytes, done + rest, link) == after(
            done.len(),
            replay_send_multi(remaining, rest, link),
        )
}

pub proof fn lemma_sending_multi_starts(bytes: Seq<u8>, link: LinkParameters)
    ensures
        sending_multi(bytes, Seq::empty(), bytes, link),
{
    reveal(sending_multi);
    assert forall|rest: Seq<LinkEvent>|
        #[trigger] replay_send_multi(bytes, Seq::empty() + rest, link) == after(
            0,
            replay_send_multi(bytes, rest, link),
        ) by {
        assert(Seq::<LinkEvent>::empty() + rest =~= rest);
    }
}

/// A transfer with bytes to send begins with a data packet that holds the
/// first chunk; where that packet goes out, the rest of the bytes follow.
proof fn lemma_send_multi_first(
    remaining: Seq<u8>,
    sent: Seq<LinkEvent>,
    rest: Seq<LinkEvent>,
    link: LinkParameters,
    r: Result<(), CommunicationError>,
)
    requires
        remaining.len() > 0,
        replay_send(Frame::Data(first_chunk(remaining)), sent, link) == Some((r, sent.len())),
    ensures
        replay_send_multi(remaining, sent + rest, link) == (match r {
            Ok(()) => after(
                sent.len(),
                replay_send_multi(remaining.skip(first_chunk(remaining).len() as int), rest, link),
            ),
            Err(e) => Some((Err::<(), CommunicationError>(e), sent.len())),
        }),
{
    lemma_send_ignores_rest(Frame::Data(first_chunk(remaining)), sent, rest, link);
    assert((sent + rest).skip(sent.len() as int) =~= rest);
}

/// One data packet of the transfer went out with success through `sent`.
pub proof fn lemma_sending_multi_goes_on(
    bytes: Seq<u8>,
    done: Seq<LinkEvent>,
    remaining: Seq<u8>,
    sent: Seq<LinkEvent>,
    link: LinkParameters,
)
    requires
        sending_multi(bytes, done, remaining, link),
        remaining.len() > 0,
        replay_send(Frame::Data(first_chunk(remaining)), sent, link) == Some(
            (Ok::<(), CommunicationError>(()), sent.len()),
        ),
    ensures
        sending_multi(
            bytes,
            done + sent,
            remaining.skip(first_chunk(remaining).len() as int),
            link,
        ),
{
    reveal(sending_multi);
    let grown = done + sent;
    let next = remaining.skip(first_chunk(remaining).len() as int);
    assert forall|rest: Seq<LinkEvent>|
        #[trigger] replay_send_multi(bytes, grown + rest, link) == after(
            grown.len(),
            replay_send_multi(next, rest, link),
        ) by {
        assert(grown + rest =~= done + (sent + rest));
        lemma_send_multi_first(remaining, sent, rest, link, Ok(()));
    }
}

/// The transfer ends with an error in one of its data packets.
pub proof fn lemma_sending_multi_fails(
    bytes: Seq<u8>,
    done: Seq<LinkEvent>,
    remaining: Seq<u8>,
    sent: Seq<LinkEvent>,
    link: LinkParameters,
    e: CommunicationError,
)
    requires
        sending_multi(bytes, done, remaining, link),
        remaining.len() > 0,
        replay_send(Frame::Data(first_chunk(remaining)), sent, link) == Some(
            (Err::<(), CommunicationError>(e), sent.len()),
        ),
    ensures
        replay_send_multi(bytes, done + sent, link) == Some(
            (Err::<(), CommunicationError>(e), (done + sent).len()),
        ),
{
    reveal(sending_multi);
    lemma_send_multi_first(remaining, sent, Seq::empty(), link, Err(e));
    assert(sent + Seq::<LinkEvent>::empty() =~= sent);
}

/// The transfer ends behind its last data packet: `Eof` went out through
/// `sent`, and `waited` are the events of the wait for the final
/// acknowledgement, if it came to that.
pub proof fn lemma_sending_multi_stops(
    bytes: Seq<u8>,
    done: Seq<LinkEvent>,
    sent: Seq<LinkEvent>,
    waited: Seq<LinkEvent>,
    link: LinkParameters,
    r: Result<(), CommunicationError>,
)
    requires
        sending_multi(bytes, done, Seq::empty(), link),
        replay_send(Frame::Eof, sent, link) is Some,
        used(replay_send(Frame::Eof, sent, link)) == sent.len(),
        match returned(replay_send(Frame::Eof, sent, link)) {
            Ok(()) => replay_await_ack(
                waited,
                link.integrity_ack_timeout,
                link.unlimited_timeout,
                link.retries,
            ) == Some((r, waited.len())),
            Err(e) => waited.len() == 0 && r == Err::<(), CommunicationError>(e),
        },
    ensures
        replay_send_multi(bytes, done + (sent + waited), link) == Some(
            (r, (done + (sent + waited)).len()),
        ),
{
    reveal(sending_multi);
    lemma_send_ignores_rest(Frame::Eof, sent, waited, link);
    assert((sent + waited).skip(sent.len() as int) =~= waited);
}

/// A receiver of a transfer that has joined `joined` so far, through the
/// events `done`, goes on receiving.
#[verifier::opaque]
pub closed spec fn receiving_multi(done: Seq<LinkEvent>, joined: Seq<u8>, tries: nat) -> bool {
    forall|rest: Seq<LinkEvent>|
        #[trigger] replay_receive_multi(done + rest, tries) == after(
            done.len(),
            prepend(joined, replay_receive_multi(rest, tries)),
        )
}

/// Putting no bytes in front of a replay leaves it as it is.
pub proof fn lemma_prepend_nothing(replay: Replay<Result<Seq<u8>, CommunicationError>>)
    ensures
        prepend(Seq::empty(), replay) == replay,
{
    match replay {
        Some((Ok(bytes), _)) => {
            assert(Seq::<u8>::empty() + bytes =~= bytes);
        },
        _ => {},
    }
}

/// Bytes put in front of a replay twice are their sum put in front once.
pub proof fn lemma_prepend_twice(
    a: Seq<u8>,
    b: Seq<u8>,
    replay: Replay<Result<Seq<u8>, CommunicationError>>,
)
    ensures
        prepend(a, prepend(b, replay)) == prepend(a + b, replay),
{
    match replay {
        Some((Ok(bytes), _)) => {
            assert(a + (b + bytes) =~= (a + b) + bytes);
        },
        _ => {},
    }
}

pub proof fn lemma_receiving_multi_starts(tries: nat)
    ensures
        receiving_multi(Seq::empty(), Seq::empty(), tries),
{
    reveal(receiving_multi);
    assert forall|rest: Seq<LinkEvent>|
        #[trigger] replay_receive_multi(Seq::empty() + rest, tries) == after(
            0,
            prepend(Seq::empty(), replay_receive_multi(rest, tries)),
        ) by {
        assert(Seq::<LinkEvent>::empty() + rest =~= rest);
        lemma_prepend_nothing(replay_receive_multi(rest, tries));
    }
}

/// To receive a packet with success takes at least one event.
pub proof fn lemma_received_took_events(events: Seq<LinkEvent>, tries: nat)
    requires
        replay_receive(events, tries) is Some,
        returned(replay_receive(events, tries)) is Ok,
    ensures
        used(replay_receive(events, tries)) > 0,
    decreases tries,
{
    if tries > 0 {
        match returned(replay_frame(events)) {
            Err(CEPParseError::InvalidCRC) => {
                let n = used(replay_frame(events));
                if returned(replay_write(Frame::Nack, events.skip(n as int))) is Ok {
                    lemma_received_took_events(events.skip(n + 1 as int), (tries - 1) as nat);
                }
            },
            _ => {},
        }
    }
}

/// One packet after which receiving goes on: a data packet, whose payload
/// is joined, or a packet that was answered with `Nack` through `answer`.
pub proof fn lemma_receiving_multi_goes_on(
    done: Seq<LinkEvent>,
    joined: Seq<u8>,
    received: Seq<LinkEvent>,
    answer: Seq<LinkEvent>,
    tries: nat,
)
    requires
        receiving_multi(done, joined, tries),
        replay_receive(received, tries) is Some,
        used(replay_receive(received, tries)) == received.len(),
        match returned(replay_receive(received, tries)) {
            Ok(Frame::Data(_)) => answer.len() == 0,
            Ok(Frame::Eof) => false,
            Err(CommunicationError::Io(_)) => false,
            Err(CommunicationError::TimedOut) => false,
            _ => answer.len() == 1 && replay_write(Frame::Nack, answer) == Some(
                (Ok::<(), CommunicationError>(()), 1nat),
            ),
        },
    ensures
        receiving_multi(
            done + (received + answer),
            joined + (match returned(replay_receive(received, tries)) {
                Ok(frame) => frame.payload(),
                Err(_) => Seq::empty(),
            }),
            tries,
        ),
        (received + answer).len() > 0,
{
    reveal(receiving_multi);
    let grown = done + (received + answer);
    let payload = match returned(replay_receive(received, tries)) {
        Ok(frame) => frame.payload(),
        Err(_) => Seq::empty(),
    };
    if returned(replay_receive(received, tries)) is Ok {
        lemma_received_took_events(received, tries);
    }
    assert forall|rest: Seq<LinkEvent>|
        #[trigger] replay_receive_multi(grown + rest, tries) == after(
            grown.len(),
            prepend(joined + payload, replay_receive_multi(rest, tries)),
        ) by {
        let tail = received + answer + rest;
        assert(grown + rest =~= done + tail);
        assert(tail =~= received + (answer + rest));
        lemma_receive_ignores_rest(received, answer + rest, tries);
        assert(tail.skip(received.len() as int) =~= answer + rest);
        let then = replay_receive_multi(rest, tries);
        match returned(replay_receive(received, tries)) {
            Ok(Frame::Data(_)) => {
                assert(answer + rest =~= rest);
            },
            _ => {
                lemma_write_ignores_rest(Frame::Nack, answer, rest);
                assert(tail.skip(received.len() + 1 as int) =~= rest);
                lemma_prepend_nothing(then);
            },
        }
        assert(replay_receive_multi(tail, tries) == after(
            (received + answer).len(),
            prepend(payload, then),
        ));
        lemma_prepend_twice(joined, payload, then);
    }
}

/// The packet that ends a transfer: `Eof` with the write of its answer, a
/// failure of the stream, or a failed write of `Nack`.
pub proof fn lemma_receiving_multi_stops(
    done: Seq<LinkEvent>,
    joined: Seq<u8>,
    received: Seq<LinkEvent>,
    answer: Seq<LinkEvent>,
    tries: nat,
    r: Result<Seq<u8>, CommunicationError>,
)
    requires
        receiving_multi(done, joined, tries),
        replay_receive(received, tries) is Some,
        used(replay_receive(received, tries)) == received.len(),
        match returned(replay_receive(received, tries)) {
            Ok(Frame::Data(_)) => false,
            Ok(Frame::Eof) => answer.len() == 1 && replay_write(Frame::Ack, answer) is Some && r
                == (match returned(replay_write(Frame::Ack, answer)) {
                Ok(()) => Ok::<Seq<u8>, CommunicationError>(joined),
                Err(e) => Err(e),
            }),
            Err(CommunicationError::Io(kind)) => answer.len() == 0 && r == Err::<
                Seq<u8>,
                CommunicationError,
            >(CommunicationError::Io(kind)),
            Err(CommunicationError::TimedOut) => answer.len() == 0 && r == Err::<
                Seq<u8>,
                CommunicationError,
            >(CommunicationError::TimedOut),
            _ => answer.len() == 1 && replay_write(Frame::Nack, answer) is Some && returned(
                replay_write(Frame::Nack, answer),
            ) is Err && r == Err::<Seq<u8>, CommunicationError>(
                returned(replay_write(Frame::Nack, answer))->Err_0,
            ),
        },
    ensures
        replay_receive_multi(done + (received + answer), tries) == Some(
            (r, (done + (received + answer)).len()),
        ),
{
    reveal(receiving_multi);
    let tail = received + answer;
    lemma_receive_ignores_rest(received, answer, tries);
    assert(tail.skip(received.len() as int) =~= answer);
    assert(joined + Seq::<u8>::empty() =~= joined);
}

} // verus!
