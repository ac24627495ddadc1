//! Laws of the link layer, over the bytes that cross the link.

use crate::communication::cep::first_read;
use crate::bytes::from_le16;
use crate::bytes::from_le32;
use crate::communication::cep::parse;
use crate::communication::cep::parsed_result;
use crate::communication::cep::replay_frame;
use crate::communication::cep::CEPPacketHeader;
use crate::communication::cep::CEPParseError;
use crate::communication::cep::Frame;
use crate::communication::cep::Parsed;
use crate::communication::cep::ACK_HEADER;
use crate::communication::cep::MAXIMUM_DATA_LENGTH;
use crate::communication::cep::NACK_HEADER;
use crate::communication::cep::lemma_parse_ignores_rest;
use crate::communication::cep::lemma_parse_inverts_serialize;
use crate::communication::cep::EOF_HEADER;
use crate::communication::replay::acknowledgement;
use crate::communication::replay::first_chunk;
use crate::communication::replay::replay_receive_multi;
use crate::communication::replay::replay_send_multi;
use crate::communication::replay::replay_await_ack;
use crate::communication::replay::replay_receive;
use crate::communication::replay::replay_rounds;
use crate::communication::replay::replay_send;
use crate::communication::replay::LinkParameters;
use crate::communication::replay::replay_write;
use crate::communication::replay::returned;
use crate::communication::replay::used;
use crate::communication::CommunicationError;
use crate::communication::LinkEvent;
use vstd::prelude::*;

verus! {

/// The bytes that the reads among `events` handed out, in order.
pub open spec fn read_bytes(events: Seq<LinkEvent>) -> Seq<u8>
    decreases events.len(),
{
    if events.len() == 0 {
        Seq::empty()
    } else {
        (match events[0] {
            LinkEvent::Read(bytes) => bytes,
            _ => Seq::empty(),
        }) + read_bytes(events.skip(1))
    }
}

/// The bytes that the writes among `events` took, in order.
pub open spec fn written_bytes(events: Seq<LinkEvent>) -> Seq<u8>
    decreases events.len(),
{
    if events.len() == 0 {
        Seq::empty()
    } else {
        (match events[0] {
            LinkEvent::Written(bytes) => bytes,
            _ => Seq::empty(),
        }) + written_bytes(events.skip(1))
    }
}

/// No read and no write among `events` failed.
pub open spec fn undisturbed(events: Seq<LinkEvent>) -> bool {
    forall|i: int|
        0 <= i < events.len() ==> !(#[trigger] events[i] is ReadFailed) && !(events[i] is WriteFailed)
}

/// `count` times the byte `byte`.
pub open spec fn repeated(byte: u8, count: nat) -> Seq<u8> {
    Seq::new(count, |i: int| byte)
}

/// `count` times the bytes `bytes`, one copy behind the other.
pub open spec fn copies(bytes: Seq<u8>, count: nat) -> Seq<u8>
    decreases count,
{
    if count == 0 {
        Seq::empty()
    } else {
        bytes + copies(bytes, (count - 1) as nat)
    }
}

/// The bytes of the first `n` events, and of the events behind them, make
/// up the bytes of all.
pub proof fn lemma_bytes_split(events: Seq<LinkEvent>, n: int)
    requires
        0 <= n <= events.len(),
    ensures
        read_bytes(events) == read_bytes(events.take(n)) + read_bytes(events.skip(n)),
        written_bytes(events) == written_bytes(events.take(n)) + written_bytes(events.skip(n)),
        undisturbed(events) ==> undisturbed(events.take(n)) && undisturbed(events.skip(n)),
    decreases n,
{
    if n == 0 {
        assert(events.take(0) =~= Seq::<LinkEvent>::empty());
        assert(events.skip(0) =~= events);
        assert(read_bytes(events) =~= Seq::<u8>::empty() + read_bytes(events));
        assert(written_bytes(events) =~= Seq::<u8>::empty() + written_bytes(events));
    } else {
        lemma_bytes_split(events.skip(1), n - 1);
        assert(events.take(n).skip(1) =~= events.skip(1).take(n - 1));
        assert(events.skip(1).skip(n - 1) =~= events.skip(n));
        assert(events.take(n)[0] == events[0]);
        let first_read = match events[0] {
            LinkEvent::Read(bytes) => bytes,
            _ => Seq::empty(),
        };
        let first_written = match events[0] {
            LinkEvent::Written(bytes) => bytes,
            _ => Seq::empty(),
        };
        assert(read_bytes(events) =~= (first_read + read_bytes(events.take(n).skip(1)))
            + read_bytes(events.skip(n)));
        assert(written_bytes(events) =~= (first_written + written_bytes(events.take(n).skip(1)))
            + written_bytes(events.skip(n)));
    }
    if undisturbed(events) {
        assert forall|i: int| 0 <= i < events.take(n).len() implies !(
        #[trigger] events.take(n)[i] is ReadFailed) && !(events.take(n)[i] is WriteFailed) by {
            assert(events.take(n)[i] == events[i]);
        }
        assert forall|i: int| 0 <= i < events.skip(n).len() implies !(
        #[trigger] events.skip(n)[i] is ReadFailed) && !(events.skip(n)[i] is WriteFailed) by {
            assert(events.skip(n)[i] == events[i + n]);
        }
    }
}

/// The bytes of a single event.
pub proof fn lemma_bytes_of_one(event: LinkEvent)
    ensures
        read_bytes(seq![event]) == (match event {
            LinkEvent::Read(bytes) => bytes,
            _ => Seq::empty(),
        }),
        written_bytes(seq![event]) == (match event {
            LinkEvent::Written(bytes) => bytes,
            _ => Seq::empty(),
        }),
{
    assert(seq![event].skip(1) =~= Seq::<LinkEvent>::empty());
    assert(seq![event][0] == event);
    assert(read_bytes(Seq::<LinkEvent>::empty()) == Seq::<u8>::empty());
    assert(written_bytes(Seq::<LinkEvent>::empty()) == Seq::<u8>::empty());
    let r = match event {
        LinkEvent::Read(bytes) => bytes,
        _ => Seq::empty(),
    };
    let w = match event {
        LinkEvent::Written(bytes) => bytes,
        _ => Seq::empty(),
    };
    assert(r + Seq::<u8>::empty() =~= r);
    assert(w + Seq::<u8>::empty() =~= w);
}

/// A reader that met no failure read what `parse` reads: the bytes that its
/// events handed out are the ones that `parse` consumes from the front of
/// the stream, its result is the outcome of `parse`, and it wrote nothing.
pub proof fn lemma_frame_follows_parse(events: Seq<LinkEvent>)
    requires
        replay_frame(events) is Some,
        undisturbed(events),
    ensures
        ({
            let n = used(replay_frame(events)) as int;
            let stream = read_bytes(events);
            &&& n <= events.len()
            &&& n >= 1
            &&& !(parse(stream).outcome is Incomplete)
            &&& returned(replay_frame(events)) == parsed_result(parse(stream).outcome)
            &&& read_bytes(events.take(n)) == stream.take(parse(stream).consumed as int)
            &&& read_bytes(events.take(n)).len() == parse(stream).consumed
            &&& written_bytes(events.take(n)) == Seq::<u8>::empty()
        }),
{
    let n = used(replay_frame(events)) as int;
    let stream = read_bytes(events);
    crate::communication::replay::lemma_frame_ignores_rest(events, Seq::empty());
    lemma_bytes_split(events, n);
    let header = events[0]->Read_0;
    lemma_bytes_split(events, 1);
    assert(events.take(1) =~= seq![events[0]]);
    lemma_bytes_of_one(events[0]);
    assert(stream[0] == header[0]);
    if CEPPacketHeader::of(header[0] as int) == Some(CEPPacketHeader::Data) {
        let field = events[1]->Read_0;
        assert(events.skip(1)[0] == events[1]);
        lemma_bytes_split(events.skip(1), 1);
        assert(events.skip(1).take(1) =~= seq![events[1]]);
        lemma_bytes_of_one(events[1]);
        assert(events.skip(1).skip(1) =~= events.skip(2));
        assert(stream =~= header + field + read_bytes(events.skip(2)));
        assert(stream[1] == field[0]);
        assert(stream[2] == field[1]);
        let length = from_le16(field[0], field[1]);
        if length <= MAXIMUM_DATA_LENGTH {
            let payload = events[2]->Read_0;
            let sum = events[3]->Read_0;
            assert(events.skip(2)[0] == events[2]);
            assert(events.skip(3)[0] == events[3]);
            lemma_bytes_split(events.skip(2), 1);
            assert(events.skip(2).take(1) =~= seq![events[2]]);
            lemma_bytes_of_one(events[2]);
            assert(events.skip(2).skip(1) =~= events.skip(3));
            lemma_bytes_split(events.skip(3), 1);
            assert(events.skip(3).take(1) =~= seq![events[3]]);
            lemma_bytes_of_one(events[3]);
            assert(events.skip(3).skip(1) =~= events.skip(4));
            assert(stream =~= header + field + payload + sum + read_bytes(events.skip(4)));
            assert(stream.subrange(3, 3 + length) =~= payload);
            assert(stream[3 + length] == sum[0]);
            assert(stream[4 + length] == sum[1]);
            assert(stream[5 + length] == sum[2]);
            assert(stream[6 + length] == sum[3]);
            assert(events.skip(3).len() >= 1);
            assert(events.len() >= 4);
            assert(events.take(4).len() == 4);
            assert(events.take(4) =~= seq![events[0], events[1], events[2], events[3]]);
            assert(n == 4);
            assert(read_bytes(events.take(4)) + read_bytes(events.skip(4)) == stream);
            assert(read_bytes(events.take(4)) =~= stream.take(7 + length));
            lemma_writes_nothing(events.take(4));
        } else {
            assert(n == 2);
            assert(events.skip(1).len() >= 1);
            assert(events.len() >= 2);
            assert(events.take(2).len() == 2);
            assert(events.take(2)[0] == events[0]);
            assert(events.take(2)[1] == events[1]);
            assert(events.take(2) =~= seq![events[0], events[1]]);
            assert(read_bytes(events.take(2)) + read_bytes(events.skip(2)) == stream);
            assert(read_bytes(events.take(2)) =~= stream.take(3));
            lemma_writes_nothing(events.take(2));
        }
    } else {
        assert(n == 1);
        assert(read_bytes(events.take(1)) =~= stream.take(1));
        lemma_writes_nothing(events.take(1));
    }
}

/// Events that are all reads took no bytes.
pub proof fn lemma_writes_nothing(events: Seq<LinkEvent>)
    requires
        forall|i: int| 0 <= i < events.len() ==> #[trigger] events[i] is Read,
    ensures
        written_bytes(events) == Seq::<u8>::empty(),
    decreases events.len(),
{
    if events.len() > 0 {
        assert forall|i: int| 0 <= i < events.skip(1).len() implies #[trigger] events.skip(
            1,
        )[i] is Read by {
            assert(events.skip(1)[i] == events[i + 1]);
        }
        lemma_writes_nothing(events.skip(1));
        assert(Seq::<u8>::empty() + Seq::<u8>::empty() =~= Seq::<u8>::empty());
    }
}

/// The events of a reader that met no failure are reads.
pub proof fn lemma_frame_events_are_reads(events: Seq<LinkEvent>)
    requires
        replay_frame(events) is Some,
        !(returned(replay_frame(events)) is Err && returned(replay_frame(events))->Err_0 is Io),
    ensures
        used(replay_frame(events)) <= events.len(),
        forall|i: int| 0 <= i < used(replay_frame(events)) ==> #[trigger] events[i] is Read,
        written_bytes(events.take(used(replay_frame(events)) as int)) == Seq::<u8>::empty(),
{
    let n = used(replay_frame(events)) as int;
    crate::communication::replay::lemma_frame_ignores_rest(events, Seq::empty());
    if n >= 2 {
        assert(events.skip(1)[0] == events[1]);
    }
    if n >= 3 {
        assert(events.skip(2)[0] == events[2]);
        assert(events.skip(3)[0] == events[3]);
    }
    assert forall|i: int| 0 <= i < events.take(n).len() implies #[trigger] events.take(
        n,
    )[i] is Read by {
        assert(events.take(n)[i] == events[i]);
    }
    lemma_writes_nothing(events.take(n));
}

/// A valid data frame that is received is followed by exactly one `Ack`,
/// which the receiver writes before it returns the frame: the last event
/// of the call is the write of `Ack`, and whatever the receiver wrote
/// before it were `Nack`s for frames with an invalid checksum, fewer than
/// it has attempts.
pub proof fn lemma_valid_data_is_acknowledged_once(
    events: Seq<LinkEvent>,
    tries: nat,
    payload: Seq<u8>,
)
    requires
        replay_receive(events, tries) == Some(
            (Ok::<Frame, CommunicationError>(Frame::Data(payload)), events.len()),
        ),
    ensures
        events.len() > 0,
        events.last() == LinkEvent::Written(seq![ACK_HEADER]),
        ({
            let written = written_bytes(events);
            &&& 1 <= written.len() <= tries
            &&& written == repeated(NACK_HEADER, (written.len() - 1) as nat).push(ACK_HEADER)
        }),
    decreases tries,
{
    let n = used(replay_frame(events)) as int;
    lemma_frame_events_are_reads(events);
    lemma_bytes_split(events, n);
    assert(Frame::Ack.wire() =~= seq![ACK_HEADER]);
    assert(Frame::Nack.wire() =~= seq![NACK_HEADER]);
    match returned(replay_frame(events)) {
        Ok(_) => {
            let answer = events.skip(n);
            assert(answer =~= seq![events[n]]);
            assert(answer[0] == events[n]);
            lemma_bytes_of_one(events[n]);
            assert(written_bytes(events) =~= seq![ACK_HEADER]);
            assert(written_bytes(events) =~= repeated(NACK_HEADER, 0).push(ACK_HEADER));
        },
        Err(_) => {
            let rest = events.skip(n + 1);
            assert(events.skip(n)[0] == events[n]);
            lemma_bytes_split(events.skip(n), 1);
            assert(events.skip(n).take(1) =~= seq![events[n]]);
            lemma_bytes_of_one(events[n]);
            assert(events.skip(n).skip(1) =~= rest);
            lemma_valid_data_is_acknowledged_once(rest, (tries - 1) as nat, payload);
            assert(rest.last() == events.last());
            let before = written_bytes(rest);
            assert(written_bytes(events) =~= seq![NACK_HEADER] + before);
            assert(seq![NACK_HEADER] + before =~= repeated(NACK_HEADER, before.len() as nat).push(
                ACK_HEADER,
            ));
        },
    }
}

/// `bytes` are `count` data frames with an invalid checksum, one behind the
/// other, and nothing else.
pub open spec fn corrupt_frames(bytes: Seq<u8>, count: nat) -> bool
    decreases count,
{
    if count == 0 {
        bytes.len() == 0
    } else {
        &&& parse(bytes).outcome == Parsed::Rejected(CEPParseError::InvalidCRC)
        &&& parse(bytes).consumed <= bytes.len()
        &&& corrupt_frames(bytes.skip(parse(bytes).consumed as int), (count - 1) as nat)
    }
}

/// A receiver that reads as many data frames with an invalid checksum as
/// it has attempts, over a stream that does not fail, answers each of them
/// with `Nack` and then fails with `PacketInvalidError`.
pub proof fn lemma_receiver_gives_up(events: Seq<LinkEvent>, tries: nat)
    requires
        replay_receive(events, tries) is Some,
        used(replay_receive(events, tries)) == events.len(),
        undisturbed(events),
        corrupt_frames(read_bytes(events), tries),
    ensures
        returned(replay_receive(events, tries)) == Err::<Frame, CommunicationError>(
            CommunicationError::PacketInvalidError,
        ),
        written_bytes(events) == repeated(NACK_HEADER, tries),
    decreases tries,
{
    if tries == 0 {
        assert(written_bytes(events) =~= repeated(NACK_HEADER, 0));
    } else {
        lemma_frame_follows_parse(events);
        let n = used(replay_frame(events)) as int;
        lemma_bytes_split(events, n);
        assert(Frame::Nack.wire() =~= seq![NACK_HEADER]);
        let rest = events.skip(n + 1);
        assert(events.skip(n)[0] == events[n]);
        lemma_bytes_split(events.skip(n), 1);
        assert(events.skip(n).take(1) =~= seq![events[n]]);
        lemma_bytes_of_one(events[n]);
        assert(events.skip(n).skip(1) =~= rest);
        let stream = read_bytes(events);
        let consumed = parse(stream).consumed as int;
        assert(read_bytes(rest) =~= stream.skip(consumed)) by {
            assert(stream =~= stream.take(consumed) + read_bytes(rest));
        }
        lemma_receiver_gives_up(rest, (tries - 1) as nat);
        assert(written_bytes(events) =~= seq![NACK_HEADER] + written_bytes(rest));
        assert(seq![NACK_HEADER] + repeated(NACK_HEADER, (tries - 1) as nat) =~= repeated(
            NACK_HEADER,
            tries,
        ));
    }
}

/// A receiver that finds a frame without payload at the front of a stream
/// that does not fail reads its one byte, writes nothing and returns it.
pub proof fn lemma_receives_control_frame(events: Seq<LinkEvent>, tries: nat, frame: Frame)
    requires
        tries >= 1,
        !(frame is Data),
        replay_receive(events, tries) is Some,
        undisturbed(events),
        read_bytes(events).len() >= 1,
        read_bytes(events)[0] == frame.kind().byte(),
    ensures
        replay_receive(events, tries) == Some((Ok::<Frame, CommunicationError>(frame), 1nat)),
        events.len() >= 1,
        read_bytes(events.take(1)) == seq![frame.kind().byte()],
        written_bytes(events.take(1)) == Seq::<u8>::empty(),
{
    lemma_frame_follows_parse(events);
    assert(read_bytes(events).take(1) =~= seq![frame.kind().byte()]);
}

/// A wait that finds a frame without payload at the front of a stream that
/// does not fail takes three events: it sets the timeout, reads the one byte
/// and sets the timeout back.
pub proof fn lemma_waits_for_control_frame(
    events: Seq<LinkEvent>,
    timeout: u64,
    unlimited: u64,
    tries: nat,
    frame: Frame,
)
    requires
        tries >= 1,
        !(frame is Data),
        replay_await_ack(events, timeout, unlimited, tries) is Some,
        undisturbed(events),
        read_bytes(events).len() >= 1,
        read_bytes(events)[0] == frame.kind().byte(),
    ensures
        replay_await_ack(events, timeout, unlimited, tries) == Some(
            (acknowledgement(Ok(frame)), 3nat),
        ),
        events.len() >= 3,
        read_bytes(events.take(3)) == seq![frame.kind().byte()],
        written_bytes(events.take(3)) == Seq::<u8>::empty(),
{
    let inner = events.skip(1);
    lemma_bytes_split(events, 1);
    assert(events.take(1) =~= seq![events[0]]);
    lemma_bytes_of_one(events[0]);
    assert(read_bytes(events) =~= read_bytes(inner));
    lemma_receives_control_frame(inner, tries, frame);
    assert(inner.take(1) =~= seq![events[1]]);
    lemma_bytes_of_one(events[1]);
    lemma_bytes_of_one(events[2]);
    lemma_bytes_split(events.take(3), 1);
    lemma_bytes_split(events.take(3).skip(1), 1);
    assert(events.take(3).take(1) =~= seq![events[0]]);
    assert(events.take(3).skip(1).take(1) =~= seq![events[1]]);
    assert(events.take(3).skip(1).skip(1) =~= seq![events[2]]);
    assert(read_bytes(events.take(3)) =~= seq![frame.kind().byte()]);
    assert(written_bytes(events.take(3)) =~= Seq::<u8>::empty());
}

/// The rounds of a sender that hears `Nack` in each of them, over a stream
/// that does not fail: the frame is written again behind every round but
/// the last, and the call fails with `PacketInvalidError`.
pub proof fn lemma_rounds_without_acknowledgement(
    frame: Frame,
    events: Seq<LinkEvent>,
    left: nat,
    link: LinkParameters,
)
    requires
        link.retries >= 1,
        replay_rounds(frame, events, left, link) is Some,
        used(replay_rounds(frame, events, left, link)) == events.len(),
        undisturbed(events),
        read_bytes(events) == repeated(NACK_HEADER, left),
    ensures
        returned(replay_rounds(frame, events, left, link)) == Err::<(), CommunicationError>(
            CommunicationError::PacketInvalidError,
        ),
        written_bytes(events) == copies(frame.wire(), if left == 0 {
            0
        } else {
            (left - 1) as nat
        }),
    decreases left,
{
    if left == 0 {
    } else {
        lemma_waits_for_control_frame(
            events,
            link.integrity_ack_timeout,
            link.unlimited_timeout,
            link.retries,
            Frame::Nack,
        );
        lemma_bytes_split(events, 3);
        if left == 1 {
            assert(events.take(3) =~= events);
        } else {
            let rest = events.skip(4);
            assert(events.skip(3)[0] == events[3]);
            lemma_bytes_split(events.skip(3), 1);
            assert(events.skip(3).take(1) =~= seq![events[3]]);
            lemma_bytes_of_one(events[3]);
            assert(events.skip(3).skip(1) =~= rest);
            assert(read_bytes(rest) =~= repeated(NACK_HEADER, (left - 1) as nat)) by {
                assert(read_bytes(events) =~= seq![NACK_HEADER] + read_bytes(rest));
                assert(read_bytes(rest) =~= read_bytes(events).skip(1));
            }
            lemma_bytes_split(events, 4);
            lemma_rounds_without_acknowledgement(frame, rest, (left - 1) as nat, link);
            assert(written_bytes(events) =~= frame.wire() + written_bytes(rest));
        }
    }
}

/// After sending a data frame over a stream that does not fail, if the peer
/// answers with as many consecutive `Nack`s as the sender has attempts, the
/// sender has written the frame that many times, and then fails with
/// `PacketInvalidError`.
pub proof fn lemma_sender_gives_up(payload: Seq<u8>, events: Seq<LinkEvent>, link: LinkParameters)
    requires
        link.retries >= 1,
        replay_send(Frame::Data(payload), events, link) is Some,
        used(replay_send(Frame::Data(payload), events, link)) == events.len(),
        undisturbed(events),
        read_bytes(events) == repeated(NACK_HEADER, link.retries),
    ensures
        returned(replay_send(Frame::Data(payload), events, link)) == Err::<(), CommunicationError>(
            CommunicationError::PacketInvalidError,
        ),
        written_bytes(events) == copies(Frame::Data(payload).wire(), link.retries),
{
    let frame = Frame::Data(payload);
    let rest = events.skip(1);
    lemma_bytes_split(events, 1);
    assert(events.take(1) =~= seq![events[0]]);
    lemma_bytes_of_one(events[0]);
    assert(read_bytes(events) =~= read_bytes(rest));
    lemma_rounds_without_acknowledgement(frame, rest, link.retries, link);
}

/// A frame that goes out over a stream that does not fail is the first
/// event, and its encoding the first of the bytes written.
pub proof fn lemma_writes_frame(frame: Frame, events: Seq<LinkEvent>)
    requires
        replay_write(frame, events) is Some,
        undisturbed(events),
    ensures
        events.len() >= 1,
        replay_write(frame, events) == Some((Ok::<(), CommunicationError>(()), 1nat)),
        written_bytes(events) == frame.wire() + written_bytes(events.skip(1)),
        read_bytes(events) == read_bytes(events.skip(1)),
        undisturbed(events.skip(1)),
{
    lemma_bytes_split(events, 1);
    assert(events.take(1) =~= seq![events[0]]);
    lemma_bytes_of_one(events[0]);
    assert(read_bytes(events) =~= read_bytes(events.skip(1)));
}

/// A receiver that finds a valid data frame at the front of a stream that
/// does not fail reads the frame, answers it with `Ack` and returns it.
pub proof fn lemma_receives_valid_data(
    events: Seq<LinkEvent>,
    tries: nat,
    payload: Seq<u8>,
    behind: Seq<u8>,
)
    requires
        tries >= 1,
        payload.len() <= MAXIMUM_DATA_LENGTH,
        replay_receive(events, tries) is Some,
        undisturbed(events),
        read_bytes(events) == Frame::Data(payload).wire() + behind,
    ensures
        returned(replay_receive(events, tries)) == Ok::<Frame, CommunicationError>(
            Frame::Data(payload),
        ),
        1 <= used(replay_receive(events, tries)) <= events.len(),
        read_bytes(events.skip(used(replay_receive(events, tries)) as int)) == behind,
        written_bytes(events) == seq![ACK_HEADER] + written_bytes(
            events.skip(used(replay_receive(events, tries)) as int),
        ),
        undisturbed(events.skip(used(replay_receive(events, tries)) as int)),
{
    let frame = Frame::Data(payload);
    let stream = read_bytes(events);
    lemma_parse_inverts_serialize(frame);
    lemma_parse_ignores_rest(frame.wire(), behind);
    lemma_frame_follows_parse(events);
    let n = used(replay_frame(events)) as int;
    lemma_bytes_split(events, n);
    assert(stream.take(frame.wire().len() as int) =~= frame.wire());
    assert(read_bytes(events.skip(n)) =~= behind) by {
        assert(stream =~= frame.wire() + read_bytes(events.skip(n)));
        assert(read_bytes(events.skip(n)) =~= stream.skip(frame.wire().len() as int));
        assert(behind =~= stream.skip(frame.wire().len() as int));
    }
    assert(Frame::Ack.wire() =~= seq![ACK_HEADER]);
    lemma_writes_frame(Frame::Ack, events.skip(n));
    assert(events.skip(n).skip(1) =~= events.skip(n + 1));
    assert(written_bytes(events) =~= seq![ACK_HEADER] + written_bytes(events.skip(n + 1)));
}

/// `send_multi_packet(b)` followed by `receive_multi_packet` on the peer
/// returns `b` exactly: where the receiver reads what the sender wrote, the
/// sender reads what the receiver wrote, and neither stream fails, the
/// sender succeeds and the receiver returns the bytes that were sent.
pub proof fn lemma_transfer_arrives(
    bytes: Seq<u8>,
    sender: Seq<LinkEvent>,
    receiver: Seq<LinkEvent>,
    link: LinkParameters,
    tries: nat,
)
    requires
        link.retries >= 1,
        tries >= 1,
        replay_send_multi(bytes, sender, link) is Some,
        used(replay_send_multi(bytes, sender, link)) == sender.len(),
        replay_receive_multi(receiver, tries) is Some,
        used(replay_receive_multi(receiver, tries)) == receiver.len(),
        undisturbed(sender),
        undisturbed(receiver),
        written_bytes(sender) == read_bytes(receiver),
        written_bytes(receiver) == read_bytes(sender),
    ensures
        returned(replay_send_multi(bytes, sender, link)) == Ok::<(), CommunicationError>(()),
        returned(replay_receive_multi(receiver, tries)) == Ok::<Seq<u8>, CommunicationError>(bytes),
    decreases bytes.len(),
{
    if bytes.len() == 0 {
        assert(Frame::Eof.wire() =~= seq![EOF_HEADER]);
        lemma_writes_frame(Frame::Eof, sender);
        let waiting = sender.skip(1);
        assert(read_bytes(receiver)[0] == EOF_HEADER);
        lemma_receives_control_frame(receiver, tries, Frame::Eof);
        lemma_bytes_split(receiver, 1);
        assert(Frame::Ack.wire() =~= seq![ACK_HEADER]);
        lemma_writes_frame(Frame::Ack, receiver.skip(1));
        assert(written_bytes(receiver)[0] == ACK_HEADER);
        assert(read_bytes(waiting)[0] == ACK_HEADER);
        lemma_waits_for_control_frame(
            waiting,
            link.integrity_ack_timeout,
            link.unlimited_timeout,
            link.retries,
            Frame::Ack,
        );
        assert(bytes =~= Seq::<u8>::empty());
    } else {
        let chunk = first_chunk(bytes);
        let frame = Frame::Data(chunk);
        let next = bytes.skip(chunk.len() as int);
        lemma_writes_frame(frame, sender);
        let waiting = sender.skip(1);
        lemma_receives_valid_data(receiver, tries, chunk, written_bytes(waiting));
        let n = used(replay_receive(receiver, tries)) as int;
        let receiver_goes_on = receiver.skip(n);
        assert(read_bytes(waiting)[0] == ACK_HEADER);
        lemma_waits_for_control_frame(
            waiting,
            link.integrity_ack_timeout,
            link.unlimited_timeout,
            link.retries,
            Frame::Ack,
        );
        let sender_goes_on = sender.skip(4);
        assert(waiting.skip(3) =~= sender_goes_on);
        lemma_bytes_split(waiting, 3);
        assert(read_bytes(sender_goes_on) =~= written_bytes(receiver_goes_on)) by {
            assert(read_bytes(waiting) =~= seq![ACK_HEADER] + read_bytes(sender_goes_on));
            assert(read_bytes(sender_goes_on) =~= read_bytes(waiting).skip(1));
            assert(written_bytes(receiver_goes_on) =~= written_bytes(receiver).skip(1));
        }
        assert(written_bytes(sender_goes_on) =~= read_bytes(receiver_goes_on)) by {
            assert(written_bytes(waiting) =~= Seq::<u8>::empty() + written_bytes(sender_goes_on));
        }
        assert(replay_send(frame, sender, link) == Some(
            (Ok::<(), CommunicationError>(()), 4nat),
        ));
        lemma_transfer_arrives(next, sender_goes_on, receiver_goes_on, link, tries);
        assert(chunk + next =~= bytes);
    }
}

} // verus!
