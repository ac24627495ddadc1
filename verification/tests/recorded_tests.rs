use std::collections::VecDeque;
use sts1_edu_scheduler::command::transfer_result;
use sts1_edu_scheduler::command::Cause;
use sts1_edu_scheduler::command::CommandError;
use sts1_edu_scheduler::communication::CEPPacket;
use sts1_edu_scheduler::communication::CommunicationError;
use sts1_edu_scheduler::communication::CommunicationHandle;
use sts1_edu_scheduler::communication::IoErrorKind;
use sts1_edu_scheduler::communication::PacketLink;
use sts1_edu_scheduler::communication::Recorded;

/// What the stream is asked to do, as it saw it.
#[derive(Debug, PartialEq, Eq, Clone)]
enum Call {
    Timeout(u64),
    Read(usize),
    Write(Vec<u8>),
}

/// A stream that answers each read and each write from a script, and notes
/// what it was asked.
struct Stream {
    reads: VecDeque<Result<Vec<u8>, IoErrorKind>>,
    writes: VecDeque<Result<(), IoErrorKind>>,
    calls: Vec<Call>,
}

impl Stream {
    fn new(reads: Vec<Result<Vec<u8>, IoErrorKind>>, writes: Vec<Result<(), IoErrorKind>>) -> Self {
        Stream { reads: reads.into(), writes: writes.into(), calls: vec![] }
    }
}

impl CommunicationHandle for Stream {
    const INTEGRITY_ACK_TIMEOUT: u64 = 1000;
    const UNLIMITED_TIMEOUT: u64 = 9_223_372_035;
    const DATA_PACKET_RETRIES: usize = 2;

    fn set_timeout(&mut self, timeout: u64) {
        self.calls.push(Call::Timeout(timeout));
    }

    fn read_exact(&mut self, n: usize) -> Result<Vec<u8>, IoErrorKind> {
        self.calls.push(Call::Read(n));
        self.reads.pop_front().unwrap_or(Err(IoErrorKind::UnexpectedEof))
    }

    fn write_all(&mut self, bytes: &[u8]) -> Result<(), IoErrorKind> {
        self.calls.push(Call::Write(bytes.to_vec()));
        self.writes.pop_front().unwrap_or(Ok(()))
    }
}

#[test]
fn acknowledgement_is_awaited_under_the_integrity_timeout() {
    let mut com = Recorded::new(Stream::new(vec![Ok(vec![0xD7])], vec![]));

    com.send_packet(&CEPPacket::Data(vec![1])).unwrap();

    let stream = com.into_inner();
    assert_eq!(
        stream.calls,
        vec![
            Call::Write(CEPPacket::Data(vec![1]).serialize()),
            Call::Timeout(1000),
            Call::Read(1),
            Call::Timeout(9_223_372_035),
        ]
    );
}

#[test]
fn timeout_is_set_back_after_a_timed_out_wait() {
    let mut com = Recorded::new(Stream::new(vec![Err(IoErrorKind::TimedOut)], vec![]));

    assert_eq!(com.await_ack(250), Err(CommunicationError::TimedOut));

    assert_eq!(
        com.into_inner().calls,
        vec![Call::Timeout(250), Call::Read(1), Call::Timeout(9_223_372_035)]
    );
}

#[test]
fn retries_follow_the_stream() {
    // two attempts: the frame goes out twice, and the second Nack ends it
    let mut com = Recorded::new(Stream::new(vec![Ok(vec![0x27]), Ok(vec![0x27])], vec![]));

    assert_eq!(
        com.send_packet(&CEPPacket::Data(vec![1])),
        Err(CommunicationError::PacketInvalidError)
    );

    let frame = CEPPacket::Data(vec![1]).serialize();
    assert_eq!(
        com.into_inner().calls,
        vec![
            Call::Write(frame.clone()),
            Call::Timeout(1000),
            Call::Read(1),
            Call::Timeout(9_223_372_035),
            Call::Write(frame),
            Call::Timeout(1000),
            Call::Read(1),
            Call::Timeout(9_223_372_035),
        ]
    );
}

#[test]
fn a_frame_is_read_field_by_field() {
    let mut com = Recorded::new(Stream::new(
        vec![Ok(vec![0x8B]), Ok(vec![4, 0]), Ok(vec![0x0a, 0x0b, 0x05, 0x73]), Ok(vec![0x52, 0x27, 0x92, 0xf4])],
        vec![],
    ));

    assert_eq!(com.receive_packet(), Ok(CEPPacket::Data(vec![0x0a, 0x0b, 0x05, 0x73])));

    assert_eq!(
        com.into_inner().calls,
        vec![Call::Read(1), Call::Read(2), Call::Read(4), Call::Read(4), Call::Write(vec![0xD7])]
    );
}

#[test]
fn a_long_length_ends_the_reading() {
    let mut com = Recorded::new(Stream::new(vec![Ok(vec![0x8B]), Ok(vec![0x01, 0x2C])], vec![]));

    assert!(com.receive_packet().is_err());

    assert_eq!(com.into_inner().calls, vec![Call::Read(1), Call::Read(2)]);
}

#[test]
fn a_read_of_the_wrong_length_is_invalid_data() {
    let mut com = Recorded::new(Stream::new(vec![Ok(vec![0xD7, 0xD7])], vec![]));
    assert_eq!(com.receive_packet(), Err(CommunicationError::PacketInvalidError));
}

#[test]
fn failures_of_the_stream_are_passed_on() {
    let mut com = Recorded::new(Stream::new(vec![], vec![Err(IoErrorKind::Other)]));
    assert_eq!(
        com.send_packet(&CEPPacket::Ack),
        Err(CommunicationError::Io(IoErrorKind::Other))
    );

    let mut com = Recorded::new(Stream::new(vec![Err(IoErrorKind::InvalidData)], vec![]));
    assert_eq!(com.receive_packet(), Err(CommunicationError::PacketInvalidError));

    // the answer to a valid data frame cannot be written
    let mut reads: Vec<Result<Vec<u8>, IoErrorKind>> = vec![];
    reads.push(Ok(vec![0x8B]));
    reads.push(Ok(vec![0, 0]));
    reads.push(Ok(vec![]));
    reads.push(Ok(vec![0xff, 0xff, 0xff, 0xff]));
    let mut com = Recorded::new(Stream::new(reads, vec![Err(IoErrorKind::TimedOut)]));
    assert_eq!(com.receive_packet(), Err(CommunicationError::TimedOut));
}

#[test]
fn bundle_is_acknowledged_under_the_command_timeout() {
    let mut com = Recorded::new(Stream::new(
        vec![Ok(vec![0xD7]), Ok(vec![0xD7]), Ok(vec![0xD7])],
        vec![],
    ));

    assert_eq!(transfer_result(&mut com, Some(vec![5])), Ok(()));

    assert_eq!(
        com.into_inner().calls,
        vec![
            Call::Write(CEPPacket::Data(vec![5]).serialize()),
            Call::Timeout(1000),
            Call::Read(1),
            Call::Timeout(9_223_372_035),
            Call::Write(vec![0x59]),
            Call::Timeout(1000),
            Call::Read(1),
            Call::Timeout(9_223_372_035),
            Call::Timeout(1000),
            Call::Read(1),
            Call::Timeout(9_223_372_035),
        ]
    );
}

#[test]
fn missing_acknowledgement_of_a_bundle_is_a_protocol_violation() {
    let mut com = Recorded::new(Stream::new(
        vec![Ok(vec![0xD7]), Ok(vec![0xD7]), Err(IoErrorKind::TimedOut)],
        vec![],
    ));

    assert_eq!(
        transfer_result(&mut com, Some(vec![5])),
        Err(CommandError::ProtocolViolation(Cause::Link(CommunicationError::TimedOut)))
    );
}
