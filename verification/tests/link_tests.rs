use sts1_edu_scheduler::communication::CEPPacket;
use sts1_edu_scheduler::communication::CEPParseError;
use sts1_edu_scheduler::communication::CommunicationError;
use sts1_edu_scheduler::communication::RecordedHandle;
use sts1_edu_scheduler::communication::IoErrorKind;
use sts1_edu_scheduler::communication::PacketLink;
use sts1_edu_scheduler::communication::ScriptedHandle;

const DATA_HEADER: u8 = 0x8B;
const MAXIMUM_DATA_LENGTH: usize = 11 * 1024;

fn packet_is_sent_correctly(packet: CEPPacket) {
    let mut com = ScriptedHandle::default();
    com.data_to_read.append(&mut CEPPacket::Ack.serialize());

    com.send_packet(&packet).unwrap();

    assert_eq!(com.written_data, packet.serialize());
}

#[test]
fn ack_is_sent_correctly() {
    packet_is_sent_correctly(CEPPacket::Ack);
}

#[test]
fn nack_is_sent_correctly() {
    packet_is_sent_correctly(CEPPacket::Nack);
}

#[test]
fn eof_is_sent_correctly() {
    packet_is_sent_correctly(CEPPacket::Eof);
}

#[test]
fn data_is_sent_correctly() {
    packet_is_sent_correctly(CEPPacket::Data(vec![1, 2, 3]));
}

fn packet_is_received_correctly(packet: CEPPacket) {
    let mut com = ScriptedHandle::default();
    com.data_to_read.append(&mut packet.clone().serialize());

    assert_eq!(com.receive_packet().unwrap(), packet);

    if matches!(packet, CEPPacket::Data(_)) {
        assert_eq!(com.written_data, CEPPacket::Ack.serialize());
    } else {
        assert!(com.written_data.is_empty());
    }
}

#[test]
fn ack_is_received_correctly() {
    packet_is_received_correctly(CEPPacket::Ack);
}

#[test]
fn nack_is_received_correctly() {
    packet_is_received_correctly(CEPPacket::Nack);
}

#[test]
fn eof_is_received_correctly() {
    packet_is_received_correctly(CEPPacket::Eof);
}

#[test]
fn data_is_received_correctly() {
    packet_is_received_correctly(CEPPacket::Data(vec![1, 2, 3]));
}

#[test]
fn retry_on_nack() {
    let mut com = ScriptedHandle::default();
    com.data_to_read.append(&mut CEPPacket::Nack.serialize());
    com.data_to_read.append(&mut CEPPacket::Nack.serialize());
    com.data_to_read.append(&mut CEPPacket::Ack.serialize());

    com.send_packet(&CEPPacket::Data(vec![1, 2, 3])).unwrap();

    assert_eq!(com.written_data, CEPPacket::Data(vec![1, 2, 3]).serialize().repeat(3));
    assert!(com.data_to_read.is_empty());
}

#[test]
fn fail_after_retries_send_packet() {
    let mut com = ScriptedHandle::default();
    for _ in 0..ScriptedHandle::DATA_PACKET_RETRIES {
        com.data_to_read.append(&mut CEPPacket::Nack.serialize());
    }

    assert!(matches!(
        com.send_packet(&CEPPacket::Data(vec![1, 2, 3])),
        Err(CommunicationError::PacketInvalidError)
    ));
    assert!(com.data_to_read.is_empty());
    assert_eq!(
        com.written_data,
        CEPPacket::Data(vec![1, 2, 3]).serialize().repeat(ScriptedHandle::DATA_PACKET_RETRIES)
    );
}

#[test]
fn fail_after_retries_receive_packet() {
    let mut com = ScriptedHandle::default();
    com.data_to_read
        .extend([DATA_HEADER, 1, 0, 2, 1, 1, 1, 1].repeat(ScriptedHandle::DATA_PACKET_RETRIES));

    let err = com.receive_packet().expect_err("Invalid data packet should fail");
    assert!(matches!(err, CommunicationError::PacketInvalidError));
    assert!(com.data_to_read.is_empty(), "Not read: {:?}", com.data_to_read);
    assert_eq!(
        com.written_data,
        CEPPacket::Nack.serialize().repeat(ScriptedHandle::DATA_PACKET_RETRIES)
    );
}

#[test]
fn receive_packet_retries_correctly() {
    let mut com = ScriptedHandle::default();
    com.data_to_read.extend(
        [DATA_HEADER, 1, 0, 2, 1, 1, 1, 1].repeat(ScriptedHandle::DATA_PACKET_RETRIES - 1),
    );
    com.data_to_read.append(&mut CEPPacket::Data(vec![2]).serialize());

    assert_eq!(com.receive_packet().unwrap(), CEPPacket::Data(vec![2]));
    assert!(com.data_to_read.is_empty());
    let mut expected = CEPPacket::Nack.serialize().repeat(ScriptedHandle::DATA_PACKET_RETRIES - 1);
    expected.append(&mut CEPPacket::Ack.serialize());
    assert_eq!(com.written_data, expected);
}

#[test]
fn multi_packet_is_sent_correctly() {
    let mut com = ScriptedHandle::default();

    let data = vec![123u8; 2 * MAXIMUM_DATA_LENGTH + 50];
    let chunks = data.chunks(MAXIMUM_DATA_LENGTH);
    com.data_to_read = CEPPacket::Ack.serialize().repeat(chunks.len() + 1);

    com.send_multi_packet(&data).unwrap();

    assert!(com.data_to_read.is_empty());
    for c in chunks {
        assert_eq!(
            com.written_data.drain(0..c.len() + 7).as_slice(),
            CEPPacket::Data(c.to_vec()).serialize()
        );
    }
    assert_eq!(com.written_data, CEPPacket::Eof.serialize());
}

#[test]
fn multi_packet_is_received_correctly() {
    let mut com = ScriptedHandle::default();

    let data = vec![123u8; 2 * MAXIMUM_DATA_LENGTH + 50];
    let chunks = data.chunks(MAXIMUM_DATA_LENGTH);
    for c in chunks.clone() {
        com.data_to_read.append(&mut CEPPacket::Data(c.to_vec()).serialize());
    }
    com.data_to_read.append(&mut CEPPacket::Eof.serialize());

    assert_eq!(com.receive_multi_packet().unwrap(), data);
    assert!(com.data_to_read.is_empty());
    assert_eq!(com.written_data, CEPPacket::Ack.serialize().repeat(chunks.len() + 1))
}

#[test]
fn empty_multi_packet_is_only_an_eof() {
    let mut com = ScriptedHandle::default();
    com.data_to_read = CEPPacket::Ack.serialize();

    com.send_multi_packet(&[]).unwrap();

    assert_eq!(com.written_data, CEPPacket::Eof.serialize());
}

#[test]
fn multi_packet_of_exactly_one_chunk() {
    let mut com = ScriptedHandle::default();
    let data = vec![7u8; MAXIMUM_DATA_LENGTH];
    com.data_to_read = CEPPacket::Ack.serialize().repeat(2);

    com.send_multi_packet(&data).unwrap();

    let mut expected = CEPPacket::Data(data).serialize();
    expected.append(&mut CEPPacket::Eof.serialize());
    assert_eq!(com.written_data, expected);
}

#[test]
fn what_one_side_sends_the_other_receives() {
    let data: Vec<u8> = (0..3 * MAXIMUM_DATA_LENGTH + 17).map(|i| (i % 253) as u8).collect();
    let chunks = data.chunks(MAXIMUM_DATA_LENGTH).len();

    let mut sender = ScriptedHandle::default();
    sender.data_to_read = CEPPacket::Ack.serialize().repeat(chunks + 1);
    sender.send_multi_packet(&data).unwrap();

    let mut receiver = ScriptedHandle::new(sender.written_data.clone());
    assert_eq!(receiver.receive_multi_packet().unwrap(), data);
    // the receiver wrote what the sender read
    assert_eq!(receiver.written_data, CEPPacket::Ack.serialize().repeat(chunks + 1));
}

#[test]
fn await_ack_tells_the_answers_apart() {
    let mut com = ScriptedHandle::new(CEPPacket::Ack.serialize());
    assert_eq!(com.await_ack(250), Ok(()));
    assert_eq!(com.timeout, ScriptedHandle::UNLIMITED_TIMEOUT);

    let mut com = ScriptedHandle::new(CEPPacket::Nack.serialize());
    assert_eq!(com.await_ack(250), Err(CommunicationError::NotAcknowledged));

    let mut com = ScriptedHandle::new(CEPPacket::Eof.serialize());
    assert_eq!(com.await_ack(250), Err(CommunicationError::PacketInvalidError));

    let mut com = ScriptedHandle::new(CEPPacket::Data(vec![1]).serialize());
    assert_eq!(com.await_ack(250), Err(CommunicationError::PacketInvalidError));
    assert_eq!(com.written_data, CEPPacket::Ack.serialize());
    assert_eq!(com.timeout, ScriptedHandle::UNLIMITED_TIMEOUT);
}

#[test]
fn send_packet_fails_on_an_unexpected_answer() {
    let mut com = ScriptedHandle::new(CEPPacket::Eof.serialize());
    assert_eq!(
        com.send_packet(&CEPPacket::Data(vec![1, 2, 3])),
        Err(CommunicationError::PacketInvalidError)
    );
    assert_eq!(com.written_data, CEPPacket::Data(vec![1, 2, 3]).serialize());
}

#[test]
fn receive_packet_passes_parse_errors_on() {
    let mut com = ScriptedHandle::new(vec![0x00]);
    assert_eq!(
        com.receive_packet(),
        Err(CommunicationError::CepParsing(CEPParseError::InvalidHeader(0)))
    );
    assert!(com.written_data.is_empty());

    let mut com = ScriptedHandle::new(vec![DATA_HEADER, 0xff, 0xff, 1, 2, 3]);
    assert_eq!(
        com.receive_packet(),
        Err(CommunicationError::CepParsing(CEPParseError::InvalidLength(0xffff)))
    );
    // nothing behind the length was taken
    assert_eq!(com.data_to_read, vec![1, 2, 3]);
}

#[test]
fn a_stream_that_ends_is_an_io_error() {
    let mut com = ScriptedHandle::new(vec![DATA_HEADER, 4]);
    assert_eq!(
        com.receive_packet(),
        Err(CommunicationError::Io(IoErrorKind::UnexpectedEof))
    );
}

#[test]
fn errors_of_the_stream_are_classified() {
    assert_eq!(CommunicationError::from(IoErrorKind::TimedOut), CommunicationError::TimedOut);
    assert_eq!(
        CommunicationError::from(IoErrorKind::InvalidData),
        CommunicationError::PacketInvalidError
    );
    assert_eq!(
        CommunicationError::from(IoErrorKind::Other),
        CommunicationError::Io(IoErrorKind::Other)
    );
    assert_eq!(
        CommunicationError::from(CEPParseError::Io(IoErrorKind::TimedOut)),
        CommunicationError::TimedOut
    );
    assert_eq!(
        CommunicationError::from(CEPParseError::InvalidCRC),
        CommunicationError::CepParsing(CEPParseError::InvalidCRC)
    );
}

#[test]
fn receive_multi_packet_answers_garbage_with_nack() {
    let mut com = ScriptedHandle::default();
    com.data_to_read.append(&mut CEPPacket::Data(vec![1, 2]).serialize());
    com.data_to_read.append(&mut CEPPacket::Ack.serialize());
    com.data_to_read.append(&mut CEPPacket::Data(vec![3]).serialize());
    com.data_to_read.append(&mut CEPPacket::Eof.serialize());

    assert_eq!(com.receive_multi_packet().unwrap(), vec![1, 2, 3]);
    assert_eq!(com.written_data, vec![0xD7, 0x27, 0xD7, 0xD7]);
}

#[test]
fn receive_multi_packet_stops_when_the_stream_ends() {
    let mut com = ScriptedHandle::default();
    com.data_to_read.append(&mut CEPPacket::Data(vec![1, 2]).serialize());

    assert_eq!(
        com.receive_multi_packet(),
        Err(CommunicationError::Io(IoErrorKind::UnexpectedEof))
    );
}
