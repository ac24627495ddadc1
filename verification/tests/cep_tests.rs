use sts1_edu_scheduler::checksum::crc32_mpeg2_bitwise;
use sts1_edu_scheduler::communication::CEPPacket;
use sts1_edu_scheduler::communication::CEPPacketHeader;
use sts1_edu_scheduler::communication::CEPParseError;
use sts1_edu_scheduler::communication::IoErrorKind;

fn packet_is_parsed_and_serialized_correctly(vec: Vec<u8>, packet: CEPPacket) {
    assert_eq!(&packet.clone().serialize(), &vec);
    assert_eq!(CEPPacket::try_from(vec).unwrap(), packet);
}

#[test]
fn ack_is_parsed_and_serialized_correctly() {
    packet_is_parsed_and_serialized_correctly(vec![0xD7], CEPPacket::Ack);
}

#[test]
fn nack_is_parsed_and_serialized_correctly() {
    packet_is_parsed_and_serialized_correctly(vec![0x27], CEPPacket::Nack);
}

#[test]
fn eof_is_parsed_and_serialized_correctly() {
    packet_is_parsed_and_serialized_correctly(vec![0x59], CEPPacket::Eof);
}

#[test]
fn empty_data_packet_is_parsed_and_serialized_correctly() {
    packet_is_parsed_and_serialized_correctly(
        vec![0x8B, 0, 0, 0xff, 0xff, 0xff, 0xff],
        CEPPacket::Data(vec![]),
    );
}

#[test]
fn filled_data_packet_is_parsed_and_serialized_correctly() {
    packet_is_parsed_and_serialized_correctly(
        vec![0x8B, 4, 0, 0x0a, 0x0b, 0x05, 0x73, 0x52, 0x27, 0x92, 0xf4],
        CEPPacket::Data(vec![0x0a, 0x0b, 0x05, 0x73]),
    );
}

#[test]
fn invalid_crc_is_rejected() {
    assert!(matches!(
        CEPPacket::try_from(vec![0x8B, 4, 0, 0x0a, 0x0b, 0x05, 0x74, 0x52, 0x27, 0x92, 0xf4]),
        Err(CEPParseError::InvalidCRC)
    ));
}

#[test]
fn invalid_length_is_rejected() {
    assert!(matches!(
        CEPPacket::try_from(vec![0x8B, 0xff, 0xff]),
        Err(CEPParseError::InvalidLength(0xffff))
    ));
}

#[test]
fn invalid_header_is_rejected() {
    assert!(matches!(CEPPacket::try_from(vec![0x00]), Err(CEPParseError::InvalidHeader(0x00))));
}

#[test]
fn length_just_above_the_maximum_is_rejected() {
    // 11 * 1024 + 1 = 0x2C01
    let mut bytes = vec![0x8B, 0x01, 0x2C];
    bytes.extend(vec![0u8; 11 * 1024 + 1 + 4]);
    assert_eq!(CEPPacket::try_from(bytes), Err(CEPParseError::InvalidLength(0x2C01)));
}

#[test]
fn payload_of_the_maximum_length_round_trips() {
    let payload: Vec<u8> = (0..11 * 1024).map(|i| (i % 251) as u8).collect();
    let packet = CEPPacket::Data(payload.clone());
    let bytes = packet.serialize();
    assert_eq!(bytes.len(), 7 + 11 * 1024);
    assert_eq!(bytes[0], 0x8B);
    assert_eq!(&bytes[1..3], &[0x00, 0x2C]);
    assert_eq!(CEPPacket::try_from(bytes), Ok(packet));
}

#[test]
fn every_flipped_payload_bit_is_rejected() {
    let payload = vec![0x0a, 0x0b, 0x05, 0x73];
    let good = CEPPacket::Data(payload.clone()).serialize();
    for byte in 0..payload.len() {
        for bit in 0..8 {
            let mut bad = good.clone();
            bad[3 + byte] ^= 1 << bit;
            assert_eq!(CEPPacket::try_from(bad), Err(CEPParseError::InvalidCRC));
        }
    }
}

#[test]
fn short_input_is_an_unexpected_end() {
    assert_eq!(
        CEPPacket::try_from(vec![]),
        Err(CEPParseError::Io(IoErrorKind::UnexpectedEof))
    );
    assert_eq!(
        CEPPacket::try_from(vec![0x8B, 4]),
        Err(CEPParseError::Io(IoErrorKind::UnexpectedEof))
    );
    assert_eq!(
        CEPPacket::try_from(vec![0x8B, 4, 0, 1, 2, 3, 4, 0, 0, 0]),
        Err(CEPParseError::Io(IoErrorKind::UnexpectedEof))
    );
}

#[test]
fn bytes_behind_a_frame_are_ignored() {
    assert_eq!(CEPPacket::try_from(vec![0xD7, 0x00, 0x01]), Ok(CEPPacket::Ack));
}

#[test]
fn checksum_is_crc32_mpeg2() {
    // the check value of the catalogue: CRC-32/MPEG-2 of "123456789"
    let packet = CEPPacket::Data(b"123456789".to_vec());
    assert_eq!(packet.checksum(), 0x0376_E6E7);
    assert_eq!(CEPPacket::Data(vec![]).checksum(), 0xFFFF_FFFF);
    assert_eq!(CEPPacket::Ack.checksum(), 0);
    assert!(CEPPacket::crc_is_valid(b"123456789", 0x0376_E6E7));
    assert!(!CEPPacket::crc_is_valid(b"123456789", 0x0376_E6E8));
    assert!(CEPPacket::check(&b"123456789".to_vec(), 0x0376_E6E7));
}

#[test]
fn headers_have_their_bytes() {
    assert_eq!(CEPPacket::Ack.header(), 0xD7);
    assert_eq!(CEPPacket::Nack.header(), 0x27);
    assert_eq!(CEPPacket::Eof.header(), 0x59);
    assert_eq!(CEPPacket::Data(vec![1]).header(), 0x8B);
    assert_eq!(CEPPacketHeader::from_repr(0xD7), Some(CEPPacketHeader::Ack));
    assert_eq!(CEPPacketHeader::from_repr(0x27), Some(CEPPacketHeader::Nack));
    assert_eq!(CEPPacketHeader::from_repr(0x59), Some(CEPPacketHeader::Eof));
    assert_eq!(CEPPacketHeader::from_repr(0x8B), Some(CEPPacketHeader::Data));
    assert_eq!(CEPPacketHeader::from_repr(0xB4), None);
    assert_eq!(CEPPacketHeader::Data.repr(), 0x8B);
}

#[test]
fn table_driven_checksum_follows_the_definition() {
    assert_eq!(crc32_mpeg2_bitwise(b"123456789"), 0x0376_E6E7);
    assert_eq!(crc32_mpeg2_bitwise(&[]), 0xFFFF_FFFF);
    let mut data: Vec<u8> = vec![];
    let mut seed: u32 = 0x2545_F491;
    for length in 0..300 {
        seed = seed.wrapping_mul(1_664_525).wrapping_add(1_013_904_223);
        data.push((seed >> 24) as u8);
        assert_eq!(
            CEPPacket::Data(data.clone()).checksum(),
            crc32_mpeg2_bitwise(&data),
            "at length {}",
            length + 1
        );
    }
    for byte in 0..=255u8 {
        assert_eq!(CEPPacket::Data(vec![byte]).checksum(), crc32_mpeg2_bitwise(&[byte]));
    }
}
