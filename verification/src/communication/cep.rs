//! The four frames of the wire protocol, their encoding and their parser.

use crate::bytes::from_le16;
use crate::bytes::from_le32;
use crate::bytes::le16;
use crate::bytes::le32;
use crate::bytes::lemma_le_bytes_round_trip;
use crate::bytes::push_le16;
use crate::bytes::push_le32;
use crate::bytes::u16_from_le;
use crate::bytes::u32_from_le;
use crate::checksum::crc32_mpeg2;
use crate::checksum::crc32_mpeg2_checksum;
use crate::communication::continues;
use crate::communication::appended;
use crate::communication::RecordedHandle;
use crate::communication::IoErrorKind;
use crate::communication::LinkEvent;
use vstd::prelude::*;
use vstd::slice::slice_subrange;
use vstd::slice::slice_to_vec;

verus! {

/// Header byte of an acknowledgement.
pub const ACK_HEADER: u8 = 0xD7;

/// Header byte of a negative acknowledgement.
pub const NACK_HEADER: u8 = 0x27;

/// Header byte of the frame that ends a multi-packet transfer.
pub const EOF_HEADER: u8 = 0x59;

/// Header byte of a data frame.
pub const DATA_HEADER: u8 = 0x8B;

/// Largest payload of a data frame, in bytes.
pub const MAXIMUM_DATA_LENGTH: usize = 11 * 1024;

/// A frame on the wire.
#[derive(Debug, Clone, PartialEq, Eq)]
pub enum CEPPacket {
    Ack,
    Nack,
    Eof,
    Data(Vec<u8>),
}

/// The kind of a frame, which its first byte announces.
#[derive(Debug, Clone, Copy, PartialEq, Eq, Structural)]
pub enum CEPPacketHeader {
    Ack,
    Nack,
    Eof,
    Data,
}

/// Why bytes were not accepted as a frame.
#[derive(Debug, Clone, Copy, PartialEq, Eq, Structural)]
pub enum CEPParseError {
    /// The length field exceeds `MAXIMUM_DATA_LENGTH`.
    InvalidLength(u16),
    /// The first byte is no header.
    InvalidHeader(u8),
    /// The stored checksum is not the checksum of the payload.
    InvalidCRC,
    /// The stream failed or ended early.
    Io(IoErrorKind),
}

/// A frame as a mathematical value.
pub enum Frame {
    Ack,
    Nack,
    Eof,
    Data(Seq<u8>),
}

impl View for CEPPacket {
    type V = Frame;

    open spec fn view(&self) -> Frame {
        match self {
            CEPPacket::Ack => Frame::Ack,
            CEPPacket::Nack => Frame::Nack,
            CEPPacket::Eof => Frame::Eof,
            CEPPacket::Data(payload) => Frame::Data(payload@),
        }
    }
}

impl CEPPacketHeader {
    /// The byte that announces this kind of frame.
    pub open spec fn byte(self) -> u8 {
        match self {
            CEPPacketHeader::Ack => ACK_HEADER,
            CEPPacketHeader::Nack => NACK_HEADER,
            CEPPacketHeader::Eof => EOF_HEADER,
            CEPPacketHeader::Data => DATA_HEADER,
        }
    }

    /// The kind that `value` announces, if any.
    pub open spec fn of(value: int) -> Option<CEPPacketHeader> {
        if value == ACK_HEADER {
            Some(CEPPacketHeader::Ack)
        } else if value == NACK_HEADER {
            Some(CEPPacketHeader::Nack)
        } else if value == EOF_HEADER {
            Some(CEPPacketHeader::Eof)
        } else if value == DATA_HEADER {
            Some(CEPPacketHeader::Data)
        } else {
            None
        }
    }

    /// The kind whose header byte is `discriminant`.
    pub fn from_repr(discriminant: usize) -> (header: Option<CEPPacketHeader>)
        ensures
            header == Self::of(discriminant as int),
    {
        if discriminant == 0xD7 {
            Some(CEPPacketHeader::Ack)
        } else if discriminant == 0x27 {
            Some(CEPPacketHeader::Nack)
        } else if discriminant == 0x59 {
            Some(CEPPacketHeader::Eof)
        } else if discriminant == 0x8B {
            Some(CEPPacketHeader::Data)
        } else {
            None
        }
    }

    /// The header byte of this kind.
    pub fn repr(self) -> (byte: u8)
        ensures
            byte == self.byte(),
    {
        match self {
            CEPPacketHeader::Ack => ACK_HEADER,
            CEPPacketHeader::Nack => NACK_HEADER,
            CEPPacketHeader::Eof => EOF_HEADER,
            CEPPacketHeader::Data => DATA_HEADER,
        }
    }
}

impl Frame {
    /// The kind of this frame.
    pub open spec fn kind(self) -> CEPPacketHeader {
        match self {
            Frame::Ack => CEPPacketHeader::Ack,
            Frame::Nack => CEPPacketHeader::Nack,
            Frame::Eof => CEPPacketHeader::Eof,
            Frame::Data(_) => CEPPacketHeader::Data,
        }
    }

    /// The payload of a data frame; empty for the other kinds.
    pub open spec fn payload(self) -> Seq<u8> {
        match self {
            Frame::Data(payload) => payload,
            _ => Seq::empty(),
        }
    }

    /// The length of the payload fits the two bytes of the length field.
    pub open spec fn encodable(self) -> bool {
        self.payload().len() <= u16::MAX
    }

    /// The payload is no longer than a receiver accepts.
    pub open spec fn well_formed(self) -> bool {
        self.payload().len() <= MAXIMUM_DATA_LENGTH
    }

    /// The bytes of this frame on the wire: the header and, for a data
    /// frame, the length, the payload and the checksum of the payload.
    pub open spec fn wire(self) -> Seq<u8> {
        match self {
            Frame::Data(payload) => seq![DATA_HEADER] + le16(payload.len() as u16) + payload + le32(
                crc32_mpeg2(payload),
            ),
            _ => seq![self.kind().byte()],
        }
    }
}

/// What a parser makes of the front of a byte string.
pub enum Parsed {
    /// The bytes end before the frame does.
    Incomplete,
    /// The bytes begin with this frame.
    Packet(Frame),
    /// The bytes begin with something that is no frame.
    Rejected(CEPParseError),
}

/// The result of parsing, and the number of bytes that were read for it.
pub struct Parse {
    pub outcome: Parsed,
    pub consumed: nat,
}

/// Parses one frame from the front of `bytes`: the header byte, then for a
/// data frame the length, the payload and the checksum, in that order.
/// Reading stops at the first field that settles the outcome.
pub open spec fn parse(bytes: Seq<u8>) -> Parse {
    if bytes.len() < 1 {
        Parse { outcome: Parsed::Incomplete, consumed: 0 }
    } else {
        match CEPPacketHeader::of(bytes[0] as int) {
            None => Parse {
                outcome: Parsed::Rejected(CEPParseError::InvalidHeader(bytes[0])),
                consumed: 1,
            },
            Some(CEPPacketHeader::Ack) => Parse { outcome: Parsed::Packet(Frame::Ack), consumed: 1 },
            Some(CEPPacketHeader::Nack) => Parse {
                outcome: Parsed::Packet(Frame::Nack),
                consumed: 1,
            },
            Some(CEPPacketHeader::Eof) => Parse { outcome: Parsed::Packet(Frame::Eof), consumed: 1 },
            Some(CEPPacketHeader::Data) => {
                if bytes.len() < 3 {
                    Parse { outcome: Parsed::Incomplete, consumed: 1 }
                } else {
                    let length = from_le16(bytes[1], bytes[2]);
                    if length > MAXIMUM_DATA_LENGTH {
                        Parse {
                            outcome: Parsed::Rejected(CEPParseError::InvalidLength(length)),
                            consumed: 3,
                        }
                    } else if bytes.len() < 3 + length {
                        Parse { outcome: Parsed::Incomplete, consumed: 3 }
                    } else if bytes.len() < 7 + length {
                        Parse { outcome: Parsed::Incomplete, consumed: (3 + length) as nat }
                    } else {
                        let payload = bytes.subrange(3, 3 + length);
                        let stored = from_le32(
                            bytes[3 + length],
                            bytes[4 + length],
                            bytes[5 + length],
                            bytes[6 + length],
                        );
                        if stored == crc32_mpeg2(payload) {
                            Parse {
                                outcome: Parsed::Packet(Frame::Data(payload)),
                                consumed: (7 + length) as nat,
                            }
                        } else {
                            Parse {
                                outcome: Parsed::Rejected(CEPParseError::InvalidCRC),
                                consumed: (7 + length) as nat,
                            }
                        }
                    }
                }
            },
        }
    }
}

/// Parsing looks at the frame at the front only: what follows it changes
/// nothing, once the outcome is settled.
pub proof fn lemma_parse_ignores_rest(bytes: Seq<u8>, rest: Seq<u8>)
    requires
        !(parse(bytes).outcome is Incomplete),
    ensures
        parse(bytes + rest) == parse(bytes),
{
    let all = bytes + rest;
    assert(all[0] == bytes[0]);
    if CEPPacketHeader::of(bytes[0] as int) == Some(CEPPacketHeader::Data) {
        assert(all[1] == bytes[1]);
        assert(all[2] == bytes[2]);
        let length = from_le16(bytes[1], bytes[2]);
        if length <= MAXIMUM_DATA_LENGTH {
            assert(all.subrange(3, 3 + length) =~= bytes.subrange(3, 3 + length));
            assert(all[3 + length] == bytes[3 + length]);
            assert(all[4 + length] == bytes[4 + length]);
            assert(all[5 + length] == bytes[5 + length]);
            assert(all[6 + length] == bytes[6 + length]);
        }
    }
}

/// Parsing the encoding of a frame gives the frame back, and reads all of
/// the encoding: `parse(serialize(F)) = F` for every frame whose payload
/// is at most `MAXIMUM_DATA_LENGTH` bytes long.
pub proof fn lemma_parse_inverts_serialize(frame: Frame)
    requires
        frame.well_formed(),
    ensures
        parse(frame.wire()) == (Parse {
            outcome: Parsed::Packet(frame),
            consumed: frame.wire().len(),
        }),
{
    match frame {
        Frame::Data(payload) => {
            let bytes = frame.wire();
            let length = payload.len() as u16;
            lemma_le_bytes_round_trip(length, crc32_mpeg2(payload));
            assert(bytes.len() == 7 + payload.len());
            assert(bytes[1] == le16(length)[0]);
            assert(bytes[2] == le16(length)[1]);
            assert(bytes.subrange(3, 3 + length) =~= payload);
            let sum = le32(crc32_mpeg2(payload));
            assert(bytes[3 + length] == sum[0]);
            assert(bytes[4 + length] == sum[1]);
            assert(bytes[5 + length] == sum[2]);
            assert(bytes[6 + length] == sum[3]);
        },
        _ => {},
    }
}

/// The encoding of a data frame begins with `0x8B`; its next two bytes are
/// the length of the payload, little-endian; the payload follows; its last
/// four bytes are the CRC-32/MPEG-2 of the payload, little-endian.
pub proof fn lemma_data_frame_layout(payload: Seq<u8>)
    requires
        payload.len() <= MAXIMUM_DATA_LENGTH,
    ensures
        ({
            let bytes = Frame::Data(payload).wire();
            &&& bytes.len() == payload.len() + 7
            &&& bytes[0] == 0x8B
            &&& bytes.subrange(1, 3) == le16(payload.len() as u16)
            &&& from_le16(bytes[1], bytes[2]) == payload.len()
            &&& bytes.subrange(3, 3 + payload.len() as int) == payload
            &&& bytes.subrange(bytes.len() - 4, bytes.len() as int) == le32(crc32_mpeg2(payload))
        }),
{
    let bytes = Frame::Data(payload).wire();
    lemma_le_bytes_round_trip(payload.len() as u16, crc32_mpeg2(payload));
    assert(bytes.subrange(1, 3) =~= le16(payload.len() as u16));
    assert(bytes.subrange(3, 3 + payload.len() as int) =~= payload);
    assert(bytes.subrange(bytes.len() - 4, bytes.len() as int) =~= le32(crc32_mpeg2(payload)));
}

/// A data frame whose payload was changed in one byte, while its length and
/// the checksum of the unchanged payload stayed, is rejected for its
/// checksum.
pub proof fn lemma_changed_byte_is_rejected(payload: Seq<u8>, at: int, byte: u8)
    requires
        payload.len() <= MAXIMUM_DATA_LENGTH,
        0 <= at < payload.len(),
        byte != payload[at],
    ensures
        parse(
            seq![DATA_HEADER] + le16(payload.len() as u16) + payload.update(at, byte) + le32(
                crc32_mpeg2(payload),
            ),
        ) == (Parse {
            outcome: Parsed::Rejected(CEPParseError::InvalidCRC),
            consumed: payload.len() + 7,
        }),
{
    let changed = payload.update(at, byte);
    let bytes = seq![DATA_HEADER] + le16(payload.len() as u16) + changed + le32(
        crc32_mpeg2(payload),
    );
    let length = payload.len() as u16;
    lemma_le_bytes_round_trip(length, crc32_mpeg2(payload));
    assert(bytes[1] == le16(length)[0]);
    assert(bytes[2] == le16(length)[1]);
    assert(bytes.subrange(3, 3 + length) =~= changed);
    let sum = le32(crc32_mpeg2(payload));
    assert(bytes[3 + length] == sum[0]);
    assert(bytes[4 + length] == sum[1]);
    assert(bytes[5 + length] == sum[2]);
    assert(bytes[6 + length] == sum[3]);
    crate::checksum::lemma_crc32_detects_one_changed_byte(payload, changed, at);
}

/// Flipping any single bit of the payload of a data frame, with the
/// checksum of the unchanged payload behind it, is rejected as `InvalidCRC`.
pub proof fn lemma_flipped_bit_is_rejected(payload: Seq<u8>, at: int, bit: u8)
    requires
        payload.len() <= MAXIMUM_DATA_LENGTH,
        0 <= at < payload.len(),
        bit < 8,
    ensures
        parse(
            seq![DATA_HEADER] + le16(payload.len() as u16) + payload.update(
                at,
                payload[at] ^ (1u8 << bit),
            ) + le32(crc32_mpeg2(payload)),
        ).outcome == Parsed::Rejected(CEPParseError::InvalidCRC),
{
    let sent = payload[at];
    let flipped = sent ^ (1u8 << bit);
    assert(flipped != sent) by (bit_vector)
        requires
            bit < 8,
            flipped == sent ^ (1u8 << bit),
    ;
    lemma_changed_byte_is_rejected(payload, at, flipped);
}

/// A length field strictly greater than `MAXIMUM_DATA_LENGTH` is rejected
/// as `InvalidLength` once the header and the two bytes of the length are
/// read: whatever follows them is not looked at.
pub proof fn lemma_long_length_is_rejected(bytes: Seq<u8>)
    requires
        bytes.len() >= 3,
        bytes[0] == DATA_HEADER,
        from_le16(bytes[1], bytes[2]) > MAXIMUM_DATA_LENGTH,
    ensures
        parse(bytes) == (Parse {
            outcome: Parsed::Rejected(CEPParseError::InvalidLength(from_le16(bytes[1], bytes[2]))),
            consumed: 3,
        }),
        parse(bytes.take(3)) == parse(bytes),
{
    let front = bytes.take(3);
    assert(front[0] == bytes[0] && front[1] == bytes[1] && front[2] == bytes[2]);
}

/// What the first of `events` says of a read of `len` bytes: the bytes, the
/// failure, or nothing where the event is no such read.
pub open spec fn first_read(events: Seq<LinkEvent>, len: nat) -> Option<Result<Seq<u8>, IoErrorKind>> {
    if events.len() == 0 {
        None
    } else {
        match events[0] {
            LinkEvent::Read(bytes) => if bytes.len() == len {
                Some(Ok(bytes))
            } else {
                None
            },
            LinkEvent::ReadFailed(kind) => Some(Err(kind)),
            _ => None,
        }
    }
}

/// Replays the reading of one frame against `events`. The result is what
/// the reader returns and the number of events that it caused, or `None`
/// where `events` does not begin with the reads of one frame.
///
/// A reader asks for the header byte; for a data frame then for the two
/// bytes of the length, for the payload and for the four bytes of the
/// checksum. It stops at the first failed read, at a byte that is no header
/// and at a length above `MAXIMUM_DATA_LENGTH`.
pub open spec fn replay_frame(events: Seq<LinkEvent>) -> Option<(Result<Frame, CEPParseError>, nat)> {
    match first_read(events, 1) {
        None => None,
        Some(Err(kind)) => Some((Err(CEPParseError::Io(kind)), 1)),
        Some(Ok(header)) => match CEPPacketHeader::of(header[0] as int) {
            None => Some((Err(CEPParseError::InvalidHeader(header[0])), 1)),
            Some(CEPPacketHeader::Ack) => Some((Ok(Frame::Ack), 1)),
            Some(CEPPacketHeader::Nack) => Some((Ok(Frame::Nack), 1)),
            Some(CEPPacketHeader::Eof) => Some((Ok(Frame::Eof), 1)),
            Some(CEPPacketHeader::Data) => match first_read(events.skip(1), 2) {
                None => None,
                Some(Err(kind)) => Some((Err(CEPParseError::Io(kind)), 2)),
                Some(Ok(field)) => {
                    let length = from_le16(field[0], field[1]);
                    if length > MAXIMUM_DATA_LENGTH {
                        Some((Err(CEPParseError::InvalidLength(length)), 2))
                    } else {
                        match first_read(events.skip(2), length as nat) {
                            None => None,
                            Some(Err(kind)) => Some((Err(CEPParseError::Io(kind)), 3)),
                            Some(Ok(payload)) => match first_read(events.skip(3), 4) {
                                None => None,
                                Some(Err(kind)) => Some((Err(CEPParseError::Io(kind)), 4)),
                                Some(Ok(sum)) => if from_le32(sum[0], sum[1], sum[2], sum[3])
                                    == crc32_mpeg2(payload) {
                                    Some((Ok(Frame::Data(payload)), 4))
                                } else {
                                    Some((Err(CEPParseError::InvalidCRC), 4))
                                },
                            },
                        }
                    }
                },
            },
        },
    }
}

/// The result of a parser, with the packet as a mathematical value.
pub open spec fn parsed_view(r: Result<CEPPacket, CEPParseError>) -> Result<Frame, CEPParseError> {
    match r {
        Ok(packet) => Ok(packet@),
        Err(e) => Err(e),
    }
}

/// What a parser returns for the outcome `parsed` on bytes that have come to
/// their end.
pub open spec fn parsed_result(parsed: Parsed) -> Result<Frame, CEPParseError> {
    match parsed {
        Parsed::Packet(frame) => Ok(frame),
        Parsed::Rejected(e) => Err(e),
        Parsed::Incomplete => Err(CEPParseError::Io(IoErrorKind::UnexpectedEof)),
    }
}

impl CEPPacket {
    /// Largest payload of a data frame, in bytes.
    pub const MAXIMUM_DATA_LENGTH: usize = MAXIMUM_DATA_LENGTH;

    /// Largest number of bytes that a frame takes on the wire.
    pub const MAXIMUM_PACKET_LENGTH: usize = 7 + MAXIMUM_DATA_LENGTH;

    /// CRC-32/MPEG-2 of the payload of a data frame; 0 for the other kinds.
    pub fn checksum(&self) -> (sum: u32)
        ensures
            sum == (if self@ is Data {
                crc32_mpeg2(self@.payload())
            } else {
                0
            }),
    {
        match self {
            CEPPacket::Data(data) => crc32_mpeg2_checksum(data.as_slice()),
            _ => 0,
        }
    }

    /// The bytes of this frame on the wire.
    pub fn serialize(&self) -> (bytes: Vec<u8>)
        requires
            self@.encodable(),
        ensures
            bytes@ == self@.wire(),
    {
        let header = self.header();
        match self {
            CEPPacket::Data(payload) => {
                let mut v: Vec<u8> = Vec::with_capacity(7 + payload.len());
                let crc32: u32 = crc32_mpeg2_checksum(payload.as_slice());
                let length: u16 = payload.len() as u16;
                v.push(header);
                push_le16(&mut v, length);
                v.extend_from_slice(payload.as_slice());
                push_le32(&mut v, crc32);
                assert(v@ =~= self@.wire());
                v
            },
            _ => {
                let mut v: Vec<u8> = Vec::with_capacity(1);
                v.push(header);
                assert(v@ =~= self@.wire());
                v
            },
        }
    }

    /// Whether `checksum` is the CRC-32/MPEG-2 of `data`.
    pub fn crc_is_valid(data: &[u8], checksum: u32) -> (valid: bool)
        ensures
            valid == (crc32_mpeg2(data@) == checksum),
    {
        crc32_mpeg2_checksum(data) == checksum
    }

    /// Whether `checksum` is the CRC-32/MPEG-2 of `data`.
    pub fn check(data: &Vec<u8>, checksum: u32) -> (valid: bool)
        ensures
            valid == (crc32_mpeg2(data@) == checksum),
    {
        CEPPacket::crc_is_valid(data.as_slice(), checksum)
    }

    /// The header byte of this frame.
    pub fn header(&self) -> (byte: u8)
        ensures
            byte == self@.kind().byte(),
    {
        let header = match self {
            CEPPacket::Ack => CEPPacketHeader::Ack,
            CEPPacket::Nack => CEPPacketHeader::Nack,
            CEPPacket::Eof => CEPPacketHeader::Eof,
            CEPPacket::Data(_) => CEPPacketHeader::Data,
        };
        header.repr()
    }

    /// Reads one frame from `reader`.
    ///
    /// The events that the call adds to the history of `reader` are the reads
    /// of one frame, and the result is what `replay_frame` makes of them.
    pub fn try_from_read<R: RecordedHandle>(reader: &mut R) -> (r: Result<
        CEPPacket,
        CEPParseError,
    >)
        ensures
            continues(old(reader).history(), final(reader).history()),
            replay_frame(appended(old(reader).history(), final(reader).history())) == Some(
                (
                    parsed_view(r),
                    appended(old(reader).history(), final(reader).history()).len(),
                ),
            ),
    {
        let ghost before = reader.history();
        let header_buffer = match reader.read_exact(1) {
            Ok(bytes) => bytes,
            Err(kind) => {
                assert(appended(before, reader.history()) =~= seq![LinkEvent::ReadFailed(kind)]);
                assert(reader.history().take(before.len() as int) =~= before);
                return Err(CEPParseError::Io(kind));
            },
        };
        let ghost e1 = LinkEvent::Read(header_buffer@);
        assert(appended(before, reader.history()) =~= seq![e1]);
        assert(reader.history().take(before.len() as int) =~= before);
        let header = match CEPPacketHeader::from_repr(header_buffer[0] as usize) {
            Some(header) => header,
            None => {
                return Err(CEPParseError::InvalidHeader(header_buffer[0]));
            },
        };
        match header {
            CEPPacketHeader::Ack => Ok(CEPPacket::Ack),
            CEPPacketHeader::Nack => Ok(CEPPacket::Nack),
            CEPPacketHeader::Eof => Ok(CEPPacket::Eof),
            CEPPacketHeader::Data => {
                let length_buffer = match reader.read_exact(2) {
                    Ok(bytes) => bytes,
                    Err(kind) => {
                        assert(appended(before, reader.history()) =~= seq![
                            e1,
                            LinkEvent::ReadFailed(kind),
                        ]);
                        assert(reader.history().take(before.len() as int) =~= before);
                        assert(appended(before, reader.history()).skip(1) =~= seq![
                            LinkEvent::ReadFailed(kind),
                        ]);
                        return Err(CEPParseError::Io(kind));
                    },
                };
                let ghost e2 = LinkEvent::Read(length_buffer@);
                assert(appended(before, reader.history()) =~= seq![e1, e2]);
                assert(appended(before, reader.history()).skip(1) =~= seq![e2]);
                assert(reader.history().take(before.len() as int) =~= before);
                let length = u16_from_le(length_buffer[0], length_buffer[1]);
                if length as usize > MAXIMUM_DATA_LENGTH {
                    return Err(CEPParseError::InvalidLength(length));
                }
                let data_buffer = match reader.read_exact(length as usize) {
                    Ok(bytes) => bytes,
                    Err(kind) => {
                        let ghost e3 = LinkEvent::ReadFailed(kind);
                        assert(appended(before, reader.history()) =~= seq![e1, e2, e3]);
                        assert(appended(before, reader.history()).skip(1) =~= seq![e2, e3]);
                        assert(appended(before, reader.history()).skip(2) =~= seq![e3]);
                        assert(reader.history().take(before.len() as int) =~= before);
                        return Err(CEPParseError::Io(kind));
                    },
                };
                let ghost e3 = LinkEvent::Read(data_buffer@);
                let crc_buffer = match reader.read_exact(4) {
                    Ok(bytes) => bytes,
                    Err(kind) => {
                        let ghost e4 = LinkEvent::ReadFailed(kind);
                        assert(appended(before, reader.history()) =~= seq![e1, e2, e3, e4]);
                        assert(appended(before, reader.history()).skip(1) =~= seq![e2, e3, e4]);
                        assert(appended(before, reader.history()).skip(2) =~= seq![e3, e4]);
                        assert(appended(before, reader.history()).skip(3) =~= seq![e4]);
                        assert(reader.history().take(before.len() as int) =~= before);
                        return Err(CEPParseError::Io(kind));
                    },
                };
                let ghost e4 = LinkEvent::Read(crc_buffer@);
                assert(appended(before, reader.history()) =~= seq![e1, e2, e3, e4]);
                assert(appended(before, reader.history()).skip(1) =~= seq![e2, e3, e4]);
                assert(appended(before, reader.history()).skip(2) =~= seq![e3, e4]);
                assert(appended(before, reader.history()).skip(3) =~= seq![e4]);
                assert(reader.history().take(before.len() as int) =~= before);
                let stored = u32_from_le(crc_buffer[0], crc_buffer[1], crc_buffer[2], crc_buffer[3]);
                if !CEPPacket::crc_is_valid(data_buffer.as_slice(), stored) {
                    return Err(CEPParseError::InvalidCRC);
                }
                Ok(CEPPacket::Data(data_buffer))
            },
        }
    }
}

/// The conversion from bytes is specified by the contract of `try_from`,
/// which speaks of the packet's view.
impl vstd::std_specs::convert::TryFromSpecImpl<Vec<u8>> for CEPPacket {
    open spec fn obeys_try_from_spec() -> bool {
        false
    }

    open spec fn try_from_spec(v: Vec<u8>) -> Result<Self, Self::Error> {
        Err(CEPParseError::Io(IoErrorKind::UnexpectedEof))
    }
}

impl TryFrom<Vec<u8>> for CEPPacket {
    type Error = CEPParseError;

    /// Parses the frame at the front of `value`. Bytes behind the frame are
    /// ignored; bytes that end before the frame does are an early end.
    fn try_from(value: Vec<u8>) -> (r: Result<Self, Self::Error>)
        ensures
            parsed_view(r) == parsed_result(parse(value@).outcome),
    {
        let bytes = value.as_slice();
        if bytes.len() < 1 {
            return Err(CEPParseError::Io(IoErrorKind::UnexpectedEof));
        }
        let header = match CEPPacketHeader::from_repr(bytes[0] as usize) {
            Some(header) => header,
            None => {
                return Err(CEPParseError::InvalidHeader(bytes[0]));
            },
        };
        match header {
            CEPPacketHeader::Ack => Ok(CEPPacket::Ack),
            CEPPacketHeader::Nack => Ok(CEPPacket::Nack),
            CEPPacketHeader::Eof => Ok(CEPPacket::Eof),
            CEPPacketHeader::Data => {
                if bytes.len() < 3 {
                    return Err(CEPParseError::Io(IoErrorKind::UnexpectedEof));
                }
                let length = u16_from_le(bytes[1], bytes[2]);
                if length as usize > MAXIMUM_DATA_LENGTH {
                    return Err(CEPParseError::InvalidLength(length));
                }
                let end: usize = 3 + length as usize;
                if bytes.len() < end + 4 {
                    return Err(CEPParseError::Io(IoErrorKind::UnexpectedEof));
                }
                let payload = slice_subrange(bytes, 3, end);
                let stored = u32_from_le(
                    bytes[end],
                    bytes[end + 1],
                    bytes[end + 2],
                    bytes[end + 3],
                );
                if !CEPPacket::crc_is_valid(payload, stored) {
                    return Err(CEPParseError::InvalidCRC);
                }
                Ok(CEPPacket::Data(slice_to_vec(payload)))
            },
        }
    }
}

} // verus!
