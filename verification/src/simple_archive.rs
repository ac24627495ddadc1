//! A sequential archive: entries stand one behind the other, each with its
//! path, the length of its data and its data, which may be compressed.

use crate::bytes::from_le32;
use crate::bytes::le32;
use crate::bytes::lemma_le_bytes_round_trip;
use crate::bytes::push_le32;
use crate::bytes::u32_from_le;
use crate::communication::IoErrorKind;
use vstd::prelude::*;
use vstd::slice::slice_subrange;
use vstd::string::StringSliceAdditionalSpecFns;
use vstd::slice::slice_to_vec;
use vstd::utf8::decode_utf8;
use vstd::utf8::valid_utf8;

verus! {

/// How the data of an entry is stored.
#[derive(Debug, Clone, Copy, PartialEq, Eq, Structural)]
pub enum Compression {
    /// As it is.
    Stored,
    /// As a gzip stream, made by the Zopfli algorithm.
    Zopfli,
}

/// An entry as it comes out of an archive.
#[derive(Debug, Clone, PartialEq, Eq)]
pub struct Entry {
    pub path: String,
    pub data: Vec<u8>,
}

/// The gzip stream that the Zopfli algorithm makes of `data` with its
/// default options, or `None` where compression fails.
pub uninterp spec fn gzip_stream(data: Seq<u8>) -> Option<Seq<u8>>;

/// What a gzip decoder reads out of `data` up to its end, or `None` where
/// `data` is no sound gzip stream.
pub uninterp spec fn gunzip_stream(data: Seq<u8>) -> Option<Seq<u8>>;

/// The string that a lossy conversion makes of `bytes`: where `bytes` are
/// no valid UTF-8, each invalid sequence gives way to U+FFFD.
pub uninterp spec fn utf8_lossy(bytes: Seq<u8>) -> Seq<char>;

/// Optional bytes as a mathematical value.
pub open spec fn optional_bytes(bytes: Option<Vec<u8>>) -> Option<Seq<u8>> {
    match bytes {
        Some(bytes) => Some(bytes@),
        None => None,
    }
}

/// Compresses `data` into a gzip stream with `zopfli::compress`, under the
/// default options of that crate. The contract names the stream: it is a
/// function of `data` alone, as the encoder has no state, no clock and no
/// randomness of its own. `None` stands for the error of the encoder.
#[verifier::external_body]
fn gzip(data: &[u8]) -> (stream: Option<Vec<u8>>)
    ensures
        optional_bytes(stream) == gzip_stream(data@),
{
    let mut buffer = Vec::new();
    match zopfli::compress(zopfli::Options::default(), zopfli::Format::Gzip, data, &mut buffer) {
        Ok(()) => Some(buffer),
        Err(_) => None,
    }
}

/// Reads `data` through `flate2::read::GzDecoder` up to the end. The
/// contract names what comes out, a function of `data` alone. `None` stands
/// for the error of the decoder.
#[verifier::external_body]
fn gunzip(data: &[u8]) -> (plain: Option<Vec<u8>>)
    ensures
        optional_bytes(plain) == gunzip_stream(data@),
{
    let mut decoder = flate2::read::GzDecoder::new(data);
    let mut result = Vec::new();
    match std::io::Read::read_to_end(&mut decoder, &mut result) {
        Ok(_) => Some(result),
        Err(_) => None,
    }
}

/// Converts `bytes` to a string with `String::from_utf8_lossy`. The
/// contract names the string, and says that valid UTF-8 is decoded as it
/// stands.
#[verifier::external_body]
fn string_from_utf8_lossy(bytes: &[u8]) -> (s: String)
    ensures
        s@ == utf8_lossy(bytes@),
        valid_utf8(bytes@) ==> s@ == decode_utf8(bytes@),
{
    String::from_utf8_lossy(bytes).to_string()
}

/// The data of an entry as the archive holds it, or `None` where
/// compression fails.
pub open spec fn stored_form(data: Seq<u8>, compression: Compression) -> Option<Seq<u8>> {
    match compression {
        Compression::Stored => Some(data),
        Compression::Zopfli => gzip_stream(data),
    }
}

/// The beginning of an entry: the length of the path in one byte, and the
/// path.
pub open spec fn entry_head(path: Seq<u8>) -> Seq<u8> {
    seq![path.len() as u8] + path
}

/// The rest of an entry: the length of the stored data in four bytes,
/// little-endian, and the stored data.
pub open spec fn entry_body(stored: Seq<u8>) -> Seq<u8> {
    le32(stored.len() as u32) + stored
}

/// The data of an entry as a reader hands it out: stored data that begins
/// like a gzip stream and is a sound one is decompressed; all other data is
/// handed out as it is stored.
pub open spec fn unpacked(stored: Seq<u8>) -> Seq<u8> {
    if stored.len() >= 2 && stored[0] == 0x1f && stored[1] == 0x8b {
        match gunzip_stream(stored) {
            Some(plain) => plain,
            None => stored,
        }
    } else {
        stored
    }
}

/// Builds an archive in memory.
pub struct Writer {
    target: Vec<u8>,
}

impl View for Writer {
    type V = Seq<u8>;

    closed spec fn view(&self) -> Seq<u8> {
        self.target@
    }
}

impl Writer {
    /// A writer that appends to `target`.
    pub fn new(target: Vec<u8>) -> (writer: Self)
        ensures
            writer@ == target@,
    {
        Writer { target }
    }

    /// The archive as built so far.
    pub fn into_inner(self) -> (target: Vec<u8>)
        ensures
            target@ == self@,
    {
        self.target
    }

    /// Appends an entry with the path `path` and the data `data`.
    ///
    /// A path of more than 255 bytes is refused, and nothing is written.
    /// Else the path is written. Data whose stored form is longer than
    /// `u32::MAX` bytes is refused then, and so is data that cannot be
    /// compressed. Each refusal is an error of the kind `Other`.
    pub fn append_data(&mut self, path: &str, data: &[u8], compression: Compression) -> (r: Result<
        (),
        IoErrorKind,
    >)
        ensures
            path.spec_bytes().len() > 255 ==> r == Err::<(), IoErrorKind>(IoErrorKind::Other)
                && final(self)@ == old(self)@,
            path.spec_bytes().len() <= 255 ==> (match stored_form(data@, compression) {
                Some(stored) => if stored.len() <= u32::MAX {
                    r == Ok::<(), IoErrorKind>(()) && final(self)@ == old(self)@ + entry_head(
                        path.spec_bytes(),
                    ) + entry_body(stored)
                } else {
                    r == Err::<(), IoErrorKind>(IoErrorKind::Other) && final(self)@ == old(self)@
                        + entry_head(path.spec_bytes())
                },
                None => r == Err::<(), IoErrorKind>(IoErrorKind::Other) && final(self)@ == old(self)@ + entry_head(path.spec_bytes()),
            }),
    {
        let path_bytes = path.as_bytes();
        if path_bytes.len() > 255 {
            return Err(IoErrorKind::Other);
        }
        let path_len: u8 = path_bytes.len() as u8;
        self.target.push(path_len);
        self.target.extend_from_slice(path_bytes);
        assert(self.target@ =~= old(self)@ + entry_head(path.spec_bytes()));
        match compression {
            Compression::Stored => self.write_data(data),
            Compression::Zopfli => {
                match gzip(data) {
                    Some(buffer) => self.write_data(buffer.as_slice()),
                    None => Err(IoErrorKind::Other),
                }
            },
        }
    }

    /// Appends the length of `data` and `data`, unless `data` is longer
    /// than `u32::MAX` bytes.
    fn write_data(&mut self, data: &[u8]) -> (r: Result<(), IoErrorKind>)
        ensures
            data@.len() <= u32::MAX ==> r == Ok::<(), IoErrorKind>(()) && final(self)@ == old(self)@ + entry_body(data@),
            data@.len() > u32::MAX ==> r == Err::<(), IoErrorKind>(IoErrorKind::Other) && final(self)@ == old(self)@,
    {
        if data.len() > u32::MAX as usize {
            return Err(IoErrorKind::Other);
        }
        let data_len: u32 = data.len() as u32;
        push_le32(&mut self.target, data_len);
        self.target.extend_from_slice(data);
        assert(self.target@ =~= old(self)@ + entry_body(data@));
        Ok(())
    }
}

/// What a reader finds at the front of `bytes`: the path and the stored
/// data of the first entry and the number of bytes that the entry takes, or
/// `None` where `bytes` end before the entry does.
pub open spec fn first_entry(bytes: Seq<u8>) -> Option<(Seq<u8>, Seq<u8>, nat)> {
    if bytes.len() < 1 {
        None
    } else {
        let path_len = bytes[0] as int;
        if bytes.len() < 1 + path_len + 4 {
            None
        } else {
            let data_len = from_le32(
                bytes[1 + path_len],
                bytes[2 + path_len],
                bytes[3 + path_len],
                bytes[4 + path_len],
            ) as int;
            if bytes.len() < 5 + path_len + data_len {
                None
            } else {
                Some(
                    (
                        bytes.subrange(1, 1 + path_len),
                        bytes.subrange(5 + path_len, 5 + path_len + data_len),
                        (5 + path_len + data_len) as nat,
                    ),
                )
            }
        }
    }
}

/// An entry that a writer appended is the first entry that a reader finds
/// in what was appended, whatever follows it.
pub proof fn lemma_reader_finds_entry(path: Seq<u8>, stored: Seq<u8>, behind: Seq<u8>)
    requires
        path.len() <= 255,
        stored.len() <= u32::MAX,
    ensures
        first_entry(entry_head(path) + entry_body(stored) + behind) == Some(
            (path, stored, (5 + path.len() + stored.len()) as nat),
        ),
{
    let bytes = entry_head(path) + entry_body(stored) + behind;
    let n = path.len() as int;
    lemma_le_bytes_round_trip(0, stored.len() as u32);
    let field = le32(stored.len() as u32);
    assert(bytes[0] == path.len() as u8);
    assert(bytes[1 + n] == field[0]);
    assert(bytes[2 + n] == field[1]);
    assert(bytes[3 + n] == field[2]);
    assert(bytes[4 + n] == field[3]);
    assert(bytes.subrange(1, 1 + n) =~= path);
    assert(bytes.subrange(5 + n, 5 + n + stored.len()) =~= stored);
}

/// Reads an archive from memory, entry by entry.
pub struct Reader {
    source: Vec<u8>,
    position: usize,
}

impl Reader {
    /// The bytes of the archive.
    pub closed spec fn source(&self) -> Seq<u8> {
        self.source@
    }

    /// The bytes that are still to be read.
    pub closed spec fn remaining(&self) -> Seq<u8> {
        self.source@.skip(self.position as int)
    }

    /// The position is within the archive.
    pub closed spec fn well_formed(&self) -> bool {
        self.position <= self.source@.len()
    }

    /// A reader at the beginning of `reader`.
    pub fn new(reader: Vec<u8>) -> (r: Self)
        ensures
            r.well_formed(),
            r.source() == reader@,
            r.remaining() == reader@,
    {
        let r = Reader { source: reader, position: 0 };
        assert(r.source@.skip(0) =~= r.source@);
        r
    }

    /// The bytes of the archive.
    pub fn into_inner(self) -> (source: Vec<u8>)
        ensures
            source@ == self.source(),
    {
        self.source
    }

    /// Reads the next entry. Where the archive ends before the entry does,
    /// the call fails with `UnexpectedEof`, and nothing is left to read.
    pub fn next_entry(&mut self) -> (r: Result<Entry, IoErrorKind>)
        requires
            old(self).well_formed(),
        ensures
            final(self).well_formed(),
            final(self).source() == old(self).source(),
            match first_entry(old(self).remaining()) {
                Some((path, stored, taken)) => r is Ok && r->Ok_0.path@ == utf8_lossy(path) && (
                valid_utf8(path) ==> r->Ok_0.path@ == decode_utf8(path)) && r->Ok_0.data@
                    == unpacked(stored) && final(self).remaining() == old(self).remaining().skip(
                    taken as int,
                ),
                None => r == Err::<Entry, IoErrorKind>(IoErrorKind::UnexpectedEof) && final(self).remaining() == Seq::<u8>::empty(),
            },
    {
        let ghost rest = self.remaining();
        let total = self.source.len();
        let left = total - self.position;
        if left < 1 {
            self.position = total;
            assert(self.source@.skip(total as int) =~= Seq::<u8>::empty());
            return Err(IoErrorKind::UnexpectedEof);
        }
        let start = self.position;
        let path_len = self.source[start] as usize;
        assert(rest[0] == self.source@[start as int]);
        if left < 1 + path_len + 4 {
            self.position = total;
            assert(self.source@.skip(total as int) =~= Seq::<u8>::empty());
            return Err(IoErrorKind::UnexpectedEof);
        }
        let field = start + 1 + path_len;
        let data_len = u32_from_le(
            self.source[field],
            self.source[field + 1],
            self.source[field + 2],
            self.source[field + 3],
        ) as usize;
        assert(rest[1 + path_len] == self.source@[field as int]);
        assert(rest[2 + path_len] == self.source@[field + 1]);
        assert(rest[3 + path_len] == self.source@[field + 2]);
        assert(rest[4 + path_len] == self.source@[field + 3]);
        if left - (5 + path_len) < data_len {
            self.position = total;
            assert(self.source@.skip(total as int) =~= Seq::<u8>::empty());
            return Err(IoErrorKind::UnexpectedEof);
        }
        let path = slice_subrange(self.source.as_slice(), start + 1, field);
        let data = slice_subrange(self.source.as_slice(), field + 4, field + 4 + data_len);
        assert(path@ =~= rest.subrange(1, 1 + path_len));
        assert(data@ =~= rest.subrange(5 + path_len, 5 + path_len + data_len));
        let entry = Entry {
            path: string_from_utf8_lossy(path),
            data: Self::try_to_enflate(slice_to_vec(data)),
        };
        self.position = field + 4 + data_len;
        assert(self.source@.skip(self.position as int) =~= rest.skip(5 + path_len + data_len));
        Ok(entry)
    }

    /// Decompresses `data` where it is a sound gzip stream, and hands it
    /// back as it is where it is not.
    fn try_to_enflate(data: Vec<u8>) -> (plain: Vec<u8>)
        ensures
            plain@ == unpacked(data@),
    {
        if data.len() < 2 || data[0] != 0x1f || data[1] != 0x8b {
            return data;
        }
        match gunzip(data.as_slice()) {
            Some(result) => result,
            None => data,
        }
    }

    /// The next entry, or `None` where the archive has come to its end.
    pub fn next(&mut self) -> (r: Option<Result<Entry, IoErrorKind>>)
        requires
            old(self).well_formed(),
        ensures
            final(self).well_formed(),
            final(self).source() == old(self).source(),
            match first_entry(old(self).remaining()) {
                Some((path, stored, taken)) => r is Some && r->Some_0 is Ok && r->Some_0->Ok_0.path@
                    == utf8_lossy(path) && (valid_utf8(path) ==> r->Some_0->Ok_0.path@
                    == decode_utf8(path)) && r->Some_0->Ok_0.data@ == unpacked(stored) && final(self).remaining() == old(self).remaining().skip(taken as int),
                None => r is None && final(self).remaining() == Seq::<u8>::empty(),
            },
    {
        match self.next_entry() {
            Err(IoErrorKind::UnexpectedEof) => None,
            r => Some(r),
        }
    }
}

} // verus!
