use sts1_edu_scheduler::communication::IoErrorKind;
use sts1_edu_scheduler::simple_archive::Compression;
use sts1_edu_scheduler::simple_archive::Entry;
use sts1_edu_scheduler::simple_archive::Reader;
use sts1_edu_scheduler::simple_archive::Writer;
use std::io::Read;

fn dummy() -> Writer {
    Writer::new(vec![])
}

#[test]
fn data_is_encoded_correctly() {
    let mut res = dummy();

    res.append_data("abc", &[1, 2, 3, 4], Compression::Stored).unwrap();

    assert_eq!(res.into_inner(), vec![3, b'a', b'b', b'c', 4, 0, 0, 0, 1, 2, 3, 4]);
}

#[test]
fn path_longer_than_255_is_rejected() {
    let mut res = dummy();

    let err = res.append_data(&"a".repeat(256), &[], Compression::Stored).unwrap_err();

    assert_eq!(err, IoErrorKind::Other);
    assert!(res.into_inner().is_empty());
}

#[test]
fn path_of_255_bytes_is_accepted() {
    let mut res = dummy();

    res.append_data(&"a".repeat(255), &[9], Compression::Stored).unwrap();

    let bytes = res.into_inner();
    assert_eq!(bytes.len(), 1 + 255 + 4 + 1);
    assert_eq!(bytes[0], 255);
}

#[test]
fn data_is_compressed() {
    let mut res = dummy();

    res.append_data("abc", &[0; 512], Compression::Zopfli).unwrap();

    let res = res.into_inner();
    assert!(res.len() < 100);
    assert_eq!(u32::from_le_bytes(res[4..8].try_into().unwrap()) as usize, res.len() - 8);
    assert_eq!(&res[8..10], &[0x1f, 0x8b]);

    let mut decoder = flate2::read::GzDecoder::new(&res[8..]);
    let mut decompressed = vec![];
    decoder.read_to_end(&mut decompressed).unwrap();

    assert_eq!(decompressed, vec![0; 512]);
}

#[test]
fn can_decompress() {
    let mut data = dummy();

    data.append_data("abc", &[1, 2, 3, 4, 5], Compression::Zopfli).unwrap();
    data.append_data("def", &[1, 2], Compression::Stored).unwrap();

    let data = data.into_inner();
    let mut decoder = Reader::new(data);

    let first = decoder.next().unwrap().unwrap();
    assert_eq!(first.path, "abc");
    assert_eq!(first.data, vec![1, 2, 3, 4, 5]);
    let second = decoder.next().unwrap().unwrap();
    assert_eq!(second.path, "def");
    assert_eq!(second.data, vec![1, 2]);
    assert!(decoder.next().is_none());
}

#[test]
fn truncated_archive_ends_early() {
    let mut reader = Reader::new(vec![3, b'a', b'b', b'c', 4, 0, 0, 0, 1, 2, 3]);
    assert_eq!(reader.next_entry(), Err(IoErrorKind::UnexpectedEof));
    assert!(reader.next().is_none());
}

#[test]
fn stored_data_that_only_looks_like_gzip_is_kept() {
    let stored = vec![0x1f, 0x8b, 1, 2, 3];
    let mut writer = dummy();
    writer.append_data("x", &stored, Compression::Stored).unwrap();

    let mut reader = Reader::new(writer.into_inner());
    assert_eq!(
        reader.next_entry(),
        Ok(Entry { path: "x".to_string(), data: stored })
    );
}

#[test]
fn path_that_is_no_utf8_is_read_with_replacements() {
    let mut reader = Reader::new(vec![2, 0xff, b'a', 1, 0, 0, 0, 7]);
    let entry = reader.next_entry().unwrap();
    assert_eq!(entry.path, "\u{fffd}a");
    assert_eq!(entry.data, vec![7]);
}

#[test]
fn reader_gives_back_its_bytes() {
    let bytes = vec![1, b'p', 0, 0, 0, 0];
    let mut reader = Reader::new(bytes.clone());
    assert_eq!(reader.next_entry(), Ok(Entry { path: "p".to_string(), data: vec![] }));
    assert_eq!(reader.into_inner(), bytes);
}
