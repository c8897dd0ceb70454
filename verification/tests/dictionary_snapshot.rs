use std::io::Write;

use prompt_library::dictionary_snapshot::{bundled_snapshot, read_snapshot, SnapshotText};
use prompt_library::errors::DatabaseError;

fn gzip(text: &[u8]) -> Vec<u8> {
    let mut encoder = flate2::write::GzEncoder::new(Vec::new(), flate2::Compression::default());
    encoder.write_all(text).unwrap();
    encoder.finish().unwrap()
}

fn snapshot_error(result: Result<SnapshotText, DatabaseError>) -> String {
    match result {
        Err(DatabaseError::InvalidBundledArtistDictionary(message)) => message,
        other => panic!("expected a snapshot error, got {other:?}"),
    }
}

fn strings(values: &[&str]) -> Vec<String> {
    values.iter().map(|value| value.to_string()).collect()
}

#[test]
fn snapshot_lines_split_like_a_line_reader() {
    let read = read_snapshot(&b"{\"h\":1}\r\n\r\n{\"a\":1}\n\n{\"b\":2}\r".to_vec(), None).unwrap();
    assert_eq!(read.header, "{\"h\":1}");
    assert_eq!(read.entries, strings(&["{\"a\":1}", "{\"b\":2}\r"]));
    assert_eq!(read.failure, None);
    let read = read_snapshot(&b"header\n".to_vec(), None).unwrap();
    assert_eq!(read.header, "header");
    assert!(read.entries.is_empty());
    assert_eq!(read_snapshot(&b"\nx".to_vec(), None).unwrap().header, "");
}

#[test]
fn snapshot_without_lines_or_with_a_bad_header_is_refused() {
    assert_eq!(snapshot_error(read_snapshot(&vec![], None)), "缺少快照头");
    assert_eq!(snapshot_error(read_snapshot(&vec![], Some("broken".to_string()))), "broken");
    assert_eq!(
        snapshot_error(read_snapshot(&vec![0xff, b'\n', b'a'], None)),
        "stream did not contain valid UTF-8"
    );
}

#[test]
fn later_failures_come_after_the_lines_read_before_them() {
    let read = read_snapshot(&vec![b'h', b'\n', b'a', b'\n', 0xff, b'\n', b'b'], None).unwrap();
    assert_eq!(read.header, "h");
    assert_eq!(read.entries, strings(&["a"]));
    assert_eq!(read.failure.as_deref(), Some("stream did not contain valid UTF-8"));
    let read = read_snapshot(&b"h\na\nparti".to_vec(), Some("unexpected end of file".to_string())).unwrap();
    assert_eq!(read.entries, strings(&["a"]));
    assert_eq!(read.failure.as_deref(), Some("unexpected end of file"));
}

#[test]
fn bundled_snapshot_is_decompressed_then_read() {
    let data = gzip("{\"nameCount\":2}\n名字一\n\n名字二\n".as_bytes());
    let read = bundled_snapshot(&data).unwrap();
    assert_eq!(read.header, "{\"nameCount\":2}");
    assert_eq!(read.entries, strings(&["名字一", "名字二"]));
    assert_eq!(read.failure, None);
    assert!(matches!(bundled_snapshot(&b"not gzip".to_vec()), Err(DatabaseError::InvalidBundledArtistDictionary(_))));
    assert_eq!(snapshot_error(bundled_snapshot(&gzip(b""))), "缺少快照头");
    let mut truncated = gzip("header\nentry one\nentry two\n".repeat(50).as_bytes());
    truncated.truncate(truncated.len() - 8);
    let read = bundled_snapshot(&truncated).unwrap();
    assert_eq!(read.header, "header");
    assert!(read.failure.is_some());
}
