use attohttpc::buffers::{read_line, read_line_ending, read_line_strict, replace_byte, trim_byte, trim_byte_left, trim_byte_right, trim_crlf};
use attohttpc::error::{ErrorKind, IoErrorKind};
use attohttpc::reader::ByteReader;

fn stream(b: &[u8]) -> ByteReader {
    ByteReader::new(b.to_vec())
}

#[test]
fn buffers_test_read_line_lf() {
    let mut reader = stream(b"hello\nworld\n");
    let mut line = Vec::new();

    assert_eq!(read_line(&mut reader, &mut line, u64::max_value()).ok(), Some(6));
    assert_eq!(line, b"hello");

    assert_eq!(read_line(&mut reader, &mut line, u64::max_value()).ok(), Some(6));
    assert_eq!(line, b"world");
}

#[test]
fn buffers_test_read_line_crlf() {
    let mut reader = stream(b"hello\r\nworld\r\n");
    let mut line = Vec::new();

    assert_eq!(read_line(&mut reader, &mut line, u64::max_value()).ok(), Some(7));
    assert_eq!(line, b"hello");

    assert_eq!(read_line(&mut reader, &mut line, u64::max_value()).ok(), Some(7));
    assert_eq!(line, b"world");
}

#[test]
fn test_read_line_empty_crlf() {
    let mut reader = stream(b"\r\n");
    let mut line = Vec::new();

    assert_eq!(read_line(&mut reader, &mut line, u64::max_value()).ok(), Some(2));
    assert_eq!(line, b"");
}

#[test]
fn test_read_line_empty_lf() {
    let mut reader = stream(b"\n");
    let mut line = Vec::new();

    assert_eq!(read_line(&mut reader, &mut line, u64::max_value()).ok(), Some(1));
    assert_eq!(line, b"");
}

#[test]
fn test_read_line_beyond_limit() {
    let mut reader = stream(b"1234567890\n");
    let mut line = Vec::new();

    assert_eq!(
        read_line(&mut reader, &mut line, 5).unwrap_err(),
        ErrorKind::Io(IoErrorKind::UnexpectedEof)
    );
    assert_eq!(line, b"12345");
}

#[test]
fn test_read_line_strict() {
    let mut reader = stream(b"foo\r\nbar\r\n");
    let mut line = Vec::new();

    assert_eq!(read_line_strict(&mut reader, &mut line, u64::max_value()).ok(), Some(3 + 2));
    assert_eq!(line, b"foo");
}

#[test]
fn test_read_line_strict_empty_crlf() {
    let mut reader = stream(b"\r\n");
    let mut line = Vec::new();

    assert_eq!(read_line_strict(&mut reader, &mut line, u64::max_value()).ok(), Some(2));
    assert_eq!(line, b"");
}

#[test]
fn test_read_line_strict_missing_crlf() {
    let mut reader = stream(b"foo\n");
    let mut line = Vec::new();

    assert_eq!(
        read_line_strict(&mut reader, &mut line, u64::max_value()).unwrap_err(),
        ErrorKind::Io(IoErrorKind::UnexpectedEof)
    );
    assert_eq!(line, b"foo\n");
}

#[test]
fn test_read_line_strict_inner_lf() {
    let mut reader = stream(b"123\n456\n789\n0\r\nABC");
    let mut line = Vec::new();

    assert_eq!(read_line_strict(&mut reader, &mut line, u64::max_value()).ok(), Some(10 + 3 + 2));
    assert_eq!(line, b"123\n456\n789\n0");
}

#[test]
fn test_read_line_strict_inner_cr() {
    let mut reader = stream(b"123\r456\r789\r0\r\nXYZ");
    let mut line = Vec::new();

    assert_eq!(read_line_strict(&mut reader, &mut line, u64::max_value()).ok(), Some(10 + 3 + 2));
    assert_eq!(line, b"123\r456\r789\r0");
}

#[test]
fn read_line_strict_stops_at_the_limit() {
    let mut reader = stream(b"abcdef\r\n");
    let mut line = Vec::new();
    assert_eq!(
        read_line_strict(&mut reader, &mut line, 4).unwrap_err(),
        ErrorKind::Io(IoErrorKind::UnexpectedEof)
    );
    assert_eq!(line, b"abcd");
    assert_eq!(reader.remaining(), 4);
}

#[test]
fn read_line_ending_cases() {
    let mut reader = stream(b"\r\n\nx");
    assert_eq!(read_line_ending(&mut reader), Ok(true));
    assert_eq!(read_line_ending(&mut reader), Ok(true));
    assert_eq!(read_line_ending(&mut reader), Ok(false));
    let mut empty = stream(b"");
    assert_eq!(read_line_ending(&mut empty), Err(ErrorKind::Io(IoErrorKind::UnexpectedEof)));
}

#[test]
fn buffers_test_trim_byte() {
    assert_eq!(trim_byte(b' ', b"  hello  "), b"hello");
    assert_eq!(trim_byte(b' ', b"hello"), b"hello");
    assert_eq!(trim_byte(b' ', b""), b"");
}

#[test]
fn buffers_test_trim_byte_left() {
    assert_eq!(trim_byte_left(b' ', b"  hello"), b"hello");
    assert_eq!(trim_byte_left(b' ', b"hello"), b"hello");
    assert_eq!(trim_byte_left(b' ', b""), b"");
}

#[test]
fn buffers_test_trim_byte_right() {
    assert_eq!(trim_byte_right(b' ', b"hello  "), b"hello");
    assert_eq!(trim_byte_right(b' ', b"hello"), b"hello");
    assert_eq!(trim_byte_right(b' ', b""), b"");
}

#[test]
fn parse_test_trim_byte() {
    assert_eq!(trim_byte(b' ', b"  hello  "), b"hello");
    assert_eq!(trim_byte(b' ', b"hello"), b"hello");
    assert_eq!(trim_byte(b' ', b""), b"");
}

#[test]
fn parse_test_trim_byte_left() {
    assert_eq!(trim_byte_left(b' ', b"  hello"), b"hello");
    assert_eq!(trim_byte_left(b' ', b"hello"), b"hello");
    assert_eq!(trim_byte_left(b' ', b""), b"");
}

#[test]
fn parse_test_trim_byte_right() {
    assert_eq!(trim_byte_right(b' ', b"hello  "), b"hello");
    assert_eq!(trim_byte_right(b' ', b"hello"), b"hello");
    assert_eq!(trim_byte_right(b' ', b""), b"");
}

#[test]
fn response_test_trim_byte() {
    assert_eq!(trim_byte(b' ', b"  hello  "), b"hello");
    assert_eq!(trim_byte(b' ', b"hello"), b"hello");
    assert_eq!(trim_byte(b' ', b""), b"");
}

#[test]
fn response_test_trim_byte_left() {
    assert_eq!(trim_byte_left(b' ', b"  hello"), b"hello");
    assert_eq!(trim_byte_left(b' ', b"hello"), b"hello");
    assert_eq!(trim_byte_left(b' ', b""), b"");
}

#[test]
fn response_test_trim_byte_right() {
    assert_eq!(trim_byte_right(b' ', b"hello  "), b"hello");
    assert_eq!(trim_byte_right(b' ', b"hello"), b"hello");
    assert_eq!(trim_byte_right(b' ', b""), b"");
}

#[test]
fn parse_test_trim_crlf() {
    assert_eq!(trim_crlf(b"hello\r\n"), b"hello");
    assert_eq!(trim_crlf(b"hello"), b"hello");
    assert_eq!(trim_crlf(b"hello\n"), b"hello");
}

#[test]
fn response_test_trim_crlf() {
    assert_eq!(trim_crlf(b"hello\r\n"), b"hello");
    assert_eq!(trim_crlf(b"hello"), b"hello");
    assert_eq!(trim_crlf(b"hello\n"), b"hello");
}

#[test]
fn trim_is_idempotent_on_an_example() {
    let once = trim_byte(b'x', b"xxabxcxx");
    assert_eq!(once, b"abxc");
    assert_eq!(trim_byte(b'x', once), once);
}

#[test]
fn replace_byte_replaces_every_occurrence() {
    let mut buf = b"a-b-c".to_vec();
    replace_byte(b'-', b'+', &mut buf);
    assert_eq!(buf, b"a+b+c");
    let mut none = b"abc".to_vec();
    replace_byte(b'-', b'+', &mut none);
    assert_eq!(none, b"abc");
}
