use attohttpc::chunked::{BufReader, BUFFER_SIZE};
use attohttpc::reader::ByteReader;
use attohttpc::error::{ErrorKind, IoErrorKind};

fn stream(b: &[u8]) -> ByteReader {
    ByteReader::new(b.to_vec())
}

#[test]
fn test_fill_grow() {
    let mut reader = BufReader::new(stream(b"hello"));
    assert_eq!(reader.next().unwrap(), b'h');
    assert_eq!(reader.capacity(), BUFFER_SIZE);
    assert_eq!(reader.buff().len(), 5);
    assert_eq!(reader.start(), 0);
    assert_eq!(reader.pos(), 1);
}

#[test]
fn test_fill_copy() {
    let mut buff = Vec::with_capacity(BUFFER_SIZE);
    buff.push(b'h');

    assert_eq!(buff.len(), 1);
    assert_eq!(buff.capacity(), BUFFER_SIZE);

    let mut reader = BufReader::from_parts(stream(b"ello"), buff, BUFFER_SIZE, 1, 1);

    assert_eq!(reader.next().unwrap(), b'e');
    assert_eq!(reader.buff().len(), 4);
    assert_eq!(reader.buff(), b"ello");
    assert_eq!(reader.capacity(), BUFFER_SIZE);
}

#[test]
fn test_fill_grow_copy() {
    let mut buff = Vec::with_capacity(1);
    buff.push(b'h');

    assert_eq!(buff.len(), 1);
    assert_eq!(buff.capacity(), 1);

    let mut reader = BufReader::from_parts(stream(b"ello"), buff, 1, 1, 1);

    assert_eq!(reader.next().unwrap(), b'e'); // capacity is 1, start is 1 so no growth is needed
    assert_eq!(reader.next().unwrap(), b'l'); // capacity is 1, start is 0 and there's 1 item in buff, growth needed
    assert_eq!(reader.buff().len(), 4);
    assert_eq!(reader.buff(), b"ello");
    assert_eq!(reader.capacity(), BUFFER_SIZE + 1);
}

#[test]
fn test_consume() {
    let mut reader = BufReader::new(stream(b"hello"));
    assert_eq!(reader.next().unwrap(), b'h');
    assert_eq!(reader.next().unwrap(), b'e');
    assert_eq!(reader.start(), 0);
    assert_eq!(reader.pos(), 2);
    reader.consume();
    assert_eq!(reader.start(), 2);
    assert_eq!(reader.pos(), 2);
}

#[test]
fn chunked_test_read_line_lf() {
    let mut reader = BufReader::new(stream(b"hello\n"));
    assert_eq!(reader.read_line().unwrap(), b"hello");
    assert_eq!(reader.pos(), 6);
}

#[test]
fn chunked_test_read_line_crlf() {
    let mut reader = BufReader::new(stream(b"hello\r\n"));
    assert_eq!(reader.read_line().unwrap(), b"hello");
    assert_eq!(reader.pos(), 7);
}

#[test]
fn test_read_line_eof() {
    let mut reader = BufReader::new(stream(b"hello"));
    assert!(reader.read_line().is_err());
}

#[test]
fn buf_reader_read_line_keeps_consumed_lines_out() {
    let mut reader = BufReader::new(stream(b"ab\ncd\r\n"));
    assert_eq!(reader.read_line().unwrap(), b"ab");
    reader.consume();
    assert_eq!(reader.read_line().unwrap(), b"cd");
    assert_eq!(reader.start(), 3);
    assert_eq!(reader.pos(), 7);
}

#[test]
fn buf_reader_line_ends_at_the_first_crlf() {
    let mut reader = BufReader::new(stream(b"a\r\r\n"));
    assert_eq!(reader.read_line().unwrap(), b"a\r");
    assert_eq!(reader.pos(), 4);
    let mut reader = BufReader::new(stream(b"a\rb\nc"));
    assert_eq!(reader.read_line().unwrap(), b"a\rb");
}

#[test]
fn buf_reader_line_without_consume_starts_at_the_start_mark() {
    let mut reader = BufReader::new(stream(b"a\nb\n"));
    assert_eq!(reader.read_line().unwrap(), b"a");
    assert_eq!(reader.read_line().unwrap(), b"a\nb");
}

#[test]
fn buf_reader_next_reads_the_stream_in_order() {
    let mut reader = BufReader::new(stream(b"abc"));
    assert_eq!(reader.next(), Ok(b'a'));
    reader.consume();
    assert_eq!(reader.next(), Ok(b'b'));
    assert_eq!(reader.next(), Ok(b'c'));
    reader.consume();
    assert_eq!(reader.next(), Err(ErrorKind::Io(IoErrorKind::UnexpectedEof)));
}
