use attohttpc::chunked_reader::{parse_chunk_size, ChunkedReader};
use attohttpc::error::{ErrorKind, InvalidResponseKind, IoErrorKind};
use attohttpc::length_reader::LengthReader;
use attohttpc::reader::ByteReader;

fn stream(b: &[u8]) -> ByteReader {
    ByteReader::new(b.to_vec())
}

fn read_to_string(reader: &mut ChunkedReader) -> Result<String, ErrorKind> {
    let mut out = Vec::new();
    reader.read_to_end(&mut out)?;
    Ok(String::from_utf8(out).unwrap())
}

#[test]
fn chunked_reader_test_read_works() {
    let msg = b"4\r\nwiki\r\n5\r\npedia\r\nE\r\n in\r\n\r\nchunks.\r\n0\r\n\r\n";
    let mut reader = ChunkedReader::new(stream(&msg[..]));
    let s = read_to_string(&mut reader).unwrap();
    assert_eq!(s, "wikipedia in\r\n\r\nchunks.");
}

#[test]
fn test_read_empty() {
    let msg = b"0\r\n\r\n";
    let mut reader = ChunkedReader::new(stream(&msg[..]));
    let s = read_to_string(&mut reader).unwrap();
    assert_eq!(s, "");
}

#[test]
fn test_read_invalid_empty() {
    let msg = b"";
    let mut reader = ChunkedReader::new(stream(&msg[..]));
    assert!(read_to_string(&mut reader).is_err());
}

#[test]
fn test_read_invalid_chunk() {
    let msg = b"4\r\nwik";
    let mut reader = ChunkedReader::new(stream(&msg[..]));
    assert_eq!(read_to_string(&mut reader).err().unwrap(), ErrorKind::Io(IoErrorKind::UnexpectedEof));
}

#[test]
fn test_read_invalid_no_terminating_chunk() {
    let msg = b"4\r\nwiki";
    let mut reader = ChunkedReader::new(stream(&msg[..]));
    assert_eq!(read_to_string(&mut reader).err().unwrap(), ErrorKind::Io(IoErrorKind::UnexpectedEof));
}

#[test]
fn test_read_invalid_bad_terminating_chunk() {
    let msg = b"4\r\nwiki\r\n0\r\n";
    let mut reader = ChunkedReader::new(stream(&msg[..]));
    assert_eq!(read_to_string(&mut reader).err().unwrap(), ErrorKind::Io(IoErrorKind::UnexpectedEof));
}

#[test]
fn chunked_reader_small_reads() {
    let msg = b"4\r\nwiki\r\n5\r\npedia\r\n0\r\n\r\n";
    let mut reader = ChunkedReader::new(stream(&msg[..]));
    let mut buf = [0u8; 3];
    let mut out = Vec::new();
    loop {
        let n = reader.read(&mut buf).unwrap();
        if n == 0 {
            break;
        }
        out.extend_from_slice(&buf[..n]);
    }
    assert_eq!(out, b"wikipedia");
}

#[test]
fn chunked_reader_bad_size_line() {
    let msg = b"zz\r\nwiki\r\n0\r\n\r\n";
    let mut reader = ChunkedReader::new(stream(&msg[..]));
    assert_eq!(
        read_to_string(&mut reader).err().unwrap(),
        ErrorKind::InvalidResponse(InvalidResponseKind::ChunkSize)
    );
}

#[test]
fn chunked_reader_missing_chunk_end() {
    let msg = b"4\r\nwikiXX0\r\n\r\n";
    let mut reader = ChunkedReader::new(stream(&msg[..]));
    assert_eq!(
        read_to_string(&mut reader).err().unwrap(),
        ErrorKind::InvalidResponse(InvalidResponseKind::Chunk)
    );
}

#[test]
fn parse_chunk_size_cases() {
    assert_eq!(parse_chunk_size(b"E"), Ok(14));
    assert_eq!(parse_chunk_size(b"1a"), Ok(26));
    assert_eq!(parse_chunk_size(b" ff ; name=value"), Ok(255));
    assert_eq!(parse_chunk_size(b"0"), Ok(0));
    assert!(parse_chunk_size(b"").is_err());
    assert!(parse_chunk_size(b"g").is_err());
}

#[test]
fn length_reader_test_read_works() {
    let mut reader = LengthReader::new(stream(b"hello"), 5);
    let mut buf = [0u8; 1024];

    let n = reader.read(&mut buf);
    assert_eq!(n, 5);
    assert_eq!(&buf[..n], b"hello");

    // test eof
    let n = reader.read(&mut buf);
    assert_eq!(n, 0);
}

#[test]
fn test_reads_no_more() {
    let mut reader = LengthReader::new(stream(b"hello world"), 5);
    let mut buf = [0u8; 1024];

    let n = reader.read(&mut buf);
    assert_eq!(n, 5);
    assert_eq!(&buf[..n], b"hello");

    // test eof
    let n = reader.read(&mut buf);
    assert_eq!(n, 0);
}

#[test]
fn test_read_tiny_buf() {
    let mut reader = LengthReader::new(stream(b"hello"), 5);
    let mut buf = [0u8; 2];

    let n = reader.read(&mut buf);
    assert_eq!(n, 2);
    assert_eq!(&buf[..n], b"he");

    let n = reader.read(&mut buf);
    assert_eq!(n, 2);
    assert_eq!(&buf[..n], b"ll");

    let n = reader.read(&mut buf);
    assert_eq!(n, 1);
    assert_eq!(&buf[..n], b"o");

    // test eof
    let n = reader.read(&mut buf);
    assert_eq!(n, 0);
}

#[test]
fn length_reader_read_to_end_stops_at_length() {
    let mut reader = LengthReader::new(stream(b"hello world"), 7);
    let mut out = b">".to_vec();
    assert_eq!(reader.read_to_end(&mut out), 7);
    assert_eq!(out, b">hello w");
}

fn read_in_pieces(reader: &mut ChunkedReader) -> Result<Vec<u8>, ErrorKind> {
    let mut out = Vec::new();
    let mut buf = [0u8; 3];
    loop {
        let n = reader.read(&mut buf)?;
        if n == 0 {
            return Ok(out);
        }
        out.extend_from_slice(&buf[..n]);
    }
}

#[test]
fn chunked_read_in_pieces() {
    let mut reader = ChunkedReader::new(stream(b"4\r\nwiki\r\n5\r\npedia\r\n0\r\n\r\n"));
    assert_eq!(read_in_pieces(&mut reader), Ok(b"wikipedia".to_vec()));
    let mut reader = ChunkedReader::new(stream(b""));
    assert!(read_in_pieces(&mut reader).is_err());
    for msg in [&b"4\r\nwik"[..], &b"4\r\nwiki"[..], &b"4\r\nwiki\r\n0\r\n"[..]] {
        let mut reader = ChunkedReader::new(stream(msg));
        assert_eq!(read_in_pieces(&mut reader), Err(ErrorKind::Io(IoErrorKind::UnexpectedEof)));
    }
}

#[test]
fn chunked_bad_chunk_ending_ends_the_body() {
    let mut reader = ChunkedReader::new(stream(b"4\r\nwikiXY0\r\n\r\n"));
    assert_eq!(reader.fill_buf().err(), Some(ErrorKind::InvalidResponse(InvalidResponseKind::Chunk)));
    assert_eq!(reader.fill_buf().unwrap(), b"");
    let mut buf = [0u8; 4];
    assert_eq!(reader.read(&mut buf), Ok(0));
}

#[test]
fn chunked_fill_buf_hands_out_at_most_the_buffer_length() {
    let mut msg = b"11170\r\n".to_vec();
    msg.extend(std::iter::repeat(b'a').take(70000));
    msg.extend_from_slice(b"\r\n0\r\n\r\n");
    let mut reader = ChunkedReader::new(stream(&msg));
    let first = reader.fill_buf().unwrap().len();
    assert_eq!(first, 65536);
    reader.consume(first);
    let second = reader.fill_buf().unwrap().len();
    assert_eq!(second, 70000 - 65536);
    reader.consume(second);
    assert_eq!(reader.fill_buf().unwrap(), b"");
    assert_eq!(reader.fill_buf().unwrap(), b"");
}

#[test]
fn length_reader_of_zero_length_reads_nothing() {
    let mut reader = LengthReader::new(stream(b"hello"), 0);
    let mut buf = [7u8; 4];
    assert_eq!(reader.read(&mut buf), 0);
    assert_eq!(reader.read(&mut buf), 0);
    assert_eq!(buf, [7u8; 4]);
}
