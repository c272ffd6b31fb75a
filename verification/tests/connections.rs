use attohttpc::body::write_chunked;
use attohttpc::buffers::BufReaderWrite;
use attohttpc::chunked_reader::ChunkedReader;
use attohttpc::digits::dec_bytes;
use attohttpc::body_reader::parse_content_length;
use attohttpc::error::{ErrorKind, IoErrorKind};
use attohttpc::happy::RaceErrors;
use attohttpc::reader::ByteReader;
use attohttpc::streams::{connect_target, read_timeout, timer_check_due, tunnel_outcome, tunnel_request};
use attohttpc::urls::Url;

fn parse(s: &str) -> Url {
    Url::parse(s).unwrap()
}

#[test]
fn connect_directly_or_through_proxy() {
    let t = connect_target(&parse("https://example.com/x"), None).unwrap();
    assert_eq!((t.host.as_slice(), t.port, t.tls, t.tunnel), (&b"example.com"[..], 443, true, false));
    let proxy = parse("http://proxy:3128");
    let t = connect_target(&parse("https://example.com/x"), Some(&proxy)).unwrap();
    assert_eq!((t.host.as_slice(), t.port, t.tls, t.tunnel), (&b"proxy"[..], 3128, false, true));
    let t = connect_target(&parse("http://example.com:8080/"), Some(&proxy)).unwrap();
    assert!(!t.tunnel);
    match connect_target(&parse("ftp://example.com/"), None) {
        Err(e) => assert_eq!(e, ErrorKind::InvalidBaseUrl),
        Ok(_) => panic!("ftp accepted"),
    }
    match connect_target(&parse("foo://example.com/"), None) {
        Err(e) => assert_eq!(e, ErrorKind::InvalidUrlPort),
        Ok(_) => panic!("unknown port accepted"),
    }
}

#[test]
fn tunnel_request_bytes() {
    let req = tunnel_request(&parse("https://example.com/"), &parse("http://proxy:3128")).unwrap();
    assert_eq!(
        String::from_utf8(req).unwrap(),
        "CONNECT example.com:443 HTTP/1.1\r\nHost: proxy:3128\r\nConnection: close\r\n\r\n"
    );
}

#[test]
fn tunnel_refusals_keep_ten_kib() {
    assert_eq!(tunnel_outcome(200, b"ignored"), Ok(()));
    let body = vec![b'x'; 20000];
    match tunnel_outcome(400, &body) {
        Err(ErrorKind::ConnectError { status_code, body }) => {
            assert_eq!(status_code, 400);
            assert_eq!(body.len(), 10240);
        }
        other => panic!("unexpected {:?}", other),
    }
    assert_eq!(
        tunnel_outcome(407, b"bad request"),
        Err(ErrorKind::ConnectError { status_code: 407, body: b"bad request".to_vec() })
    );
}

#[test]
fn read_timeout_decisions() {
    assert!(timer_check_due(&Ok(0), 10, true));
    assert!(!timer_check_due(&Ok(0), 0, true));
    assert!(!timer_check_due(&Ok(3), 10, true));
    assert!(!timer_check_due(&Ok(0), 10, false));
    assert_eq!(read_timeout(Ok(0), Some(true)), Err(IoErrorKind::TimedOut));
    assert_eq!(read_timeout(Ok(0), Some(false)), Ok(0));
    assert_eq!(read_timeout(Ok(5), None), Ok(5));
    assert_eq!(read_timeout(Err(IoErrorKind::Other), Some(true)), Err(IoErrorKind::Other));
}

#[test]
fn race_reports_the_first_failure() {
    let mut race = RaceErrors::new();
    assert_eq!(race.outcome(), IoErrorKind::Other);
    race.record(IoErrorKind::TimedOut);
    race.record(IoErrorKind::UnexpectedEof);
    assert_eq!(race.outcome(), IoErrorKind::TimedOut);
}

#[test]
fn buf_reader_write_reads_and_collects() {
    let mut s = BufReaderWrite::new(ByteReader::new(b"abcdef".to_vec()));
    assert_eq!(s.write(b"hi"), 2);
    let mut out = Vec::new();
    assert_eq!(s.read(4, &mut out), 4);
    assert_eq!(out, b"abcd");
    assert_eq!(s.written(), b"hi");
}

#[test]
fn chunked_bodies_read_back() {
    for content in [&b""[..], &b"x"[..], &b"hello chunked world"[..], &vec![7u8; 300][..]] {
        let mut framed = Vec::new();
        write_chunked(content, &mut framed);
        framed.extend_from_slice(b"trailing");
        let mut reader = ChunkedReader::new(ByteReader::new(framed));
        let mut out = Vec::new();
        reader.read_to_end(&mut out).unwrap();
        assert_eq!(out, content);
    }
    let mut framed = Vec::new();
    write_chunked(&vec![1u8; 300], &mut framed);
    assert!(framed.starts_with(b"12C\r\n"));
}

#[test]
fn content_lengths_read_back() {
    for n in [0u64, 7, 1234567890, u64::MAX] {
        assert_eq!(parse_content_length(&dec_bytes(n)), Ok(n));
    }
}
