use std::io::Write;

use attohttpc::body_reader::{have_encoding, is_chunked, is_content_length, parse_content_length};
use attohttpc::charset::{get_charset, Charset};
use attohttpc::error::{ErrorKind, InvalidResponseKind};
use attohttpc::legacy::{read_response, read_response_head};
use attohttpc::method::Method;
use attohttpc::reader::ByteReader;
use attohttpc::response::parse_response_head;
use attohttpc::response_reader::{parse_response, ResponseExt};
use attohttpc::text_reader::TextReader;
use flate2::write::{DeflateEncoder, GzEncoder};
use flate2::Compression;
use http::header::{HeaderMap, HeaderValue, CONTENT_LENGTH, CONTENT_TYPE};

fn stream(b: &[u8]) -> ByteReader {
    ByteReader::new(b.to_vec())
}

#[test]
fn test_is_chunked_false() {
    let mut headers = HeaderMap::new();
    headers.insert("content-encoding", HeaderValue::from_static("gzip"));
    assert!(!is_chunked(&headers));
}

#[test]
fn test_is_chunked_simple() {
    let mut headers = HeaderMap::new();
    headers.insert("transfer-encoding", HeaderValue::from_static("chunked"));
    assert!(is_chunked(&headers));
}

#[test]
fn test_is_chunked_multi() {
    let mut headers = HeaderMap::new();
    headers.insert("transfer-encoding", HeaderValue::from_static("gzip, chunked"));
    assert!(is_chunked(&headers));
}

#[test]
fn test_parse_content_length_ok() {
    assert_eq!(parse_content_length(b"17").ok(), Some(17));
}

#[test]
fn test_parse_content_length_err() {
    assert!(parse_content_length(b"XD").is_err());
}

#[test]
fn test_is_content_length_none() {
    let headers = HeaderMap::new();
    assert_eq!(is_content_length(&headers).ok(), Some(None));
}

#[test]
fn test_is_content_length_one() {
    let mut headers = HeaderMap::new();
    headers.insert("content-length", HeaderValue::from_static("88"));
    assert_eq!(is_content_length(&headers).ok(), Some(Some(88)));
}

#[test]
fn test_is_content_length_many_ok() {
    let mut headers = HeaderMap::new();
    headers.append("content-length", HeaderValue::from_static("88"));
    headers.append("content-length", HeaderValue::from_static("88"));

    assert_eq!(headers.get_all("content-length").iter().count(), 2);
    assert_eq!(is_content_length(&headers).ok(), Some(Some(88)));
}

#[test]
fn test_is_content_length_many_err() {
    let mut headers = HeaderMap::new();
    headers.append("content-length", HeaderValue::from_static("88"));
    headers.append("content-length", HeaderValue::from_static("90"));

    assert_eq!(headers.get_all("content-length").iter().count(), 2);
    assert_eq!(
        is_content_length(&headers).err(),
        Some(ErrorKind::InvalidResponse(InvalidResponseKind::ContentLength))
    );
}

#[test]
fn test_have_encoding_none() {
    let mut headers = HeaderMap::new();
    headers.insert("content-encoding", HeaderValue::from_static("gzip"));
    assert!(!have_encoding(&headers, b"deflate"));
}

#[test]
fn test_have_encoding_content_encoding_simple() {
    let mut headers = HeaderMap::new();
    headers.insert("content-encoding", HeaderValue::from_static("gzip"));
    assert!(have_encoding(&headers, b"gzip"));
}

#[test]
fn test_have_encoding_content_encoding_multi() {
    let mut headers = HeaderMap::new();
    headers.insert("content-encoding", HeaderValue::from_static("identity, deflate"));
    assert!(have_encoding(&headers, b"deflate"));
}

#[test]
fn test_have_encoding_transfer_encoding_simple() {
    let mut headers = HeaderMap::new();
    headers.insert("transfer-encoding", HeaderValue::from_static("deflate"));
    assert!(have_encoding(&headers, b"deflate"));
}

#[test]
fn test_have_encoding_transfer_encoding_multi() {
    let mut headers = HeaderMap::new();
    headers.insert("transfer-encoding", HeaderValue::from_static("gzip, chunked"));
    assert!(have_encoding(&headers, b"gzip"));
}

#[test]
fn have_encoding_ignores_case_and_spaces() {
    let mut headers = HeaderMap::new();
    headers.insert("content-encoding", HeaderValue::from_static(" GZip ,br"));
    assert!(have_encoding(&headers, b"gzip"));
    assert!(!have_encoding(&headers, b"deflate"));
}

fn parse(buf: Vec<u8>, method: Method) -> Result<attohttpc::response_reader::Response, ErrorKind> {
    parse_response(ByteReader::new(buf), method, 100, None)
}

#[test]
fn compressed_reader_test_stream_plain() {
    let payload = b"Hello world!!!!!!!!";

    let mut buf: Vec<u8> = Vec::new();
    buf.extend(format!("HTTP/1.1 200 OK\r\nContent-Length: {}\r\n\r\n", payload.len()).into_bytes());
    buf.extend(payload);

    let response = parse(buf, Method::Get).unwrap();
    assert_eq!(response.text().unwrap(), "Hello world!!!!!!!!");
}

#[test]
fn compressed_reader_test_stream_deflate() {
    let mut payload = Vec::new();
    let mut enc = DeflateEncoder::new(&mut payload, Compression::default());
    enc.write_all(b"Hello world!!!!!!!!").unwrap();
    enc.finish().unwrap();

    let mut buf: Vec<u8> = Vec::new();
    buf.extend(format!("HTTP/1.1 200 OK\r\nContent-Length: {}\r\nContent-Encoding: deflate\r\n\r\n", payload.len()).into_bytes());
    buf.extend(payload);

    let response = parse(buf, Method::Get).unwrap();
    assert_eq!(response.text().unwrap(), "Hello world!!!!!!!!");
}

#[test]
fn compressed_reader_test_stream_gzip() {
    let mut payload = Vec::new();
    let mut enc = GzEncoder::new(&mut payload, Compression::default());
    enc.write_all(b"Hello world!!!!!!!!").unwrap();
    enc.finish().unwrap();

    let mut buf: Vec<u8> = Vec::new();
    buf.extend(format!("HTTP/1.1 200 OK\r\nContent-Length: {}\r\nContent-Encoding: gzip\r\n\r\n", payload.len()).into_bytes());
    buf.extend(payload);

    let response = parse(buf, Method::Get).unwrap();
    assert_eq!(response.text().unwrap(), "Hello world!!!!!!!!");
}

#[test]
fn test_no_body_with_gzip() {
    let buf = b"HTTP/1.1 200 OK\r\ncontent-encoding: gzip\r\n\r\n";
    assert!(parse(buf.to_vec(), Method::Get).is_ok());
}

#[test]
fn test_no_body_with_gzip_head() {
    let buf = b"HTTP/1.1 200 OK\r\ncontent-encoding: gzip\r\n\r\n";
    assert!(parse(buf.to_vec(), Method::Head).is_ok());
}

#[test]
fn head_response_body_is_not_decoded() {
    let buf = b"HTTP/1.1 200 OK\r\ncontent-encoding: gzip\r\n\r\nnot gzip";
    let response = parse(buf.to_vec(), Method::Head).unwrap();
    assert_eq!(response.bytes().unwrap(), b"not gzip");
    let response = parse(buf.to_vec(), Method::Get).unwrap();
    assert!(response.bytes().is_err());
}

#[test]
fn chunked_response_drops_transfer_encoding() {
    let buf = b"HTTP/1.1 200 OK\r\nTransfer-Encoding: chunked\r\nX-A: b\r\n\r\n3\r\nabc\r\n0\r\n\r\n";
    let response = parse(buf.to_vec(), Method::Get).unwrap();
    assert_eq!(response.status(), 200);
    assert!(response.headers().get("transfer-encoding").is_none());
    assert_eq!(response.headers()["x-a"], "b");
    assert_eq!(response.bytes().unwrap(), b"abc");
}

#[test]
fn error_for_status_cases() {
    let ok = parse(b"HTTP/1.1 204 No Content\r\n\r\n".to_vec(), Method::Get).unwrap();
    assert!(ok.is_success());
    assert!(ok.error_for_status().is_ok());
    let missing = parse(b"HTTP/1.1 404 Not Found\r\n\r\n".to_vec(), Method::Get).unwrap();
    assert!(!missing.is_success());
    assert_eq!(missing.error_for_status().err(), Some(ErrorKind::StatusCode(404)));
}

#[test]
fn conflicting_content_lengths_are_refused() {
    let buf = b"HTTP/1.1 200 OK\r\nContent-Length: 1\r\nContent-Length: 2\r\n\r\nab";
    assert_eq!(
        parse(buf.to_vec(), Method::Get).err(),
        Some(ErrorKind::InvalidResponse(InvalidResponseKind::ContentLength))
    );
}

#[test]
fn response_test_read_request_head() {
    let response = b"HTTP/1.1 200 OK\r\nContent-Length: 5\r\nContent-Type: text/plain\r\n\r\nhello";
    let mut reader = stream(&response[..]);
    let (status, headers) = parse_response_head(&mut reader, 100).unwrap();
    assert_eq!(status, 200);
    assert_eq!(headers.len(), 2);
    assert_eq!(headers[CONTENT_LENGTH], "5");
    assert_eq!(headers[CONTENT_TYPE], "text/plain");
}

#[test]
fn test_line_folded_header() {
    let response = b"HTTP/1.1 200 OK\r\nheader-of-great-many-lines: foo\nbar\nbaz\nqux\r\nthe-other-kind-of-header: foobar\r\n\r\n";
    let mut reader = stream(&response[..]);
    let (status, headers) = parse_response_head(&mut reader, 100).unwrap();
    assert_eq!(status, 200);
    assert_eq!(headers.len(), 2);
    assert_eq!(headers["header-of-great-many-lines"], "foo bar baz qux");
    assert_eq!(headers["the-other-kind-of-header"], "foobar");
}

#[test]
fn test_max_headers_limit() {
    let response = b"HTTP/1.1 200 OK\r\nfirst-header: foo\r\nsecond-header: bar\r\none-header-too-many: baz\r\n\r\n";
    let mut reader = stream(&response[..]);
    let err = parse_response_head(&mut reader, 2).unwrap_err();
    assert_eq!(err, ErrorKind::InvalidResponse(InvalidResponseKind::Header));
}

#[test]
fn bad_status_lines() {
    let mut reader = stream(b"HTTP/1.1\r\n\r\n");
    assert_eq!(
        parse_response_head(&mut reader, 100).unwrap_err(),
        ErrorKind::InvalidResponse(InvalidResponseKind::StatusLine)
    );
    let mut reader = stream(b"HTTP/1.1 20x OK\r\n\r\n");
    assert_eq!(
        parse_response_head(&mut reader, 100).unwrap_err(),
        ErrorKind::InvalidResponse(InvalidResponseKind::StatusCode)
    );
}

#[test]
fn parse_test_read_request_head() {
    let response = b"HTTP/1.1 200 OK\r\nContent-Length: 5\r\nContent-Type: text/plain\r\n\r\nhello";
    let mut reader = stream(&response[..]);
    let (status, headers) = read_response_head(&mut reader).ok().unwrap();
    assert_eq!(status, 200);
    assert_eq!(headers.len(), 2);
    assert_eq!(headers[CONTENT_LENGTH], "5");
    assert_eq!(headers[CONTENT_TYPE], "text/plain");
}

#[test]
fn parse_test_stream_plain() {
    let mut buff: Vec<u8> = Vec::new();
    buff.extend(b"HTTP/1.1 200 OK\r\n\r\n");
    buff.extend(b"Hello world!!!!!!!!");

    let (_, _, response) = read_response(ByteReader::new(buff), None).unwrap();
    assert_eq!(response.string().unwrap(), "Hello world!!!!!!!!");
}

#[test]
fn parse_test_stream_deflate() {
    let mut buff: Vec<u8> = Vec::new();
    buff.extend(b"HTTP/1.1 200 OK\r\nContent-Encoding: deflate\r\n\r\n".iter());
    let mut enc = libflate::deflate::Encoder::new(&mut buff);
    enc.write_all(b"Hello world!!!!!!!!").unwrap();
    enc.finish().into_result().unwrap();

    let (_, _, response) = read_response(ByteReader::new(buff), None).unwrap();
    assert_eq!(response.string().unwrap(), "Hello world!!!!!!!!");
}

#[test]
fn parse_test_stream_gzip() {
    let mut buff: Vec<u8> = Vec::new();
    buff.extend(b"HTTP/1.1 200 OK\r\nContent-Encoding: gzip\r\n\r\n".iter());
    let mut enc = libflate::gzip::Encoder::new(&mut buff).unwrap();
    enc.write_all(b"Hello world!!!!!!!!").unwrap();
    enc.finish().into_result().unwrap();

    let (_, _, response) = read_response(ByteReader::new(buff), None).unwrap();
    assert_eq!(response.string().unwrap(), "Hello world!!!!!!!!");
}

#[test]
fn response_test_read_request_head_legacy_form() {
    let response = b"HTTP/1.1 404 Not Found\r\nX-Y: z\r\n\r\n";
    let mut reader = stream(&response[..]);
    let (status, headers) = read_response_head(&mut reader).unwrap();
    assert_eq!(status, 404);
    assert_eq!(headers["x-y"], "z");
}

#[test]
fn response_test_stream_plain() {
    let mut buff: Vec<u8> = Vec::new();
    buff.extend(b"HTTP/1.1 200 OK\r\n\r\n");
    buff.extend(b"Hello world!!!!!!!!");
    let (_, _, response) = read_response(ByteReader::new(buff), None).unwrap();
    assert_eq!(response.string().unwrap(), "Hello world!!!!!!!!");
}

#[test]
fn response_test_stream_deflate() {
    let mut buff: Vec<u8> = Vec::new();
    buff.extend(b"HTTP/1.1 200 OK\r\nContent-Encoding: deflate\r\n\r\n".iter());
    let mut enc = libflate::deflate::Encoder::new(&mut buff);
    enc.write_all(b"Hello world!!!!!!!!").unwrap();
    enc.finish().into_result().unwrap();
    let (_, _, response) = read_response(ByteReader::new(buff), None).unwrap();
    assert_eq!(response.string().unwrap(), "Hello world!!!!!!!!");
}

#[test]
fn response_test_stream_gzip() {
    let mut buff: Vec<u8> = Vec::new();
    buff.extend(b"HTTP/1.1 200 OK\r\nContent-Encoding: gzip\r\n\r\n".iter());
    let mut enc = libflate::gzip::Encoder::new(&mut buff).unwrap();
    enc.write_all(b"Hello world!!!!!!!!").unwrap();
    enc.finish().into_result().unwrap();
    let (_, _, response) = read_response(ByteReader::new(buff), None).unwrap();
    assert_eq!(response.string().unwrap(), "Hello world!!!!!!!!");
}

fn content_type_headers(value: &[u8]) -> HeaderMap {
    let mut headers = HeaderMap::new();
    headers.insert(CONTENT_TYPE, HeaderValue::from_bytes(value).unwrap());
    headers
}

#[test]
fn response_reader_test_get_charset_from_header() {
    let headers = content_type_headers(b"text/html; charset=UTF-8");
    assert_eq!(get_charset(&headers, None), Charset::utf_8());
}

#[test]
fn test_get_charset_from_header_lowercase() {
    let headers = content_type_headers(b"text/html; charset=utf8");
    assert_eq!(get_charset(&headers, None), Charset::utf_8());
}

#[test]
fn response_reader_test_get_charset_from_default() {
    let headers = HeaderMap::new();
    assert_eq!(get_charset(&headers, Some(Charset::utf_8())), Charset::utf_8());
}

#[test]
fn response_reader_test_get_charset_standard() {
    let headers = HeaderMap::new();
    assert_eq!(get_charset(&headers, None), Charset::windows_1252());
}

#[test]
fn parse_test_get_charset_from_header() {
    let headers = content_type_headers(b"text/html; charset=UTF-8");
    assert_eq!(get_charset(&headers, None), Charset::utf_8());
}

#[test]
fn parse_test_get_charset_from_default() {
    let headers = HeaderMap::new();
    assert_eq!(get_charset(&headers, Some(Charset::utf_8())), Charset::utf_8());
}

#[test]
fn parse_test_get_charset_standard() {
    let headers = HeaderMap::new();
    assert_eq!(get_charset(&headers, None), Charset::windows_1252());
}

#[test]
fn response_test_get_charset_from_header() {
    let headers = content_type_headers(b"text/html; charset=UTF-8");
    assert_eq!(get_charset(&headers, None), Charset::utf_8());
}

#[test]
fn response_test_get_charset_from_default() {
    let headers = HeaderMap::new();
    assert_eq!(get_charset(&headers, Some(Charset::utf_8())), Charset::utf_8());
}

#[test]
fn response_test_get_charset_standard() {
    let headers = HeaderMap::new();
    assert_eq!(get_charset(&headers, None), Charset::windows_1252());
}

#[test]
fn unknown_charset_label_falls_back_to_default() {
    let headers = content_type_headers(b"text/html; charset=klingon");
    assert_eq!(get_charset(&headers, Some(Charset::utf_8())), Charset::utf_8());
    let no_label = content_type_headers(b"text/html");
    assert_eq!(get_charset(&no_label, None), Charset::windows_1252());
}

#[test]
fn text_reader_test_stream_decoder_utf8() {
    let mut reader = TextReader::new("québec".as_bytes(), &Charset::utf_8());

    let mut text = String::new();
    assert_eq!(reader.read_to_string(&mut text).ok(), Some(7));

    assert_eq!(text, "québec");
}

#[test]
fn text_reader_test_stream_decoder_latin1() {
    let mut reader = TextReader::new(&b"qu\xC9bec"[..], &Charset::windows_1252());

    let mut text = String::new();
    assert_eq!(reader.read_to_string(&mut text).ok(), Some(7));

    assert_eq!(text, "quÉbec");
}

#[test]
fn test_string_reader_large_buffer_latin1() {
    let buf = vec![201; 10_000];
    let mut reader = TextReader::new(&buf[..], &Charset::windows_1252());

    let mut text = String::new();
    assert_eq!(20_000, reader.read_to_string(&mut text).unwrap());
    assert_eq!(text.len(), 20_000);

    for c in text.chars() {
        assert_eq!(c, 'É');
    }
}

#[test]
fn text_reader_reads_in_pieces() {
    let mut reader = TextReader::new(&b"qu\xC9bec"[..], &Charset::windows_1252());
    let mut buf = [0u8; 3];
    assert_eq!(reader.read(&mut buf), 3);
    assert_eq!(&buf, b"qu\xC3");
    // the rest starts inside a character
    let mut text = String::from("x");
    assert_eq!(reader.read_to_string(&mut text), Err(ErrorKind::Io(attohttpc::error::IoErrorKind::InvalidData)));
    assert_eq!(text, "x");
    assert_eq!(reader.read(&mut buf), 0);
}

#[test]
fn text_reader_of_a_response() {
    let buf = b"HTTP/1.1 200 OK\r\nContent-Type: text/plain; charset=windows-1252\r\n\r\nqu\xC9bec";
    let mut reader = parse(buf.to_vec(), Method::Get).unwrap().text_reader().unwrap();
    let mut text = String::new();
    assert_eq!(reader.read_to_string(&mut text), Ok(7));
    assert_eq!(text, "quÉbec");
    let mut reader = parse(buf.to_vec(), Method::Get).unwrap().text_reader_with(&Charset::utf_8()).unwrap();
    let mut text = String::new();
    reader.read_to_string(&mut text).unwrap();
    assert_eq!(text, "qu\u{FFFD}bec");
}

#[test]
fn parse_test_stream_decoder_utf8() {
    assert_eq!(Charset::utf_8().decode("québec".as_bytes()), "québec");
}

#[test]
fn parse_test_stream_decoder_latin1() {
    assert_eq!(Charset::windows_1252().decode(&[201]), "É");
}

#[test]
fn test_stream_decoder_large_buffer() {
    let buf = vec![201u8; 10_000];
    for c in Charset::windows_1252().decode(&buf).chars() {
        assert_eq!(c, 'É');
    }
}

#[test]
fn text_in_the_charset_of_the_headers() {
    let buf = b"HTTP/1.1 200 OK\r\nContent-Type: text/plain; charset=windows-1252\r\n\r\nqu\xC9bec";
    let response = parse(buf.to_vec(), Method::Get).unwrap();
    assert_eq!(response.text().unwrap(), "quÉbec");
    let response = parse(buf.to_vec(), Method::Get).unwrap();
    assert_eq!(response.text_utf8().unwrap(), "qu\u{FFFD}bec");
    let response = parse(buf.to_vec(), Method::Get).unwrap();
    assert_eq!(response.text_with(&Charset::utf_8()).unwrap(), "qu\u{FFFD}bec");
}

#[test]
fn legacy_encoding_names_must_match_exactly() {
    let buf = b"HTTP/1.1 200 OK\r\nContent-Encoding: gzip, identity\r\n\r\nplain".to_vec();
    let (status, _, response) = read_response(ByteReader::new(buf), None).unwrap();
    assert_eq!(status, 200);
    assert_eq!(response.bytes().unwrap(), b"plain");
}

#[test]
fn write_to_appends_the_body() {
    let resp = parse_response(stream(b"HTTP/1.1 200 OK\r\nContent-Length: 5\r\n\r\nhello tail"), Method::Get, 100, None).unwrap();
    let mut out = b">".to_vec();
    assert_eq!(resp.write_to(&mut out), Ok(5));
    assert_eq!(out, b">hello".to_vec());
}

#[test]
fn write_to_reports_a_truncated_body() {
    let resp = parse_response(stream(b"HTTP/1.1 200 OK\r\nTransfer-Encoding: chunked\r\n\r\n5\r\nhel"), Method::Get, 100, None).unwrap();
    let mut out = Vec::new();
    assert!(resp.write_to(&mut out).is_err());
    assert!(out.is_empty());
}

#[test]
fn short_body_stops_at_the_end_of_the_stream() {
    let resp = parse_response(stream(b"HTTP/1.1 200 OK\r\nContent-Length: 9\r\n\r\nhello"), Method::Get, 100, None).unwrap();
    let mut out = Vec::new();
    assert_eq!(resp.write_to(&mut out), Ok(5));
    assert_eq!(out, b"hello".to_vec());
}

#[test]
fn corrupt_gzip_body_reports_the_decoder_error() {
    let mut buf = b"HTTP/1.1 200 OK\r\nContent-Length: 12\r\nContent-Encoding: gzip\r\n\r\n".to_vec();
    buf.extend_from_slice(b"not gzip at!");
    let response = parse(buf, Method::Get).unwrap();
    assert_eq!(response.bytes(), Err(ErrorKind::Io(attohttpc::error::IoErrorKind::InvalidInput)));
}

#[test]
fn truncated_gzip_body_keeps_what_was_decoded() {
    let text = vec![b'x'; 100_000];
    let mut payload = Vec::new();
    let mut enc = GzEncoder::new(&mut payload, Compression::default());
    enc.write_all(&text).unwrap();
    enc.finish().unwrap();
    payload.truncate(payload.len() - 8);
    let mut buf = format!("HTTP/1.1 200 OK\r\nContent-Encoding: gzip\r\nContent-Length: {}\r\n\r\n", payload.len()).into_bytes();
    buf.extend(payload);
    let response = parse(buf, Method::Get).unwrap();
    let mut out = Vec::new();
    let r = response.write_to(&mut out);
    assert_eq!(r, Err(ErrorKind::Io(attohttpc::error::IoErrorKind::UnexpectedEof)));
    assert!(!out.is_empty() && out.iter().all(|&b| b == b'x'));
}
