use attohttpc::body::{Body, BodyKind};
use attohttpc::error::ErrorKind;
use attohttpc::multipart::{Field, FieldData, LazyError, MultipartBuilder, MultipartFile, PreparedFields};

#[test]
fn multipart_text_fields() {
    let mut form = MultipartBuilder::new().with_text("a", "1").with_text("b", "two").build(b"XYZ").unwrap();
    let mut out = Vec::new();
    form.write(&mut out).unwrap();
    let expected = "\r\n--XYZ\r\nContent-Disposition: form-data; name=\"a\"\r\n\r\n1\
                    \r\n--XYZ\r\nContent-Disposition: form-data; name=\"b\"\r\n\r\ntwo\
                    \r\n--XYZ--";
    assert_eq!(String::from_utf8(out).unwrap(), expected);
    // the announced length is the length of the whole form
    assert_eq!(form.kind(), Ok(BodyKind::KnownLength(expected.len() as u64)));
    assert_eq!(form.content_type(), Ok(Some(b"multipart/form-data; boundary=XYZ".to_vec())));
}

#[test]
fn multipart_files_are_streamed() {
    let file = MultipartFile::new("file", b"abc123").with_type("text/plain").unwrap().with_filename("hello.txt");
    let mut form = MultipartBuilder::new().with_text("Hello", "world!").with_file(file).build(b"B").unwrap();
    assert_eq!(form.kind(), Ok(BodyKind::Chunked));
    let mut out = Vec::new();
    form.write(&mut out).unwrap();
    let expected = "\r\n--B\r\nContent-Disposition: form-data; name=\"Hello\"\r\n\r\nworld!\
                    \r\n--B\r\nContent-Disposition: form-data; name=\"file\"; filename=\"hello.txt\"\
                    \r\nContent-Type: text/plain\r\n\r\nabc123\
                    \r\n--B--";
    assert_eq!(String::from_utf8(out).unwrap(), expected);
}

#[test]
fn invalid_mime_type_is_refused() {
    match MultipartFile::new("f", b"x").with_type("not a mime") {
        Err(e) => assert_eq!(e, ErrorKind::InvalidMimeType(b"not a mime".to_vec())),
        Ok(_) => panic!("invalid MIME type accepted"),
    }
}

#[test]
fn empty_form_is_empty() {
    let mut form = MultipartBuilder::new().build(b"B").unwrap();
    assert_eq!(form.kind(), Ok(BodyKind::KnownLength(0)));
    let mut out = Vec::new();
    form.write(&mut out).unwrap();
    assert!(out.is_empty());
}

#[test]
fn sized_fields_announce_their_length() {
    let fields = vec![
        Field {
            name: "f".to_string(),
            data: FieldData::Sized { content: b"0123456789".to_vec(), content_type: b"application/octet-stream".to_vec(), filename: None },
        },
        Field {
            name: "g".to_string(),
            data: FieldData::Sized { content: b"xy".to_vec(), content_type: b"text/plain".to_vec(), filename: Some("g.txt".to_string()) },
        },
    ];
    let mut prepared = PreparedFields::from_fields(fields, b"T");
    let mut all = Vec::new();
    let mut buf = [0u8; 7];
    loop {
        let n = prepared.read(&mut buf);
        if n == 0 {
            break;
        }
        all.extend_from_slice(&buf[..n]);
    }
    assert_eq!(prepared.content_len(), Some(all.len() as u64));
    assert_eq!(prepared.boundary(), b"T");
    // fields other than text come out last first
    let text = String::from_utf8(all).unwrap();
    assert!(text.find("name=\"g\"").unwrap() < text.find("name=\"f\"").unwrap());
    assert!(text.ends_with("\r\n--T--"));
}

#[test]
fn lazy_errors_keep_the_field() {
    let e = LazyError::with_field("f".to_string(), ErrorKind::Http);
    assert_eq!(e.field_name.as_deref(), Some("f"));
    let e = e.transform_err();
    assert_eq!(e.error, ErrorKind::Http);
    assert_eq!(e.field_name.as_deref(), Some("f"));
    let e = LazyError::without_field(ErrorKind::Http);
    assert!(e.field_name.is_none());
}

fn read_all(prepared: &mut PreparedFields) -> String {
    let mut all = Vec::new();
    let mut buf = [0u8; 5];
    loop {
        let n = prepared.read(&mut buf);
        if n == 0 {
            break;
        }
        all.extend_from_slice(&buf[..n]);
    }
    String::from_utf8(all).unwrap()
}

#[test]
fn lazy_form_of_files_announces_its_length() {
    let mut form = attohttpc::lazy::Multipart::new();
    form.add_file("doc", b"abc".to_vec(), b"text/plain", Some("a.txt"));
    let mut prepared = form.prepare(b"XYZ").unwrap();
    let text = read_all(&mut prepared);
    assert_eq!(
        text,
        "\r\n--XYZ\r\nContent-Disposition: form-data; name=\"doc\"; filename=\"a.txt\"\
         \r\nContent-Type: text/plain\r\n\r\nabc\r\n--XYZ--"
    );
    assert_eq!(prepared.content_len(), Some(text.len() as u64));
}

#[test]
fn lazy_form_with_a_stream_announces_no_length() {
    let mut form = attohttpc::lazy::Multipart::new();
    form.add_text("a", "1");
    form.add_stream("s", b"data".to_vec(), None, None);
    let mut prepared = form.prepare(b"B").unwrap();
    assert_eq!(prepared.content_len(), None);
    assert_eq!(
        read_all(&mut prepared),
        "\r\n--B\r\nContent-Disposition: form-data; name=\"a\"\r\n\r\n1\
         \r\n--B\r\nContent-Disposition: form-data; name=\"s\"\r\nContent-Type: application/octet-stream\r\n\r\ndata\
         \r\n--B--"
    );
    // preparing empties the form
    let mut again = form.prepare(b"B").unwrap();
    assert_eq!(again.content_len(), Some(0));
    assert_eq!(read_all(&mut again), "");
}

#[test]
fn lazy_form_of_text_announces_its_length() {
    let mut form = attohttpc::lazy::Multipart::new();
    form.add_text("a", "x");
    let mut prepared = form.prepare(b"0123456789").unwrap();
    let b = prepared.boundary().len() as u64;
    let text = read_all(&mut prepared);
    assert_eq!(prepared.content_len(), Some(text.len() as u64));
    assert_eq!(prepared.content_len(), Some(57 + 2 * b));
}
