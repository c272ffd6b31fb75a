//! The response head parser of the first versions of the client: lines end with `\n`
//! and have no length limit, the status code sits between the first two spaces of the
//! status line, and an invalid header fails the whole response.

use vstd::prelude::*;

use http::HeaderMap;

use crate::buffers::{strip_eol, trim_byte, trim_crlf, trim_spec};
use crate::error::{ErrorKind, InvalidResponseKind, IoErrorKind};
use crate::headers::{
    header_char, header_entries, header_map_append, header_map_new, header_name_from_bytes, header_name_spec,
    holds, is_header_value, valid_header_value, values_of,
};
use crate::reader::{ByteReader, find_byte, lemma_find_byte_bounds, lemma_find_byte_is, limited, slice_to_vec, until_len};
use crate::response::{status_code_from_bytes, status_code_spec};

verus! {

/// Number of bytes a line takes from `s`: up to and including the first `\n`, or all.
pub open spec fn legacy_line_len(s: Seq<u8>) -> int {
    until_len(limited(s, u64::MAX as int), 10u8)
}

/// The status code of a status line: the bytes between its first and second space.
pub open spec fn legacy_status_spec(line: Seq<u8>) -> Result<u16, ErrorKind> {
    let sp1 = find_byte(line, 32u8);
    if sp1 >= line.len() {
        Err(ErrorKind::InvalidResponse(InvalidResponseKind::StatusLine))
    } else {
        let rest = line.skip(sp1 + 1);
        let sp2 = find_byte(rest, 32u8);
        if sp2 >= rest.len() {
            Err(ErrorKind::InvalidResponse(InvalidResponseKind::StatusLine))
        } else {
            match status_code_spec(rest.take(sp2)) {
                Some(c) => Ok(c),
                None => Err(ErrorKind::InvalidResponse(InvalidResponseKind::StatusCode)),
            }
        }
    }
}

/// Parses header lines from `s` after the headers in `list`, until an empty line or the
/// end of the stream. The name is the part before the first colon, as it is; the value
/// the part after it, trimmed of spaces. Yields the headers and the bytes after them.
pub open spec fn legacy_headers_spec(s: Seq<u8>, list: Seq<(Seq<u8>, Seq<u8>)>)
    -> Result<(Seq<(Seq<u8>, Seq<u8>)>, Seq<u8>), ErrorKind>
    decreases s.len(),
{
    let n = legacy_line_len(s);
    let line = strip_eol(s.take(n));
    if line.len() == 0 || n <= 0 || n > s.len() {
        Ok((list, s.skip(n)))
    } else {
        let col = find_byte(line, 58u8);
        if col >= line.len() {
            Err(ErrorKind::InvalidResponse(InvalidResponseKind::Header))
        } else {
            let value = trim_spec(line.skip(col + 1), 32u8);
            match header_name_spec(line.take(col)) {
                None => Err(ErrorKind::Http),
                Some(name) => if !is_header_value(value) {
                    Err(ErrorKind::Http)
                } else {
                    legacy_headers_spec(s.skip(n), list.push((name, value)))
                },
            }
        }
    }
}

/// Parses a response head from `s`: the status code, the headers, and the bytes after
/// the head.
pub open spec fn legacy_head_spec(s: Seq<u8>) -> Result<(u16, Seq<(Seq<u8>, Seq<u8>)>, Seq<u8>), ErrorKind> {
    let n = legacy_line_len(s);
    match legacy_status_spec(strip_eol(s.take(n))) {
        Err(e) => Err(e),
        Ok(c) => match legacy_headers_spec(s.skip(n), Seq::empty()) {
            Ok((list, rest)) => Ok((c, list, rest)),
            Err(e) => Err(e),
        },
    }
}

/// How many headers `legacy_headers_spec` has gathered, counting those of `list`, when
/// it stops, whether with the headers or with an error.
pub open spec fn legacy_headers_count(s: Seq<u8>, list: Seq<(Seq<u8>, Seq<u8>)>) -> int
    decreases s.len(),
{
    let n = legacy_line_len(s);
    let line = strip_eol(s.take(n));
    if line.len() == 0 || n <= 0 || n > s.len() {
        list.len() as int
    } else {
        let col = find_byte(line, 58u8);
        if col >= line.len() {
            list.len() as int
        } else {
            let value = trim_spec(line.skip(col + 1), 32u8);
            match header_name_spec(line.take(col)) {
                None => list.len() as int,
                Some(name) => if !is_header_value(value) {
                    list.len() as int
                } else {
                    legacy_headers_count(s.skip(n), list.push((name, value)))
                },
            }
        }
    }
}

/// How many headers the parser of a response head has gathered when it stops.
pub open spec fn legacy_head_count(s: Seq<u8>) -> int {
    let n = legacy_line_len(s);
    match legacy_status_spec(strip_eol(s.take(n))) {
        Err(_) => 0,
        Ok(_) => legacy_headers_count(s.skip(n), Seq::empty()),
    }
}

/// Parsing more header lines only adds to the headers already parsed; the count is that
/// of the headers gathered.
proof fn lemma_legacy_headers_grow(s: Seq<u8>, list: Seq<(Seq<u8>, Seq<u8>)>)
    ensures
        legacy_headers_count(s, list) >= list.len(),
        legacy_headers_spec(s, list) matches Ok((l2, _)) ==> legacy_headers_count(s, list) == l2.len(),
    decreases s.len(),
{
    let n = legacy_line_len(s);
    let line = strip_eol(s.take(n));
    if !(line.len() == 0 || n <= 0 || n > s.len()) {
        let col = find_byte(line, 58u8);
        if col < line.len() {
            let value = trim_spec(line.skip(col + 1), 32u8);
            match header_name_spec(line.take(col)) {
                None => {},
                Some(name) => {
                    lemma_legacy_headers_grow(s.skip(n), list.push((name, value)));
                },
            }
        }
    }
}

proof fn lemma_normalized_name(raw: Seq<u8>, name: Seq<u8>)
    requires
        header_name_spec(raw) == Some(name),
    ensures
        header_name_spec(name) == Some(name),
{
    assert(name.map_values(|c: u8| header_char(c)) =~= name) by {
        assert forall|i: int| 0 <= i < name.len() implies header_char(#[trigger] name[i]) == name[i] by {
            assert(name[i] == header_char(raw[i]));
        }
    }
    assert forall|i: int| 0 <= i < name.len() implies header_char(#[trigger] name[i]) != 0u8 by {
        assert(name[i] == header_char(raw[i]));
    }
}

/// The status code of a status line: the bytes between its first and second space.
pub fn legacy_status_code(line: &[u8]) -> (r: Result<u16, ErrorKind>)
    ensures
        r == legacy_status_spec(line@),
{
    let mut sp1: usize = 0;
    while sp1 < line.len() && line[sp1] != 32u8
        invariant
            sp1 <= line@.len(),
            forall|j: int| 0 <= j < sp1 ==> line@[j] != 32u8,
        decreases line@.len() - sp1,
    {
        sp1 = sp1 + 1;
    }
    proof {
        lemma_find_byte_is(line@, 32u8, sp1 as int);
    }
    if sp1 >= line.len() {
        return Err(ErrorKind::InvalidResponse(InvalidResponseKind::StatusLine));
    }
    let rest = &line[sp1 + 1..line.len()];
    assert(rest@ =~= line@.skip(sp1 + 1));
    let mut sp2: usize = 0;
    while sp2 < rest.len() && rest[sp2] != 32u8
        invariant
            sp2 <= rest@.len(),
            forall|j: int| 0 <= j < sp2 ==> rest@[j] != 32u8,
        decreases rest@.len() - sp2,
    {
        sp2 = sp2 + 1;
    }
    proof {
        lemma_find_byte_is(rest@, 32u8, sp2 as int);
    }
    if sp2 >= rest.len() {
        return Err(ErrorKind::InvalidResponse(InvalidResponseKind::StatusLine));
    }
    let code = &rest[0..sp2];
    assert(code@ =~= rest@.take(sp2 as int));
    match status_code_from_bytes(code) {
        Some(c) => Ok(c),
        None => Err(ErrorKind::InvalidResponse(InvalidResponseKind::StatusCode)),
    }
}

/// Parses the head of a response from `reader` in the manner of the first versions of
/// the client; see `legacy_head_spec`. Besides the errors that `legacy_head_spec`
/// gives, the error is `Http` when the header map has no room, which takes at least
/// 6554 headers gathered.
pub fn read_response_head(reader: &mut ByteReader) -> (r: Result<(u16, HeaderMap), ErrorKind>)
    ensures
        match legacy_head_spec(old(reader)@) {
            Ok((status, list, rest)) => match r {
                Ok((c, m)) => c == status && holds(m, list) && final(reader)@ == rest,
                Err(e) => e == ErrorKind::Http && list.len() >= 6554,
            },
            Err(e) => r matches Err(e2)
                && (e2 == e || (e2 == ErrorKind::Http && legacy_head_count(old(reader)@) >= 6554)),
        },
{
    let ghost s = reader@;
    let mut line: Vec<u8> = Vec::new();
    let n = reader.read_until(10u8, u64::MAX, &mut line);
    let status = legacy_status_code(trim_crlf(line.as_slice()))?;
    let ghost s1 = reader@;
    let mut headers = header_map_new();
    let ghost mut list: Seq<(Seq<u8>, Seq<u8>)> = Seq::empty();
    proof {
        assert(line@ =~= s.take(n as int));
        assert forall|nm: Seq<u8>| #[trigger] values_of(header_entries(headers), nm) == values_of(list, nm) by {}
    }
    loop
        invariant
            s == old(reader)@,
            legacy_head_spec(s) == (match legacy_headers_spec(s1, Seq::empty()) {
                Ok((l, rest)) => Ok::<(u16, Seq<(Seq<u8>, Seq<u8>)>, Seq<u8>), ErrorKind>((status, l, rest)),
                Err(e) => Err(e),
            }),
            legacy_headers_spec(s1, Seq::empty()) == legacy_headers_spec(reader@, list),
            legacy_head_count(s) == legacy_headers_count(reader@, list),
            holds(headers, list),
        decreases reader@.len(),
    {
        let ghost cur = reader@;
        line.clear();
        let k = reader.read_until(10u8, u64::MAX, &mut line);
        proof {
            assert(line@ =~= cur.take(k as int));
            lemma_find_byte_bounds(limited(cur, u64::MAX as int), 10u8);
        }
        let trimmed = trim_crlf(line.as_slice());
        if trimmed.len() == 0 {
            return Ok((status, headers));
        }
        let mut col: usize = 0;
        while col < trimmed.len() && trimmed[col] != 58u8
            invariant
                col <= trimmed@.len(),
                forall|j: int| 0 <= j < col ==> trimmed@[j] != 58u8,
            decreases trimmed@.len() - col,
        {
            col = col + 1;
        }
        proof {
            lemma_find_byte_is(trimmed@, 58u8, col as int);
        }
        if col >= trimmed.len() {
            return Err(ErrorKind::InvalidResponse(InvalidResponseKind::Header));
        }
        let raw = &trimmed[0..col];
        assert(raw@ =~= trimmed@.take(col as int));
        let value_part = &trimmed[col + 1..trimmed.len()];
        assert(value_part@ =~= trimmed@.skip(col + 1));
        let value = trim_byte(32u8, value_part);
        let name = match header_name_from_bytes(raw) {
            Some(name) => name,
            None => {
                return Err(ErrorKind::Http);
            },
        };
        if !valid_header_value(value) {
            return Err(ErrorKind::Http);
        }
        proof {
            lemma_normalized_name(raw@, name@);
        }
        let ghost before = headers;
        if !header_map_append(&mut headers, name.as_slice(), value) {
            proof {
                lemma_legacy_headers_grow(reader@, list.push((name@, value@)));
            }
            return Err(ErrorKind::Http);
        }
        proof {
            let l2 = list.push((name@, value@));
            assert(l2.drop_last() =~= list);
            assert forall|nm: Seq<u8>| #[trigger] values_of(header_entries(headers), nm) == values_of(l2, nm) by {
                if nm != name@ {
                    assert(values_of(header_entries(headers), nm) == values_of(header_entries(before), nm));
                }
            }
            list = l2;
        }
    }
}

/// What reading `libflate::deflate::Decoder` over `data` to its end gives: the bytes it
/// yields, then the kind of the error that stops it, if one does.
pub uninterp spec fn libflate_inflate(data: Seq<u8>) -> (Seq<u8>, Option<IoErrorKind>);

/// What reading `libflate::gzip::Decoder` over `data` to its end gives (its header is
/// read when it is made): the bytes it yields, then the kind of the error that stops
/// it, if one does.
pub uninterp spec fn libflate_gunzip(data: Seq<u8>) -> (Seq<u8>, Option<IoErrorKind>);

/// Reads `data` to its end through `libflate::deflate::Decoder`; the error's kind is
/// taken as the library names it.
#[verifier::external_body]
fn libflate_inflate_outside(data: &[u8]) -> (r: (Vec<u8>, Option<IoErrorKind>))
    ensures
        (r.0@, r.1) == libflate_inflate(data@),
{
    let mut out = Vec::new();
    let err = std::io::Read::read_to_end(&mut libflate::deflate::Decoder::new(data), &mut out).err().map(|e| match e.kind() {
        std::io::ErrorKind::InvalidInput => IoErrorKind::InvalidInput,
        std::io::ErrorKind::InvalidData => IoErrorKind::InvalidData,
        std::io::ErrorKind::UnexpectedEof => IoErrorKind::UnexpectedEof,
        _ => IoErrorKind::Other,
    });
    (out, err)
}

/// Makes a `libflate::gzip::Decoder` over `data` and reads it to its end; the error's
/// kind, from either step, is taken as the library names it.
#[verifier::external_body]
fn libflate_gunzip_outside(data: &[u8]) -> (r: (Vec<u8>, Option<IoErrorKind>))
    ensures
        (r.0@, r.1) == libflate_gunzip(data@),
{
    let mut out = Vec::new();
    let res = libflate::gzip::Decoder::new(data).and_then(|mut d| std::io::Read::read_to_end(&mut d, &mut out));
    let err = res.err().map(|e| match e.kind() {
        std::io::ErrorKind::InvalidInput => IoErrorKind::InvalidInput,
        std::io::ErrorKind::InvalidData => IoErrorKind::InvalidData,
        std::io::ErrorKind::UnexpectedEof => IoErrorKind::UnexpectedEof,
        _ => IoErrorKind::Other,
    });
    (out, err)
}

/// `deflate`.
pub open spec fn spec_deflate() -> Seq<u8> {
    seq![100u8, 101u8, 102u8, 108u8, 97u8, 116u8, 101u8]
}

/// `gzip`.
pub open spec fn spec_gzip() -> Seq<u8> {
    seq![103u8, 122u8, 105u8, 112u8]
}

/// The content coding of a legacy response: deflate (1) or gzip (2) when the first
/// `Content-Encoding` value is exactly that name, else none (0).
pub open spec fn legacy_coding(content_encodings: Seq<Seq<u8>>) -> u8 {
    if content_encodings.len() > 0 && content_encodings[0] == spec_deflate() {
        1
    } else if content_encodings.len() > 0 && content_encodings[0] == spec_gzip() {
        2
    } else {
        0
    }
}

/// The decoded body of a legacy response whose raw body is `raw`.
pub open spec fn legacy_body(raw: Seq<u8>, coding: u8) -> Result<Seq<u8>, ErrorKind> {
    if coding == 1 {
        match libflate_inflate(raw).1 {
            None => Ok(libflate_inflate(raw).0),
            Some(k) => Err(ErrorKind::Io(k)),
        }
    } else if coding == 2 {
        match libflate_gunzip(raw).1 {
            None => Ok(libflate_gunzip(raw).0),
            Some(k) => Err(ErrorKind::Io(k)),
        }
    } else {
        Ok(raw)
    }
}

/// The body of a response of the first versions of the client: everything after the
/// head, decoded as the first `Content-Encoding` says, in a character set.
pub struct LegacyResponseReader {
    raw: Vec<u8>,
    coding: u8,
    charset: crate::charset::Charset,
}

impl LegacyResponseReader {
    /// The decoded body, or the error met decoding it.
    pub closed spec fn future(self) -> Result<Seq<u8>, ErrorKind> {
        legacy_body(self.raw@, self.coding)
    }

    /// The name of the character set of the body.
    pub closed spec fn charset_name(self) -> Seq<u8> {
        self.charset@
    }

    /// The decoded body.
    pub fn bytes(self) -> (r: Result<Vec<u8>, ErrorKind>)
        ensures
            match self.future() {
                Ok(d) => r matches Ok(v) && v@ == d,
                Err(e) => r == Err::<Vec<u8>, ErrorKind>(e),
            },
    {
        if self.coding == 1 {
            let (v, err) = libflate_inflate_outside(self.raw.as_slice());
            match err {
                None => Ok(v),
                Some(k) => Err(ErrorKind::Io(k)),
            }
        } else if self.coding == 2 {
            let (v, err) = libflate_gunzip_outside(self.raw.as_slice());
            match err {
                None => Ok(v),
                Some(k) => Err(ErrorKind::Io(k)),
            }
        } else {
            Ok(self.raw)
        }
    }

    /// The body as text in its character set.
    pub fn string(self) -> (r: Result<String, ErrorKind>)
        ensures
            match self.future() {
                Ok(d) => r matches Ok(s) && s@ == crate::charset::decoded_text(self.charset_name(), d),
                Err(e) => r == Err::<String, ErrorKind>(e),
            },
    {
        let charset = self.charset.clone();
        self.string_with(&charset)
    }

    /// The body as text in `charset`.
    pub fn string_with(self, charset: &crate::charset::Charset) -> (r: Result<String, ErrorKind>)
        ensures
            match self.future() {
                Ok(d) => r matches Ok(s) && s@ == crate::charset::decoded_text(charset@, d),
                Err(e) => r == Err::<String, ErrorKind>(e),
            },
    {
        let bytes = self.bytes()?;
        Ok(charset.decode(bytes.as_slice()))
    }
}

/// Reads a response in the manner of the first versions of the client: the head, then
/// the rest of the stream as the body, decoded when the first `Content-Encoding` is
/// exactly `deflate` or `gzip`, in the character set that the headers name, else
/// `default_charset`, else windows-1252.
pub fn read_response(reader: ByteReader, default_charset: Option<crate::charset::Charset>) -> (r: Result<(u16, HeaderMap, LegacyResponseReader), ErrorKind>)
    ensures
        match legacy_head_spec(reader@) {
            Ok((status, list, rest)) => match r {
                Ok((c, m, body)) => c == status && holds(m, list)
                    && body.future() == legacy_body(rest, legacy_coding(values_of(list, crate::names::spec_content_encoding())))
                    && body.charset_name() == crate::charset::charset_spec(
                        values_of(list, crate::names::spec_content_type()),
                        match default_charset {
                            Some(c) => Some(c@),
                            None => None,
                        },
                    ),
                Err(e) => e == ErrorKind::Http && list.len() >= 6554,
            },
            Err(e) => r matches Err(e2)
                && (e2 == e || (e2 == ErrorKind::Http && legacy_head_count(reader@) >= 6554)),
        },
{
    let ghost s0 = reader@;
    let mut reader = reader;
    let (status, headers) = read_response_head(&mut reader)?;
    let ce = crate::names::content_encoding();
    let coding: u8 = match crate::headers::header_get(&headers, ce.as_slice()) {
        Some(v) => {
            let b = v.as_slice();
            if b.len() == 7 && b[0] == 100u8 && b[1] == 101u8 && b[2] == 102u8 && b[3] == 108u8 && b[4] == 97u8
                && b[5] == 116u8 && b[6] == 101u8 {
                assert(b@ =~= spec_deflate());
                1
            } else if b.len() == 4 && b[0] == 103u8 && b[1] == 122u8 && b[2] == 105u8 && b[3] == 112u8 {
                assert(b@ =~= spec_gzip());
                2
            } else {
                proof {
                    if b@ == spec_deflate() {
                        assert(b@[6] == 101u8 && b@[0] == 100u8 && b@[1] == 101u8 && b@[2] == 102u8 && b@[3] == 108u8 && b@[4] == 97u8 && b@[5] == 116u8);
                    }
                    if b@ == spec_gzip() {
                        assert(b@[0] == 103u8 && b@[1] == 122u8 && b@[2] == 105u8 && b@[3] == 112u8);
                    }
                }
                0
            }
        },
        None => 0,
    };
    let charset = crate::charset::get_charset(&headers, default_charset);
    let n = reader.remaining();
    let mut raw: Vec<u8> = Vec::new();
    let ghost rest = reader@;
    reader.read_up_to(n, &mut raw);
    proof {
        assert(limited(rest, n as int) =~= rest);
        assert(raw@ =~= rest);
        match legacy_head_spec(s0) {
            Ok((st, list, r)) => {
                assert(values_of(header_entries(headers), crate::names::spec_content_encoding()) == values_of(list, crate::names::spec_content_encoding()));
                assert(values_of(header_entries(headers), crate::names::spec_content_type()) == values_of(list, crate::names::spec_content_type()));
            },
            Err(_) => {},
        }
    }
    Ok((status, headers, LegacyResponseReader { raw, coding, charset }))
}

} // verus!
