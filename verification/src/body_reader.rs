//! Framing of a response body (chunked, by length, or until the connection closes) and
//! its content coding (gzip, deflate, or none).

use vstd::prelude::*;

use http::HeaderMap;

use crate::chunked_reader::{ChunkedReader, decode_chunked, trim_whitespace, trim_ws};
use crate::error::{ErrorKind, InvalidResponseKind, IoErrorKind};
use crate::headers::{header_entries, header_map_get_all, values_of};
use crate::length_reader::LengthReader;
use crate::method::Method;
use crate::names;
use crate::reader::{ByteReader, find_byte, lemma_find_byte_is, limited};

verus! {

/// The lower-case form of an ASCII letter; other bytes unchanged.
pub open spec fn ascii_lower(b: u8) -> u8 {
    if 65u8 <= b <= 90u8 {
        (b + 32) as u8
    } else {
        b
    }
}

/// `a` and `b` are equal up to the case of ASCII letters.
pub open spec fn eq_ignore_ascii_case(a: Seq<u8>, b: Seq<u8>) -> bool {
    a.len() == b.len() && forall|i: int| 0 <= i < a.len() ==> ascii_lower(#[trigger] a[i]) == ascii_lower(b[i])
}

/// One of the comma-separated items of `v`, trimmed of white space, equals `enc` up to
/// the case of ASCII letters.
pub open spec fn has_item(v: Seq<u8>, enc: Seq<u8>) -> bool
    decreases v.len(),
{
    let f = find_byte(v, 44u8);
    eq_ignore_ascii_case(trim_ws(v.take(f)), enc) || (0 <= f < v.len() && has_item(v.skip(f + 1), enc))
}

/// A header value that `HeaderValue::to_str` accepts: visible ASCII, space or tab.
pub open spec fn is_visible_ascii(v: Seq<u8>) -> bool {
    forall|i: int| 0 <= i < v.len() ==> ((32u8 <= #[trigger] v[i] && v[i] < 127u8) || v[i] == 9u8)
}

/// One of `vals` is visible ASCII and has an item equal to `enc`.
pub open spec fn any_value_has(vals: Seq<Seq<u8>>, enc: Seq<u8>) -> bool
    decreases vals.len(),
{
    vals.len() > 0 && (any_value_has(vals.drop_last(), enc) || (is_visible_ascii(vals.last()) && has_item(vals.last(), enc)))
}

/// The message uses the chunked transfer coding.
pub open spec fn is_chunked_spec(h: HeaderMap) -> bool {
    any_value_has(values_of(header_entries(h), names::spec_transfer_encoding()), names::spec_chunked())
}

/// The message names `enc` in its `Content-Encoding` or `Transfer-Encoding` headers.
pub open spec fn have_encoding_spec(h: HeaderMap, enc: Seq<u8>) -> bool {
    any_value_has(values_of(header_entries(h), names::spec_content_encoding()), enc)
        || any_value_has(values_of(header_entries(h), names::spec_transfer_encoding()), enc)
}

/// Value of a string of decimal digits, if every byte is one.
pub open spec fn dec_value(s: Seq<u8>) -> Option<int>
    decreases s.len(),
{
    if s.len() == 0 {
        Some(0)
    } else if 48u8 <= s.last() <= 57u8 {
        match dec_value(s.drop_last()) {
            Some(v) => Some(v * 10 + (s.last() - 48)),
            None => None,
        }
    } else {
        None
    }
}

/// The `u64` that a decimal number spells, with an optional leading `+`.
pub open spec fn parse_u64_spec(s: Seq<u8>) -> Option<int> {
    let digits = if s.len() > 0 && s[0] == 43u8 { s.skip(1) } else { s };
    if digits.len() > 0 && dec_value(digits) is Some && 0 <= dec_value(digits)->0 <= u64::MAX {
        dec_value(digits)
    } else {
        None
    }
}

/// The length that a `Content-Length` value gives.
pub open spec fn content_length_value(v: Seq<u8>) -> Option<int> {
    if is_visible_ascii(v) {
        parse_u64_spec(v)
    } else {
        None
    }
}

/// The length that the `Content-Length` values `vals` agree on, if any; an error if one
/// is malformed or two differ.
pub open spec fn content_length_spec(vals: Seq<Seq<u8>>) -> Result<Option<u64>, ErrorKind>
    decreases vals.len(),
{
    if vals.len() == 0 {
        Ok(None)
    } else {
        match content_length_spec(vals.drop_last()) {
            Err(e) => Err(e),
            Ok(last) => match content_length_value(vals.last()) {
                None => Err(ErrorKind::InvalidResponse(InvalidResponseKind::ContentLength)),
                Some(v) => match last {
                    None => Ok(Some(v as u64)),
                    Some(l) => if l == v {
                        Ok(Some(v as u64))
                    } else {
                        Err(ErrorKind::InvalidResponse(InvalidResponseKind::ContentLength))
                    },
                },
            },
        }
    }
}

proof fn lemma_dec_value_nonneg(s: Seq<u8>)
    ensures
        dec_value(s) matches Some(v) ==> v >= 0,
    decreases s.len(),
{
    if s.len() > 0 {
        lemma_dec_value_nonneg(s.drop_last());
    }
}

proof fn lemma_dec_value_mono(s: Seq<u8>, i: int)
    requires
        0 <= i <= s.len(),
        dec_value(s) is Some,
    ensures
        dec_value(s.take(i)) is Some,
        dec_value(s.take(i))->0 <= dec_value(s)->0,
    decreases s.len(),
{
    if i < s.len() {
        assert(s.drop_last().take(i) =~= s.take(i));
        lemma_dec_value_mono(s.drop_last(), i);
        lemma_dec_value_nonneg(s);
        lemma_dec_value_nonneg(s.drop_last());
    } else {
        assert(s.take(i) =~= s);
    }
}

/// An error among the first values is the error of all of them.
proof fn lemma_content_length_prefix_err(vs: Seq<Seq<u8>>, i: int)
    requires
        0 <= i <= vs.len(),
        content_length_spec(vs.take(i)) is Err,
    ensures
        content_length_spec(vs) == content_length_spec(vs.take(i)),
    decreases vs.len(),
{
    if i == vs.len() {
        assert(vs.take(i) =~= vs);
    } else {
        assert(vs.drop_last().take(i) =~= vs.take(i));
        lemma_content_length_prefix_err(vs.drop_last(), i);
    }
}

/// `a` and `b` are equal up to the case of ASCII letters.
pub fn eq_ignore_case(a: &[u8], b: &[u8]) -> (r: bool)
    ensures
        r == eq_ignore_ascii_case(a@, b@),
{
    if a.len() != b.len() {
        return false;
    }
    let mut i: usize = 0;
    while i < a.len()
        invariant
            a@.len() == b@.len(),
            i <= a@.len(),
            forall|j: int| 0 <= j < i ==> ascii_lower(#[trigger] a@[j]) == ascii_lower(b@[j]),
        decreases a@.len() - i,
    {
        let x = a[i];
        let y = b[i];
        let lx = if 65u8 <= x && x <= 90u8 { x + 32 } else { x };
        let ly = if 65u8 <= y && y <= 90u8 { y + 32 } else { y };
        if lx != ly {
            return false;
        }
        i = i + 1;
    }
    true
}

/// One of the comma-separated items of `value`, trimmed of white space, equals `enc`
/// up to the case of ASCII letters.
pub fn have_encoding_item_bytes(value: &[u8], enc: &[u8]) -> (r: bool)
    ensures
        r == has_item(value@, enc@),
{
    let mut rest = value;
    loop
        invariant
            has_item(value@, enc@) == has_item(rest@, enc@),
        decreases rest@.len(),
    {
        let mut f: usize = 0;
        while f < rest.len() && rest[f] != 44u8
            invariant
                f <= rest@.len(),
                forall|j: int| 0 <= j < f ==> rest@[j] != 44u8,
            decreases rest@.len() - f,
        {
            f = f + 1;
        }
        proof {
            lemma_find_byte_is(rest@, 44u8, f as int);
        }
        let item = trim_whitespace(&rest[0..f]);
        assert(rest@.subrange(0, f as int) =~= rest@.take(f as int));
        if eq_ignore_case(item, enc) {
            return true;
        }
        if f >= rest.len() {
            return false;
        }
        let ghost prev = rest@;
        rest = &rest[f + 1..rest.len()];
        assert(rest@ =~= prev.skip(f + 1));
    }
}

/// One of the comma-separated items of `value`, trimmed of white space, equals `enc`
/// up to the case of ASCII letters.
pub fn have_encoding_item(value: &str, enc: &str) -> (r: bool)
    ensures
        r == has_item(vstd::utf8::encode_utf8(value@), vstd::utf8::encode_utf8(enc@)),
{
    have_encoding_item_bytes(value.as_bytes(), enc.as_bytes())
}

/// `v` is visible ASCII, space or tab.
pub fn visible_ascii(v: &[u8]) -> (r: bool)
    ensures
        r == is_visible_ascii(v@),
{
    let mut i: usize = 0;
    while i < v.len()
        invariant
            i <= v@.len(),
            forall|j: int| 0 <= j < i ==> ((32u8 <= #[trigger] v@[j] && v@[j] < 127u8) || v@[j] == 9u8),
        decreases v@.len() - i,
    {
        if !((32u8 <= v[i] && v[i] < 127u8) || v[i] == 9u8) {
            return false;
        }
        i = i + 1;
    }
    true
}

/// One of `vals` is visible ASCII and has an item equal to `enc`.
fn any_value_has_item(vals: &Vec<Vec<u8>>, enc: &[u8]) -> (r: bool)
    ensures
        r == any_value_has(vals@.map_values(|v: Vec<u8>| v@), enc@),
{
    let ghost vs = vals@.map_values(|v: Vec<u8>| v@);
    let mut i: usize = 0;
    let mut found = false;
    while i < vals.len()
        invariant
            i <= vals@.len(),
            vs == vals@.map_values(|v: Vec<u8>| v@),
            found == any_value_has(vs.take(i as int), enc@),
        decreases vals@.len() - i,
    {
        proof {
            assert(vs.take(i + 1).drop_last() =~= vs.take(i as int));
        }
        let v = vals[i].as_slice();
        let hit = visible_ascii(v) && have_encoding_item_bytes(v, enc);
        found = found || hit;
        i = i + 1;
    }
    assert(vs.take(i as int) =~= vs);
    found
}

/// The values of the header named `name`, as sequences.
fn values(headers: &HeaderMap, name: &[u8]) -> (r: Vec<Vec<u8>>)
    requires
        crate::headers::is_header_name(name@),
    ensures
        r@.map_values(|v: Vec<u8>| v@) == values_of(header_entries(*headers), name@),
{
    let r = header_map_get_all(headers, name);
    assert(r@.map_values(|v: Vec<u8>| v@) =~= values_of(header_entries(*headers), name@));
    r
}

/// Whether the message uses the chunked transfer coding.
pub fn is_chunked(headers: &HeaderMap) -> (r: bool)
    ensures
        r == is_chunked_spec(*headers),
{
    let vals = values(headers, names::transfer_encoding().as_slice());
    any_value_has_item(&vals, names::chunked().as_slice())
}

/// Whether the `Content-Encoding` headers name `enc`.
pub fn have_encoding_content_encoding(headers: &HeaderMap, enc: &[u8]) -> (r: bool)
    ensures
        r == any_value_has(values_of(header_entries(*headers), names::spec_content_encoding()), enc@),
{
    let vals = values(headers, names::content_encoding().as_slice());
    any_value_has_item(&vals, enc)
}

/// Whether the `Transfer-Encoding` headers name `enc`.
pub fn have_encoding_transfer_encoding(headers: &HeaderMap, enc: &[u8]) -> (r: bool)
    ensures
        r == any_value_has(values_of(header_entries(*headers), names::spec_transfer_encoding()), enc@),
{
    let vals = values(headers, names::transfer_encoding().as_slice());
    any_value_has_item(&vals, enc)
}

/// Whether the message names `enc` in its `Content-Encoding` or `Transfer-Encoding`
/// headers.
pub fn have_encoding(headers: &HeaderMap, enc: &[u8]) -> (r: bool)
    ensures
        r == have_encoding_spec(*headers, enc@),
{
    have_encoding_content_encoding(headers, enc) || have_encoding_transfer_encoding(headers, enc)
}

/// Parses a `Content-Length` value.
pub fn parse_content_length(val: &[u8]) -> (r: Result<u64, ErrorKind>)
    ensures
        match content_length_value(val@) {
            Some(v) => r == Ok::<u64, ErrorKind>(v as u64),
            None => r == Err::<u64, ErrorKind>(ErrorKind::InvalidResponse(InvalidResponseKind::ContentLength)),
        },
{
    if !visible_ascii(val) {
        return Err(ErrorKind::InvalidResponse(InvalidResponseKind::ContentLength));
    }
    let mut start: usize = 0;
    if val.len() > 0 && val[0] == 43u8 {
        start = 1;
    }
    let ghost digits = val@.skip(start as int);
    proof {
        assert(val@.skip(0) =~= val@);
    }
    if start >= val.len() {
        return Err(ErrorKind::InvalidResponse(InvalidResponseKind::ContentLength));
    }
    let mut value: u64 = 0;
    let mut i: usize = start;
    while i < val.len()
        invariant
            start <= i <= val@.len(),
            start < val@.len(),
            digits == val@.skip(start as int),
            digits == (if val@.len() > 0 && val@[0] == 43u8 { val@.skip(1) } else { val@ }),
            is_visible_ascii(val@),
            dec_value(val@.subrange(start as int, i as int)) == Some(value as int),
        decreases val@.len() - i,
    {
        let b = val[i];
        proof {
            assert(val@.subrange(start as int, i + 1).drop_last() =~= val@.subrange(start as int, i as int));
            assert(val@.subrange(start as int, i + 1) =~= digits.take(i + 1 - start));
        }
        if !(48u8 <= b && b <= 57u8) {
            proof {
                if dec_value(digits) is Some {
                    lemma_dec_value_mono(digits, i + 1 - start);
                }
            }
            return Err(ErrorKind::InvalidResponse(InvalidResponseKind::ContentLength));
        }
        match value.checked_mul(10) {
            Some(v10) => match v10.checked_add((b - 48u8) as u64) {
                Some(v) => {
                    value = v;
                },
                None => {
                    proof {
                        if dec_value(digits) is Some {
                            lemma_dec_value_mono(digits, i + 1 - start);
                        }
                    }
                    return Err(ErrorKind::InvalidResponse(InvalidResponseKind::ContentLength));
                },
            },
            None => {
                proof {
                    if dec_value(digits) is Some {
                        lemma_dec_value_mono(digits, i + 1 - start);
                    }
                }
                return Err(ErrorKind::InvalidResponse(InvalidResponseKind::ContentLength));
            },
        }
        i = i + 1;
    }
    assert(val@.subrange(start as int, val@.len() as int) =~= digits);
    Ok(value)
}

/// The length that the `Content-Length` headers agree on, if there is one; an error if
/// one of them is malformed or two differ.
pub fn is_content_length(headers: &HeaderMap) -> (r: Result<Option<u64>, ErrorKind>)
    ensures
        r == content_length_spec(values_of(header_entries(*headers), names::spec_content_length())),
{
    let vals = values(headers, names::content_length().as_slice());
    let ghost vs = vals@.map_values(|v: Vec<u8>| v@);
    let mut last: Option<u64> = None;
    let mut i: usize = 0;
    while i < vals.len()
        invariant
            i <= vals@.len(),
            vs == vals@.map_values(|v: Vec<u8>| v@),
            vs == values_of(header_entries(*headers), names::spec_content_length()),
            content_length_spec(vs.take(i as int)) == Ok::<Option<u64>, ErrorKind>(last),
        decreases vals@.len() - i,
    {
        proof {
            assert(vs.take(i + 1).drop_last() =~= vs.take(i as int));
        }
        let val = match parse_content_length(vals[i].as_slice()) {
            Ok(v) => v,
            Err(e) => {
                proof {
                    lemma_content_length_prefix_err(vs, i + 1);
                }
                return Err(e);
            },
        };
        last = match last {
            None => Some(val),
            Some(l) => {
                if l == val {
                    Some(val)
                } else {
                    proof {
                        lemma_content_length_prefix_err(vs, i + 1);
                    }
                    return Err(ErrorKind::InvalidResponse(InvalidResponseKind::ContentLength));
                }
            },
        };
        i = i + 1;
    }
    assert(vs.take(i as int) =~= vs);
    Ok(last)
}

/// A reader of a response body, framed by the chunked coding, by a length, or by the
/// end of the connection.
pub enum BodyReader {
    Chunked(ChunkedReader),
    Length(LengthReader),
    Close(ByteReader),
}

impl BodyReader {
    /// The reader inside is well formed.
    pub open spec fn wf(self) -> bool {
        match self {
            BodyReader::Chunked(r) => r.wf(),
            BodyReader::Length(r) => r.wf(),
            BodyReader::Close(_) => true,
        }
    }

    /// The bytes of the body that the reader will still yield, or the error it meets.
    pub open spec fn future(self) -> Result<Seq<u8>, ErrorKind> {
        match self {
            BodyReader::Chunked(r) => r.future(),
            BodyReader::Length(r) => Ok(r.rest()),
            BodyReader::Close(r) => Ok(r@),
        }
    }

    /// A reader of the body that `reader` holds, framed as `headers` say: chunked if the
    /// `Transfer-Encoding` says so, else by the agreed `Content-Length`, else until the
    /// end of the stream.
    pub fn new(headers: &HeaderMap, reader: ByteReader) -> (r: Result<BodyReader, ErrorKind>)
        ensures
            if is_chunked_spec(*headers) {
                r matches Ok(b) && b is Chunked && b.wf() && b.future() == decode_chunked(reader@)
            } else {
                match content_length_spec(values_of(header_entries(*headers), names::spec_content_length())) {
                    Err(e) => r == Err::<BodyReader, ErrorKind>(e),
                    Ok(Some(len)) => r matches Ok(b) && b is Length && b.wf()
                        && b.future() == Ok::<Seq<u8>, ErrorKind>(limited(reader@, len as int)),
                    Ok(None) => r matches Ok(b) && b is Close && b.future() == Ok::<Seq<u8>, ErrorKind>(reader@),
                }
            },
    {
        if is_chunked(headers) {
            Ok(BodyReader::Chunked(ChunkedReader::new(reader)))
        } else {
            match is_content_length(headers)? {
                Some(len) => Ok(BodyReader::Length(LengthReader::new(reader, len))),
                None => Ok(BodyReader::Close(reader)),
            }
        }
    }

    /// Reads the rest of the body to the end of `out`; returns how many bytes it added.
    pub fn read_to_end(&mut self, out: &mut Vec<u8>) -> (r: Result<usize, ErrorKind>)
        requires
            old(self).wf(),
        ensures
            final(self).wf(),
            match old(self).future() {
                Ok(d) => r == Ok::<usize, ErrorKind>(d.len() as usize) && final(out)@ == old(out)@ + d,
                Err(e) => r == Err::<usize, ErrorKind>(e),
            },
    {
        match self {
            BodyReader::Chunked(r) => r.read_to_end(out),
            BodyReader::Length(r) => Ok(r.read_to_end(out)),
            BodyReader::Close(r) => {
                let n = r.remaining();
                let ghost s0 = r@;
                let k = r.read_up_to(n, out);
                assert(limited(s0, n as int) =~= s0);
                Ok(k)
            },
        }
    }
}

/// What reading `flate2::bufread::GzDecoder` over `data` to its end gives: the bytes it
/// yields, then the kind of the error that stops it, if one does.
pub uninterp spec fn gunzip(data: Seq<u8>) -> (Seq<u8>, Option<IoErrorKind>);

/// What reading `flate2::bufread::DeflateDecoder` over `data` to its end gives: the
/// bytes it yields, then the kind of the error that stops it, if one does.
pub uninterp spec fn inflate(data: Seq<u8>) -> (Seq<u8>, Option<IoErrorKind>);

/// Reads `data` to its end through `flate2::bufread::GzDecoder`. `read_to_end` keeps
/// the bytes read before an error; the error's kind is taken as the library names it.
#[verifier::external_body]
fn gzip_decode(data: &[u8]) -> (r: (Vec<u8>, Option<IoErrorKind>))
    ensures
        (r.0@, r.1) == gunzip(data@),
{
    let mut out = Vec::new();
    let err = std::io::Read::read_to_end(&mut flate2::bufread::GzDecoder::new(data), &mut out).err().map(|e| match e.kind() {
        std::io::ErrorKind::InvalidInput => IoErrorKind::InvalidInput,
        std::io::ErrorKind::InvalidData => IoErrorKind::InvalidData,
        std::io::ErrorKind::UnexpectedEof => IoErrorKind::UnexpectedEof,
        _ => IoErrorKind::Other,
    });
    (out, err)
}

/// Reads `data` to its end through `flate2::bufread::DeflateDecoder`. `read_to_end`
/// keeps the bytes read before an error; the error's kind is taken as the library
/// names it.
#[verifier::external_body]
fn deflate_decode(data: &[u8]) -> (r: (Vec<u8>, Option<IoErrorKind>))
    ensures
        (r.0@, r.1) == inflate(data@),
{
    let mut out = Vec::new();
    let err = std::io::Read::read_to_end(&mut flate2::bufread::DeflateDecoder::new(data), &mut out).err().map(|e| match e.kind() {
        std::io::ErrorKind::InvalidInput => IoErrorKind::InvalidInput,
        std::io::ErrorKind::InvalidData => IoErrorKind::InvalidData,
        std::io::ErrorKind::UnexpectedEof => IoErrorKind::UnexpectedEof,
        _ => IoErrorKind::Other,
    });
    (out, err)
}

/// A response body with its content coding.
pub enum CompressedReader {
    Plain(BodyReader),
    Deflate(BodyReader),
    Gzip(BodyReader),
}

/// The content coding that a response to a request with `method` and headers `h` is
/// read with: none for HEAD, else gzip if named, else deflate if named, else none.
pub open spec fn coding_spec(h: HeaderMap, method: Method) -> int {
    if method != Method::Head && have_encoding_spec(h, names::spec_gzip()) {
        2
    } else if method != Method::Head && have_encoding_spec(h, names::spec_deflate()) {
        1
    } else {
        0
    }
}

/// What the decoder `decoder` (gzip for `Some(true)`, deflate for `Some(false)`) gives
/// for `d`: the bytes it yields and the kind of the error that stops it, if any.
pub open spec fn decoded(d: Seq<u8>, decoder: Option<bool>) -> (Seq<u8>, Option<IoErrorKind>) {
    match decoder {
        None => (d, None),
        Some(is_gzip) => if is_gzip { gunzip(d) } else { inflate(d) },
    }
}

/// `body` decoded: as it is, or through a decoder, whose error is the body's error.
pub open spec fn decode_body(body: Result<Seq<u8>, ErrorKind>, decoder: Option<bool>) -> Result<Seq<u8>, ErrorKind> {
    match body {
        Err(e) => Err(e),
        Ok(d) => match decoded(d, decoder).1 {
            None => Ok(decoded(d, decoder).0),
            Some(k) => Err(ErrorKind::Io(k)),
        },
    }
}

impl CompressedReader {
    pub open spec fn wf(self) -> bool {
        match self {
            CompressedReader::Plain(b) => b.wf(),
            CompressedReader::Deflate(b) => b.wf(),
            CompressedReader::Gzip(b) => b.wf(),
        }
    }

    /// The raw body, before decoding, or the error met reading it.
    pub open spec fn raw(self) -> Result<Seq<u8>, ErrorKind> {
        match self {
            CompressedReader::Plain(b) => b.future(),
            CompressedReader::Deflate(b) => b.future(),
            CompressedReader::Gzip(b) => b.future(),
        }
    }

    /// The decoder the body is read through.
    pub open spec fn decoder(self) -> Option<bool> {
        match self {
            CompressedReader::Plain(_) => None,
            CompressedReader::Deflate(_) => Some(false),
            CompressedReader::Gzip(_) => Some(true),
        }
    }

    /// The decoded body that the reader yields, or the error it meets.
    pub open spec fn future(self) -> Result<Seq<u8>, ErrorKind> {
        match self {
            CompressedReader::Plain(b) => decode_body(b.future(), None),
            CompressedReader::Deflate(b) => decode_body(b.future(), Some(false)),
            CompressedReader::Gzip(b) => decode_body(b.future(), Some(true)),
        }
    }

    /// The reader of the body of a response to a request with `method`, decoded as the
    /// headers say; the body of a response to HEAD is read as it is.
    pub fn new(headers: &HeaderMap, method: Method, reader: BodyReader) -> (r: CompressedReader)
        ensures
            r == (if coding_spec(*headers, method) == 2 {
                CompressedReader::Gzip(reader)
            } else if coding_spec(*headers, method) == 1 {
                CompressedReader::Deflate(reader)
            } else {
                CompressedReader::Plain(reader)
            }),
    {
        if !matches!(method, Method::Head) {
            if have_encoding(headers, names::gzip().as_slice()) {
                return CompressedReader::Gzip(reader);
            }
            if have_encoding(headers, names::deflate().as_slice()) {
                return CompressedReader::Deflate(reader);
            }
        }
        CompressedReader::Plain(reader)
    }

    /// Reads and decodes the rest of the body to the end of `out`; returns how many
    /// bytes it added. When the decoder fails, the bytes it yielded before the failure
    /// are in `out`; when the raw body cannot be read, `out` stays as it was.
    pub fn read_to_end(&mut self, out: &mut Vec<u8>) -> (r: Result<usize, ErrorKind>)
        requires
            old(self).wf(),
        ensures
            match old(self).future() {
                Ok(d) => r == Ok::<usize, ErrorKind>(d.len() as usize) && final(out)@ == old(out)@ + d,
                Err(e) => r == Err::<usize, ErrorKind>(e),
            },
            match old(self).raw() {
                Ok(d) => r is Err && old(self).decoder() is Some
                    ==> final(out)@ == old(out)@ + decoded(d, old(self).decoder()).0,
                Err(_) => old(self).decoder() is Some ==> final(out)@ == old(out)@,
            },
    {
        match self {
            CompressedReader::Plain(b) => b.read_to_end(out),
            CompressedReader::Deflate(b) => {
                let mut raw: Vec<u8> = Vec::new();
                b.read_to_end(&mut raw)?;
                assert(raw@ =~= Seq::<u8>::empty() + raw@);
                let (mut v, err) = deflate_decode(raw.as_slice());
                let n = v.len();
                out.append(&mut v);
                match err {
                    None => Ok(n),
                    Some(k) => Err(ErrorKind::Io(k)),
                }
            },
            CompressedReader::Gzip(b) => {
                let mut raw: Vec<u8> = Vec::new();
                b.read_to_end(&mut raw)?;
                assert(raw@ =~= Seq::<u8>::empty() + raw@);
                let (mut v, err) = gzip_decode(raw.as_slice());
                let n = v.len();
                out.append(&mut v);
                match err {
                    None => Ok(n),
                    Some(k) => Err(ErrorKind::Io(k)),
                }
            },
        }
    }
}

} // verus!
