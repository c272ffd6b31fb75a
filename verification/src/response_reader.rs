//! Responses: parsing a response from the stream that follows a request, and reading its
//! body as bytes or as text.

use vstd::prelude::*;

use http::HeaderMap;

use crate::body_reader::{any_value_has, content_length_spec, decode_body, decoded, BodyReader, CompressedReader};
use crate::charset::{charset_spec, decoded_text, get_charset, lossy_utf8, Charset, decode_utf8_lossy};
use crate::chunked_reader::decode_chunked;
use crate::error::ErrorKind;
use crate::headers::{header_entries, header_map_remove, holds, values_of};
use crate::method::Method;
use crate::names;
use crate::reader::{limited, ByteReader};
use crate::response::{head_spec, parse_response_head};
use crate::text_reader::TextReader;

verus! {

/// The framing of a body that follows a head with headers `list`: the bytes of the
/// body, or the error met while reading them; or the error of a malformed
/// `Content-Length`.
pub open spec fn framed_body(list: Seq<(Seq<u8>, Seq<u8>)>, rest: Seq<u8>) -> Result<Result<Seq<u8>, ErrorKind>, ErrorKind> {
    if any_value_has(values_of(list, names::spec_transfer_encoding()), names::spec_chunked()) {
        Ok(decode_chunked(rest))
    } else {
        match content_length_spec(values_of(list, names::spec_content_length())) {
            Err(e) => Err(e),
            Ok(Some(len)) => Ok(Ok(limited(rest, len as int))),
            Ok(None) => Ok(Ok(rest)),
        }
    }
}

/// The content coding of a response to a request with `method` and headers `list`:
/// none, gzip (`Some(true)`) or deflate (`Some(false)`).
pub open spec fn coding_of(list: Seq<(Seq<u8>, Seq<u8>)>, method: Method) -> Option<bool> {
    let named = |enc: Seq<u8>| any_value_has(values_of(list, names::spec_content_encoding()), enc)
        || any_value_has(values_of(list, names::spec_transfer_encoding()), enc);
    if method != Method::Head && named(names::spec_gzip()) {
        Some(true)
    } else if method != Method::Head && named(names::spec_deflate()) {
        Some(false)
    } else {
        None
    }
}

/// The reader of a response body, which knows the character set of the body.
pub struct ResponseReader {
    inner: CompressedReader,
    charset: Charset,
}

impl ResponseReader {
    /// The reader inside is well formed.
    pub closed spec fn wf(self) -> bool {
        self.inner.wf()
    }

    /// The decoded body that the reader yields, or the error it meets.
    pub closed spec fn future(self) -> Result<Seq<u8>, ErrorKind> {
        self.inner.future()
    }

    /// The name of the character set of the body.
    pub closed spec fn charset_name(self) -> Seq<u8> {
        self.charset@
    }

    /// A reader of the body that `reader` yields, in the character set that `headers`
    /// name, else `default_charset`, else windows-1252.
    pub fn new(headers: &HeaderMap, default_charset: Option<Charset>, reader: CompressedReader) -> (r: ResponseReader)
        ensures
            r.wf() == reader.wf(),
            r.future() == reader.future(),
            r.charset_name() == charset_spec(
                values_of(header_entries(*headers), names::spec_content_type()),
                match default_charset {
                    Some(c) => Some(c@),
                    None => None,
                },
            ),
    {
        ResponseReader { inner: reader, charset: get_charset(headers, default_charset) }
    }

    /// The character set of the body.
    pub fn charset(&self) -> (r: &Charset)
        ensures
            r@ == self.charset_name(),
    {
        &self.charset
    }

    /// The body as bytes.
    pub fn bytes(self) -> (r: Result<Vec<u8>, ErrorKind>)
        requires
            self.wf(),
        ensures
            match self.future() {
                Ok(d) => r matches Ok(v) && v@ == d,
                Err(e) => r == Err::<Vec<u8>, ErrorKind>(e),
            },
    {
        let mut inner = self.inner;
        let mut buf: Vec<u8> = Vec::new();
        inner.read_to_end(&mut buf)?;
        assert(buf@ =~= Seq::<u8>::empty() + buf@);
        Ok(buf)
    }

    /// The reader of the body, before the character set.
    pub closed spec fn reader(self) -> CompressedReader {
        self.inner
    }

    /// Writes the body out at the end of `out` and returns its length. When the decoder
    /// fails, the bytes it yielded before are in `out`; when the raw body cannot be read
    /// through a decoder, `out` stays as it was.
    pub fn write_to(self, out: &mut Vec<u8>) -> (r: Result<u64, ErrorKind>)
        requires
            self.wf(),
        ensures
            match self.future() {
                Ok(d) => r matches Ok(n) && n == d.len() && final(out)@ == old(out)@ + d,
                Err(e) => r == Err::<u64, ErrorKind>(e),
            },
            match self.reader().raw() {
                Ok(d) => r is Err && self.reader().decoder() is Some
                    ==> final(out)@ == old(out)@ + decoded(d, self.reader().decoder()).0,
                Err(_) => self.reader().decoder() is Some ==> final(out)@ == old(out)@,
            },
    {
        let mut inner = self.inner;
        let n = inner.read_to_end(out)?;
        let _total = out.len();
        Ok(n as u64)
    }

    /// The body as text, decoded in its character set; malformed input becomes U+FFFD.
    pub fn text(self) -> (r: Result<String, ErrorKind>)
        requires
            self.wf(),
        ensures
            match self.future() {
                Ok(d) => r matches Ok(s) && s@ == decoded_text(self.charset_name(), d),
                Err(e) => r == Err::<String, ErrorKind>(e),
            },
    {
        let charset = self.charset.clone();
        self.text_with(&charset)
    }

    /// The body as text, decoded in `charset` whatever the headers say.
    pub fn text_with(self, charset: &Charset) -> (r: Result<String, ErrorKind>)
        requires
            self.wf(),
        ensures
            match self.future() {
                Ok(d) => r matches Ok(s) && s@ == decoded_text(charset@, d),
                Err(e) => r == Err::<String, ErrorKind>(e),
            },
    {
        let bytes = self.bytes()?;
        Ok(charset.decode(bytes.as_slice()))
    }

    /// A reader of the body's text, in the body's character set, as UTF-8 bytes.
    pub fn text_reader(self) -> (r: Result<TextReader, ErrorKind>)
        requires
            self.wf(),
        ensures
            match self.future() {
                Ok(d) => r matches Ok(t) && t.rest() == vstd::utf8::encode_utf8(decoded_text(self.charset_name(), d)),
                Err(e) => r == Err::<TextReader, ErrorKind>(e),
            },
    {
        let charset = self.charset.clone();
        proof {
            assert(charset@ == self.charset@);
        }
        self.text_reader_with(&charset)
    }

    /// A reader of the body's text, in `charset`, as UTF-8 bytes.
    pub fn text_reader_with(self, charset: &Charset) -> (r: Result<TextReader, ErrorKind>)
        requires
            self.wf(),
        ensures
            match self.future() {
                Ok(d) => r matches Ok(t) && t.rest() == vstd::utf8::encode_utf8(decoded_text(charset@, d)),
                Err(e) => r == Err::<TextReader, ErrorKind>(e),
            },
    {
        let bytes = self.bytes()?;
        Ok(TextReader::new(bytes.as_slice(), charset))
    }

    /// The body as UTF-8 text, whatever the headers say; malformed input becomes U+FFFD.
    pub fn text_utf8(self) -> (r: Result<String, ErrorKind>)
        requires
            self.wf(),
        ensures
            match self.future() {
                Ok(d) => r matches Ok(s) && s@ == lossy_utf8(d)
                    && (vstd::utf8::valid_utf8(d) ==> s@ == vstd::utf8::decode_utf8(d)),
                Err(e) => r == Err::<String, ErrorKind>(e),
            },
    {
        let bytes = self.bytes()?;
        Ok(decode_utf8_lossy(bytes.as_slice()))
    }
}

/// A response returned by a server.
pub struct Response {
    status: u16,
    headers: HeaderMap,
    body: ResponseReader,
}

/// Marks the types that may implement `ResponseExt`.
pub trait Sealed {}

impl Sealed for Response {}

/// The helpers of a response.
pub trait ResponseExt: Sized + Sealed {
    /// Whether the status code is a success code.
    fn is_success(&self) -> bool;

    /// The response, or the `StatusCode` error if its status code is not a success code.
    fn error_for_status(self) -> Result<Self, ErrorKind>;

    /// The status code, the headers and the body reader.
    fn split(self) -> (u16, HeaderMap, ResponseReader);
}

impl Response {
    /// The status code.
    pub closed spec fn spec_status(self) -> u16 {
        self.status
    }

    /// The headers.
    pub closed spec fn spec_headers(self) -> HeaderMap {
        self.headers
    }

    /// The body reader.
    pub closed spec fn spec_body(self) -> ResponseReader {
        self.body
    }

    /// A response made of its parts.
    pub fn from_parts(status: u16, headers: HeaderMap, body: ResponseReader) -> (r: Response)
        ensures
            r.spec_status() == status,
            r.spec_headers() == headers,
            r.spec_body() == body,
    {
        Response { status, headers, body }
    }

    /// The status code.
    pub fn status(&self) -> (r: u16)
        ensures
            r == self.spec_status(),
    {
        self.status
    }

    /// The headers.
    pub fn headers(&self) -> (r: &HeaderMap)
        ensures
            *r == self.spec_headers(),
    {
        &self.headers
    }

    /// The body reader.
    pub fn into_body(self) -> (r: ResponseReader)
        ensures
            r == self.spec_body(),
    {
        self.body
    }

    /// The body as bytes.
    pub fn bytes(self) -> (r: Result<Vec<u8>, ErrorKind>)
        requires
            self.spec_body().wf(),
        ensures
            match self.spec_body().future() {
                Ok(d) => r matches Ok(v) && v@ == d,
                Err(e) => r == Err::<Vec<u8>, ErrorKind>(e),
            },
    {
        self.body.bytes()
    }

    /// Writes the body out at the end of `out` and returns its length. When the decoder
    /// fails, the bytes it yielded before are in `out`; when the raw body cannot be read
    /// through a decoder, `out` stays as it was.
    pub fn write_to(self, out: &mut Vec<u8>) -> (r: Result<u64, ErrorKind>)
        requires
            self.spec_body().wf(),
        ensures
            match self.spec_body().future() {
                Ok(d) => r matches Ok(n) && n == d.len() && final(out)@ == old(out)@ + d,
                Err(e) => r == Err::<u64, ErrorKind>(e),
            },
            match self.spec_body().reader().raw() {
                Ok(d) => r is Err && self.spec_body().reader().decoder() is Some
                    ==> final(out)@ == old(out)@ + decoded(d, self.spec_body().reader().decoder()).0,
                Err(_) => self.spec_body().reader().decoder() is Some ==> final(out)@ == old(out)@,
            },
    {
        self.body.write_to(out)
    }

    /// The body as text, decoded in its character set.
    pub fn text(self) -> (r: Result<String, ErrorKind>)
        requires
            self.spec_body().wf(),
        ensures
            match self.spec_body().future() {
                Ok(d) => r matches Ok(s) && s@ == decoded_text(self.spec_body().charset_name(), d),
                Err(e) => r == Err::<String, ErrorKind>(e),
            },
    {
        self.body.text()
    }

    /// The body as text, decoded in `charset`.
    pub fn text_with(self, charset: &Charset) -> (r: Result<String, ErrorKind>)
        requires
            self.spec_body().wf(),
        ensures
            match self.spec_body().future() {
                Ok(d) => r matches Ok(s) && s@ == decoded_text(charset@, d),
                Err(e) => r == Err::<String, ErrorKind>(e),
            },
    {
        self.body.text_with(charset)
    }

    /// A reader of the body's text, in the body's character set, as UTF-8 bytes.
    pub fn text_reader(self) -> (r: Result<TextReader, ErrorKind>)
        requires
            self.spec_body().wf(),
        ensures
            match self.spec_body().future() {
                Ok(d) => r matches Ok(t) && t.rest() == vstd::utf8::encode_utf8(decoded_text(self.spec_body().charset_name(), d)),
                Err(e) => r == Err::<TextReader, ErrorKind>(e),
            },
    {
        self.body.text_reader()
    }

    /// A reader of the body's text, in `charset`, as UTF-8 bytes.
    pub fn text_reader_with(self, charset: &Charset) -> (r: Result<TextReader, ErrorKind>)
        requires
            self.spec_body().wf(),
        ensures
            match self.spec_body().future() {
                Ok(d) => r matches Ok(t) && t.rest() == vstd::utf8::encode_utf8(decoded_text(charset@, d)),
                Err(e) => r == Err::<TextReader, ErrorKind>(e),
            },
    {
        self.body.text_reader_with(charset)
    }

    /// The body as UTF-8 text.
    pub fn text_utf8(self) -> (r: Result<String, ErrorKind>)
        requires
            self.spec_body().wf(),
        ensures
            match self.spec_body().future() {
                Ok(d) => r matches Ok(s) && s@ == lossy_utf8(d),
                Err(e) => r == Err::<String, ErrorKind>(e),
            },
    {
        self.body.text_utf8()
    }
}

impl ResponseExt for Response {
    fn is_success(&self) -> (r: bool)
        ensures
            r == (200 <= self.spec_status() <= 299),
    {
        200 <= self.status && self.status <= 299
    }

    fn error_for_status(self) -> (r: Result<Self, ErrorKind>)
        ensures
            if 200 <= self.spec_status() <= 299 {
                r == Ok::<Response, ErrorKind>(self)
            } else {
                r == Err::<Response, ErrorKind>(ErrorKind::StatusCode(self.spec_status()))
            },
    {
        if self.is_success() {
            Ok(self)
        } else {
            Err(ErrorKind::StatusCode(self.status))
        }
    }

    fn split(self) -> (r: (u16, HeaderMap, ResponseReader))
        ensures
            r == (self.spec_status(), self.spec_headers(), self.spec_body()),
    {
        (self.status, self.headers, self.body)
    }
}

/// Reads a response to a request with `method` from `reader`: the head, with at most
/// `max_headers` headers, then a reader of the body framed and decoded as the headers
/// say, in the character set they name, else `default_charset`. The
/// `Transfer-Encoding` header is dropped from the headers of the response. Besides the
/// errors of the head and of the framing, the error is `Http` when the header map has
/// no room, which can only happen when `max_headers` is 6554 or more.
pub fn parse_response(reader: ByteReader, method: Method, max_headers: usize, default_charset: Option<Charset>) -> (r: Result<Response, ErrorKind>)
    ensures
        match head_spec(reader@, max_headers as int) {
            Err(e) => r matches Err(e2) && (e2 == e || (e2 == ErrorKind::Http && max_headers >= 6554)),
            Ok((status, list, rest)) => match framed_body(list, rest) {
                Err(e) => r matches Err(e2) && (e2 == e || (e2 == ErrorKind::Http && max_headers >= 6554)),
                Ok(body) => match r {
                    Ok(resp) => resp.spec_status() == status
                        && resp.spec_body().wf()
                        && resp.spec_body().future() == decode_body(body, coding_of(list, method))
                        && resp.spec_body().charset_name() == charset_spec(
                            values_of(list, names::spec_content_type()),
                            match default_charset {
                                Some(c) => Some(c@),
                                None => None,
                            },
                        )
                        && (forall|n: Seq<u8>| #[trigger] values_of(header_entries(resp.spec_headers()), n) == (
                            if n == names::spec_transfer_encoding() {
                                Seq::<Seq<u8>>::empty()
                            } else {
                                values_of(list, n)
                            })),
                    Err(e) => e == ErrorKind::Http && max_headers >= 6554,
                },
            },
        },
{
    let ghost s0 = reader@;
    let mut reader = reader;
    let (status, mut headers) = parse_response_head(&mut reader, max_headers)?;
    let ghost h0 = headers;
    let body_reader = BodyReader::new(&headers, reader)?;
    let compressed = CompressedReader::new(&headers, method, body_reader);
    let response_reader = ResponseReader::new(&headers, default_charset, compressed);
    let te = names::transfer_encoding();
    header_map_remove(&mut headers, te.as_slice());
    proof {
        match head_spec(s0, max_headers as int) {
            Ok((st, list, rest)) => {
                assert(values_of(header_entries(h0), names::spec_transfer_encoding()) == values_of(list, names::spec_transfer_encoding()));
                assert(values_of(header_entries(h0), names::spec_content_length()) == values_of(list, names::spec_content_length()));
                assert(values_of(header_entries(h0), names::spec_content_encoding()) == values_of(list, names::spec_content_encoding()));
                assert(values_of(header_entries(h0), names::spec_content_type()) == values_of(list, names::spec_content_type()));
            },
            Err(_) => {},
        }
    }
    Ok(Response { status, headers, body: response_reader })
}

} // verus!
