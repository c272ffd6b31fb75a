//! The errors of the library.

use vstd::prelude::*;

verus! {

/// Kinds of low-level stream failures.
#[derive(Debug, Clone, Copy, PartialEq, Eq, Structural)]
pub enum IoErrorKind {
    /// The stream ended before the expected data.
    UnexpectedEof,
    /// The operation did not complete in time.
    TimedOut,
    /// The data of the stream is invalid.
    InvalidData,
    /// The input of a decoder is invalid, such as a corrupt compressed body.
    InvalidInput,
    /// Another stream failure.
    Other,
}

/// Ways in which a response from a server can be malformed.
#[derive(Debug, Clone, Copy, PartialEq, Eq, Structural)]
pub enum InvalidResponseKind {
    /// A redirection response has no usable `Location` header.
    LocationHeader,
    /// The `Location` header of a redirection is not a valid URL.
    RedirectionUrl,
    /// The status line is malformed.
    StatusLine,
    /// The status code is not a number between 100 and 999.
    StatusCode,
    /// A header line is malformed, or there are too many headers.
    Header,
    /// A chunk size line of a chunked body is malformed.
    ChunkSize,
    /// A chunk of a chunked body is not followed by a line ending.
    Chunk,
    /// The `Content-Length` header is malformed or inconsistent.
    ContentLength,
}

/// Every error that the library reports.
#[derive(Debug, Clone, PartialEq, Eq)]
pub enum ErrorKind {
    /// The CONNECT method is not supported.
    ConnectNotSupported,
    /// A proxy refused to open a tunnel: its status code and up to 10 KiB of its body.
    ConnectError { status_code: u16, body: Vec<u8> },
    /// A header name or value is invalid, or a header map is full.
    Http,
    /// A stream failed.
    Io(IoErrorKind),
    /// The URL given to a request is invalid.
    InvalidBaseUrl,
    /// The URL has no host.
    InvalidUrlHost,
    /// The URL has no port and its scheme has no known default port.
    InvalidUrlPort,
    /// The response of the server is malformed.
    InvalidResponse(InvalidResponseKind),
    /// More redirections than allowed were followed.
    TooManyRedirections,
    /// The status code of the response is an error code.
    StatusCode(u16),
    /// The MIME type given to a multipart file is invalid.
    InvalidMimeType(Vec<u8>),
}

} // verus!
