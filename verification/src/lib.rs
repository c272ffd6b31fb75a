//! A lightweight HTTP/1.1 client library: the framing, parsing and request-writing
//! logic of the client, with contracts checked by Verus.

pub mod body;
pub mod body_reader;
pub mod buffers;
pub mod charset;
pub mod chunked;
pub mod chunked_reader;
pub mod digits;
pub mod error;
pub mod happy;
pub mod headers;
pub mod legacy;
pub mod laws;
pub mod lazy;
pub mod length_reader;
pub mod method;
pub mod multipart;
pub mod names;
pub mod proxy;
pub mod reader;
pub mod request;
pub mod response;
pub mod response_reader;
pub mod session;
pub mod streams;
pub mod text_reader;
pub mod tls;
pub mod urls;
