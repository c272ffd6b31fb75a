//! Requests: the settings of a request, building and preparing it, writing it out, and
//! the decisions taken between the attempts of a request (proxy, `Host`, redirections).

use vstd::prelude::*;

use std::time::Duration;

use http::HeaderMap;

use crate::body::{chunk_encode, write_chunked, Body, BodyKind, Bytes, Empty, Text};
use crate::charset::{decode_utf8_lossy, lossy_utf8, Charset};
use crate::digits::{dec_bytes, dec_digits, write_dec};
use crate::error::{ErrorKind, InvalidResponseKind};
use crate::headers::{
    header_append, header_entries, header_get, header_insert, header_insert_if_missing, header_map_iter,
    has_room, header_map_new, header_name_spec, header_value_byte, is_header_name, is_header_value, values_of,
};
use crate::method::{method_name, Method};
use crate::names;
use crate::proxy::{opt_url, spec_http, ProxySettings};
use crate::reader::slice_to_vec;
use crate::tls::Certificate;
use crate::urls::{joined_url, parsed_url, Url, UrlError, UrlParts};

verus! {

/// What `Duration::from_secs` returns for `n`: a span of `n` whole seconds.
pub uninterp spec fn duration_from_secs(n: u64) -> Duration;

/// Calls `Duration::from_secs`, which builds the span of `n` seconds from `n` alone.
#[verifier::external_body]
fn seconds(n: u64) -> (r: Duration)
    ensures
        r == duration_from_secs(n),
{
    Duration::from_secs(n)
}

/// The base64 digit of `v`, for `v < 64`.
pub open spec fn b64_digit(v: int) -> u8 {
    if v < 26 {
        (65 + v) as u8
    } else if v < 52 {
        (71 + v) as u8
    } else if v < 62 {
        (v - 4) as u8
    } else if v == 62 {
        43u8
    } else {
        47u8
    }
}

/// `s` in base64 with the standard alphabet and `=` padding, on one line.
pub open spec fn base64_spec(s: Seq<u8>) -> Seq<u8>
    decreases s.len(),
{
    let a = s[0] as int;
    let b = if s.len() > 1 { s[1] as int } else { 0 };
    let c = if s.len() > 2 { s[2] as int } else { 0 };
    if s.len() == 0 {
        Seq::empty()
    } else if s.len() == 1 {
        seq![b64_digit(a / 4), b64_digit((a % 4) * 16), 61u8, 61u8]
    } else if s.len() == 2 {
        seq![b64_digit(a / 4), b64_digit((a % 4) * 16 + b / 16), b64_digit((b % 16) * 4), 61u8]
    } else {
        seq![b64_digit(a / 4), b64_digit((a % 4) * 16 + b / 16), b64_digit((b % 16) * 4 + c / 64), b64_digit(c % 64)]
            + base64_spec(s.skip(3))
    }
}

/// Base64 text is made of printable bytes, so `Basic ` followed by it is a header value.
proof fn lemma_base64_header_value(s: Seq<u8>)
    ensures
        is_header_value(names::spec_basic() + base64_spec(s)),
    decreases s.len(),
{
    let b = base64_spec(s);
    assert forall|v: int| 0 <= v < 64 implies header_value_byte(#[trigger] b64_digit(v)) by {}
    if s.len() > 2 {
        lemma_base64_header_value(s.skip(3));
        let rest = base64_spec(s.skip(3));
        assert forall|i: int| 0 <= i < rest.len() implies header_value_byte(#[trigger] rest[i]) by {
            assert((names::spec_basic() + rest)[i + 6] == rest[i]);
        }
    }
    let v = names::spec_basic() + b;
    assert forall|i: int| 0 <= i < v.len() implies header_value_byte(#[trigger] v[i]) by {
        if i >= 6 {
            assert(v[i] == b[i - 6]);
        }
    }
}

/// A decimal numeral is a header value.
proof fn lemma_dec_header_value(n: nat)
    ensures
        is_header_value(dec_digits(n)),
    decreases n,
{
    if n >= 10 {
        lemma_dec_header_value(n / 10);
        let d = dec_digits(n / 10);
        let v = dec_digits(n);
        assert forall|i: int| 0 <= i < v.len() implies header_value_byte(#[trigger] v[i]) by {
            if i < d.len() {
                assert(v[i] == d[i]);
            }
        }
    }
}

/// The fixed values that building and preparing a request set are header values.
proof fn lemma_prepared_constants()
    ensures
        is_header_value(names::spec_close()),
        is_header_value(names::spec_gzip_deflate()),
        is_header_value(names::spec_chunked()),
        is_header_value(names::spec_any_type()),
        is_header_value(names::spec_default_user_agent()),
        is_header_value(names::spec_text_plain_utf8()),
        is_header_value(names::spec_octet_stream()),
        is_header_value(names::spec_json_utf8()),
        is_header_value(names::spec_form_urlencoded()),
{
    let f = names::spec_text_plain_utf8();
    assert forall|i: int| 0 <= i < f.len() implies header_value_byte(#[trigger] f[i]) by {}
    let g = names::spec_octet_stream();
    assert forall|i: int| 0 <= i < g.len() implies header_value_byte(#[trigger] g[i]) by {}
    let h = names::spec_json_utf8();
    assert forall|i: int| 0 <= i < h.len() implies header_value_byte(#[trigger] h[i]) by {}
    let k = names::spec_form_urlencoded();
    assert forall|i: int| 0 <= i < k.len() implies header_value_byte(#[trigger] k[i]) by {}
    let a = names::spec_close();
    assert forall|i: int| 0 <= i < a.len() implies header_value_byte(#[trigger] a[i]) by {}
    let b = names::spec_gzip_deflate();
    assert forall|i: int| 0 <= i < b.len() implies header_value_byte(#[trigger] b[i]) by {}
    let c = names::spec_chunked();
    assert forall|i: int| 0 <= i < c.len() implies header_value_byte(#[trigger] c[i]) by {}
    let d = names::spec_any_type();
    assert forall|i: int| 0 <= i < d.len() implies header_value_byte(#[trigger] d[i]) by {}
    let e = names::spec_default_user_agent();
    assert forall|i: int| 0 <= i < e.len() implies header_value_byte(#[trigger] e[i]) by {}
}

/// Calls `openssl::base64::encode_block` (`EVP_EncodeBlock`): standard base64 with
/// padding and no line breaks. It panics when the length, or the encoded length plus one
/// (`4 * ceil(len / 3) + 1`), does not fit a C `int`; 1,610,612,733 bytes is the longest
/// input for which neither happens, which the bound rules out.
#[verifier::external_body]
fn base64_outside(src: &[u8]) -> (r: Vec<u8>)
    requires
        src@.len() <= 1_610_612_733,
    ensures
        r@ == base64_spec(src@),
{
    openssl::base64::encode_block(src).into_bytes()
}

/// Appends `b` to `out`.
pub fn append_bytes(out: &mut Vec<u8>, b: &[u8])
    ensures
        final(out)@ == old(out)@ + b@,
{
    let mut v = slice_to_vec(b);
    out.append(&mut v);
}

/// The settings of a request.
pub struct BaseSettings {
    pub headers: HeaderMap,
    pub root_certificates: Vec<Certificate>,
    pub max_headers: usize,
    pub max_redirections: u32,
    pub follow_redirects: bool,
    pub connect_timeout: Duration,
    pub read_timeout: Duration,
    pub timeout: Option<Duration>,
    pub proxy_settings: ProxySettings,
    pub accept_invalid_certs: bool,
    pub accept_invalid_hostnames: bool,
    pub default_charset: Option<Charset>,
    pub allow_compression: bool,
}

/// `s` holds the default settings with the proxy settings `proxy_settings`.
pub open spec fn default_settings(s: BaseSettings, proxy_settings: ProxySettings) -> bool {
    &&& header_entries(s.headers) == Seq::<(Seq<u8>, Seq<u8>)>::empty()
    &&& s.root_certificates@.len() == 0
    &&& s.max_headers == 100
    &&& s.max_redirections == 5
    &&& s.follow_redirects
    &&& s.connect_timeout == duration_from_secs(30)
    &&& s.read_timeout == duration_from_secs(30)
    &&& s.timeout is None
    &&& s.proxy_settings == proxy_settings
    &&& !s.accept_invalid_certs
    &&& !s.accept_invalid_hostnames
    &&& s.default_charset is None
    &&& s.allow_compression
}

impl BaseSettings {
    /// The default settings with the given proxy settings: no headers, at most 100
    /// response headers, redirections followed up to 5 times, 30 seconds to connect and
    /// to read, no overall timeout, certificates checked, no default character set,
    /// compression allowed.
    pub fn new(proxy_settings: ProxySettings) -> (r: BaseSettings)
        ensures
            default_settings(r, proxy_settings),
    {
        BaseSettings {
            headers: header_map_new(),
            root_certificates: Vec::new(),
            max_headers: 100,
            max_redirections: 5,
            follow_redirects: true,
            connect_timeout: seconds(30),
            read_timeout: seconds(30),
            timeout: None,
            proxy_settings,
            accept_invalid_certs: false,
            accept_invalid_hostnames: false,
            default_charset: None,
            allow_compression: true,
        }
    }
}

impl BaseSettings {
    /// A copy of the settings.
    pub fn duplicate(&self) -> (r: BaseSettings)
        ensures
            header_entries(r.headers) == header_entries(self.headers),
            r.root_certificates@.len() == self.root_certificates@.len(),
            forall|i: int| 0 <= i < r.root_certificates@.len()
                ==> (#[trigger] r.root_certificates@[i]).spec_der() == self.root_certificates@[i].spec_der(),
            r.max_headers == self.max_headers,
            r.max_redirections == self.max_redirections,
            r.follow_redirects == self.follow_redirects,
            r.connect_timeout == self.connect_timeout,
            r.read_timeout == self.read_timeout,
            r.timeout == self.timeout,
            r.proxy_settings.spec_http_proxy() == self.proxy_settings.spec_http_proxy(),
            r.proxy_settings.spec_https_proxy() == self.proxy_settings.spec_https_proxy(),
            r.proxy_settings.spec_disabled() == self.proxy_settings.spec_disabled(),
            r.proxy_settings.spec_no_proxy() == self.proxy_settings.spec_no_proxy(),
            r.accept_invalid_certs == self.accept_invalid_certs,
            r.accept_invalid_hostnames == self.accept_invalid_hostnames,
            (match r.default_charset {
                Some(c) => Some(c@),
                None => None,
            }) == (match self.default_charset {
                Some(c) => Some(c@),
                None => None,
            }),
            r.allow_compression == self.allow_compression,
    {
        let mut certs: Vec<Certificate> = Vec::new();
        let mut i: usize = 0;
        while i < self.root_certificates.len()
            invariant
                i <= self.root_certificates@.len(),
                certs@.len() == i,
                forall|j: int| 0 <= j < i ==> (#[trigger] certs@[j]).spec_der() == self.root_certificates@[j].spec_der(),
            decreases self.root_certificates@.len() - i,
        {
            let c = self.root_certificates[i].clone();
            certs.push(c);
            i = i + 1;
        }
        let default_charset = match &self.default_charset {
            Some(c) => Some(c.clone()),
            None => None,
        };
        BaseSettings {
            headers: crate::headers::header_map_clone(&self.headers),
            root_certificates: certs,
            max_headers: self.max_headers,
            max_redirections: self.max_redirections,
            follow_redirects: self.follow_redirects,
            connect_timeout: self.connect_timeout,
            read_timeout: self.read_timeout,
            timeout: self.timeout,
            proxy_settings: self.proxy_settings.duplicate(),
            accept_invalid_certs: self.accept_invalid_certs,
            accept_invalid_hostnames: self.accept_invalid_hostnames,
            default_charset,
            allow_compression: self.allow_compression,
        }
    }
}

/// `n` is one of the status codes that redirect: 301, 302, 303, 307, 308.
pub open spec fn is_redirect(n: u16) -> bool {
    n == 301 || n == 302 || n == 303 || n == 307 || n == 308
}

/// The value of the `Host` header for a URL with host `host` and port `port`.
pub open spec fn host_value(host: Seq<u8>, port: Option<u16>) -> Seq<u8> {
    match port {
        Some(p) => host + seq![58u8] + dec_digits(p as nat),
        None => host,
    }
}

/// The target of a request line: the whole URL when it goes through a proxy in plain
/// HTTP, else the path and the query.
pub open spec fn request_target(url: UrlParts, proxied: bool) -> Seq<u8> {
    if proxied {
        url.0
    } else {
        match url.5 {
            Some(q) => url.4 + seq![63u8] + q,
            None => url.4,
        }
    }
}

/// The request line.
pub open spec fn request_line(method: Method, url: UrlParts, proxied: bool) -> Seq<u8> {
    method_name(method) + seq![32u8] + request_target(url, proxied) + seq![32u8] + names::spec_http_version() + seq![13u8, 10u8]
}

/// Each header as `name: value` and a line ending.
pub open spec fn header_lines(entries: Seq<(Seq<u8>, Seq<u8>)>) -> Seq<u8>
    decreases entries.len(),
{
    if entries.len() == 0 {
        Seq::empty()
    } else {
        header_lines(entries.drop_last()) + entries.last().0 + seq![58u8, 32u8] + entries.last().1 + seq![13u8, 10u8]
    }
}

/// The head of a request: the request line, the headers and an empty line.
pub open spec fn request_head(method: Method, url: UrlParts, proxied: bool, headers: HeaderMap) -> Seq<u8> {
    request_line(method, url, proxied) + header_lines(header_entries(headers)) + seq![13u8, 10u8]
}

/// Where a redirection leads from `previous`: the `Location` value `location` read as
/// UTF-8 (malformed input replaced) and parsed as a URL; if it is relative, resolved
/// against `previous`.
pub open spec fn redirect_url(location: Seq<u8>, previous: UrlParts) -> Result<UrlParts, ErrorKind> {
    let loc = lossy_utf8(location);
    match parsed_url(loc) {
        Ok(u) => Ok(u),
        Err(true) => match joined_url(previous, loc) {
            Ok(u) => Ok(u),
            Err(_) => Err(ErrorKind::InvalidResponse(InvalidResponseKind::RedirectionUrl)),
        },
        Err(false) => Err(ErrorKind::InvalidResponse(InvalidResponseKind::RedirectionUrl)),
    }
}

/// The values that a prepared request has for the header named `n`, given the values
/// `old` that the builder set, whether compression is allowed, how the body's size is
/// announced and the content type that the body calls for.
pub open spec fn prepared_values(n: Seq<u8>, old: Seq<Seq<u8>>, compress: bool, kind: BodyKind, content_type: Option<Seq<u8>>) -> Seq<Seq<u8>> {
    if n == names::spec_connection() {
        seq![names::spec_close()]
    } else if n == names::spec_accept_encoding() && compress {
        seq![names::spec_gzip_deflate()]
    } else if n == names::spec_content_length() && kind is KnownLength {
        seq![dec_digits(kind->KnownLength_0 as nat)]
    } else if n == names::spec_transfer_encoding() && kind is Chunked {
        seq![names::spec_chunked()]
    } else if n == names::spec_content_type() && content_type is Some {
        seq![content_type->0]
    } else if n == names::spec_accept() && old.len() == 0 {
        seq![names::spec_any_type()]
    } else if n == names::spec_user_agent() && old.len() == 0 {
        seq![names::spec_default_user_agent()]
    } else {
        old
    }
}

/// Writes every header of `headers` as `name: value` and a line ending, then an empty
/// line.
pub fn write_headers(headers: &HeaderMap, out: &mut Vec<u8>)
    ensures
        final(out)@ == old(out)@ + header_lines(header_entries(*headers)) + seq![13u8, 10u8],
{
    let entries = header_map_iter(headers);
    let ghost start = out@;
    let ghost es = header_entries(*headers);
    let mut i: usize = 0;
    while i < entries.len()
        invariant
            i <= entries@.len(),
            entries@.len() == es.len(),
            es == header_entries(*headers),
            forall|j: int| 0 <= j < entries@.len() ==> (#[trigger] entries@[j]).0@ == es[j].0 && entries@[j].1@ == es[j].1,
            out@ == start + header_lines(es.take(i as int)),
        decreases entries@.len() - i,
    {
        let (name, value) = &entries[i];
        append_bytes(out, name.as_slice());
        out.push(58u8);
        out.push(32u8);
        append_bytes(out, value.as_slice());
        out.push(13u8);
        out.push(10u8);
        proof {
            let t = es.take(i + 1);
            assert(t.drop_last() =~= es.take(i as int));
            assert(t.last() == es[i as int]);
            assert(out@ =~= start + header_lines(t));
        }
        i = i + 1;
    }
    out.push(13u8);
    out.push(10u8);
    assert(es.take(i as int) =~= es);
}

/// Sets the `Host` header for a request to `url`: its host, and its port if the URL
/// names one. The error is `InvalidUrlHost` if the URL has no host, `Http` if the value
/// is not a valid header value or the map has no room (it has room below 6554 values).
pub fn set_host(headers: &mut HeaderMap, url: &Url) -> (r: Result<(), ErrorKind>)
    ensures
        match url@.2 {
            None => r == Err::<(), ErrorKind>(ErrorKind::InvalidUrlHost) && *final(headers) == *old(headers),
            Some(h) => {
                let v = host_value(h, url@.3);
                &&& r is Ok ==> values_of(header_entries(*final(headers)), names::spec_host()) == seq![v]
                    && forall|n: Seq<u8>| n != names::spec_host() ==> #[trigger] values_of(header_entries(*final(headers)), n)
                        == values_of(header_entries(*old(headers)), n)
                &&& r is Err ==> r == Err::<(), ErrorKind>(ErrorKind::Http) && header_entries(*final(headers)) == header_entries(*old(headers))
                &&& !is_header_value(v) ==> r is Err
                &&& is_header_value(v) && has_room(*old(headers)) ==> r is Ok
            },
        },
{
    let host = match url.host() {
        Some(h) => h,
        None => return Err(ErrorKind::InvalidUrlHost),
    };
    let mut value = slice_to_vec(host);
    if let Some(port) = url.port() {
        value.push(58u8);
        write_dec(port as u64, &mut value);
    }
    assert(value@ =~= host_value(host@, url@.3));
    let name = names::host();
    header_insert(headers, name.as_slice(), value.as_slice())
}

/// The URL that a redirection with `Location` value `location` leads to from
/// `previous`.
pub fn base_redirect_url(location: &[u8], previous: &Url) -> (r: Result<Url, ErrorKind>)
    ensures
        match redirect_url(location@, previous@) {
            Ok(u) => r matches Ok(v) && v@ == u,
            Err(e) => r == Err::<Url, ErrorKind>(e),
        },
{
    let loc = decode_utf8_lossy(location);
    match Url::parse(loc.as_str()) {
        Ok(url) => Ok(url),
        Err(UrlError::RelativeWithoutBase) => match previous.join(loc.as_str()) {
            Ok(url) => Ok(url),
            Err(_) => Err(ErrorKind::InvalidResponse(InvalidResponseKind::RedirectionUrl)),
        },
        Err(UrlError::Invalid) => Err(ErrorKind::InvalidResponse(InvalidResponseKind::RedirectionUrl)),
    }
}

/// A request that is ready to be sent.
pub struct PreparedRequest<B> {
    url: Url,
    method: Method,
    body: B,
    base_settings: BaseSettings,
}

impl<B: Body> PreparedRequest<B> {
    /// The URL of the request.
    pub closed spec fn spec_url(self) -> UrlParts {
        self.url@
    }

    /// The method of the request.
    pub closed spec fn spec_method(self) -> Method {
        self.method
    }

    /// The body of the request.
    pub closed spec fn spec_body(self) -> B {
        self.body
    }

    /// The settings of the request.
    pub closed spec fn spec_settings(self) -> BaseSettings {
        self.base_settings
    }

    /// The URL of the request.
    pub fn url(&self) -> (r: &Url)
        ensures
            r@ == self.spec_url(),
    {
        &self.url
    }

    /// The method of the request.
    pub fn method(&self) -> (r: &Method)
        ensures
            *r == self.spec_method(),
    {
        &self.method
    }

    /// The body of the request.
    pub fn body(&self) -> (r: &B)
        ensures
            *r == self.spec_body(),
    {
        &self.body
    }

    /// The headers of the request.
    pub fn headers(&self) -> (r: &HeaderMap)
        ensures
            *r == self.spec_settings().headers,
    {
        &self.base_settings.headers
    }

    /// The settings of the request.
    pub fn settings(&self) -> (r: &BaseSettings)
        ensures
            *r == self.spec_settings(),
    {
        &self.base_settings
    }

    /// Writes the request to `url` out at the end of `out`: the request line (with the
    /// whole URL as target when the request goes through `proxy` in plain HTTP), the
    /// headers, an empty line, then the body: as it is when its length is known, in
    /// chunked encoding when it is not.
    pub fn write_request(&mut self, out: &mut Vec<u8>, url: &Url, proxy: Option<&Url>) -> (r: Result<(), ErrorKind>)
        ensures
            final(self).spec_url() == old(self).spec_url(),
            final(self).spec_method() == old(self).spec_method(),
            final(self).spec_settings() == old(self).spec_settings(),
            ({
                let head = request_head(old(self).spec_method(), url@, proxy is Some && url@.1 == spec_http(), old(self).spec_settings().headers);
                let content = old(self).spec_body().content();
                match old(self).spec_body().spec_kind() {
                    Err(e) => r == Err::<(), ErrorKind>(e) && final(out)@ == old(out)@ + head,
                    Ok(BodyKind::Empty) => r is Ok && final(out)@ == old(out)@ + head,
                    Ok(BodyKind::KnownLength(_)) => (r is Ok ==> final(out)@ == old(out)@ + head + content)
                        && final(out)@.len() >= (old(out)@ + head).len()
                        && final(out)@.subrange(0, (old(out)@ + head).len() as int) == old(out)@ + head,
                    Ok(BodyKind::Chunked) => (r is Ok ==> final(out)@ == old(out)@ + head + chunk_encode(content))
                        && (r is Err ==> final(out)@ == old(out)@ + head),
                }
            }),
    {
        let ghost start = out@;
        let proxied = match proxy {
            Some(_) => {
                let s = url.scheme();
                let h = s.len() == 4 && s[0] == 104u8 && s[1] == 116u8 && s[2] == 116u8 && s[3] == 112u8;
                proof {
                    if h {
                        assert(s@ =~= spec_http());
                    } else if s@ == spec_http() {
                        assert(s@[0] == 104u8 && s@[1] == 116u8 && s@[2] == 116u8 && s@[3] == 112u8);
                    }
                }
                h
            },
            None => false,
        };
        let m = self.method.as_bytes();
        append_bytes(out, m.as_slice());
        out.push(32u8);
        if proxied {
            append_bytes(out, url.as_bytes());
        } else {
            append_bytes(out, url.path());
            match url.query() {
                Some(q) => {
                    out.push(63u8);
                    append_bytes(out, q);
                },
                None => {},
            }
        }
        out.push(32u8);
        let v = names::http_version();
        append_bytes(out, v.as_slice());
        out.push(13u8);
        out.push(10u8);
        let ghost line_end = out@;
        assert(line_end =~= start + request_line(self.method, url@, proxied));
        write_headers(&self.base_settings.headers, out);
        let ghost head = request_head(self.method, url@, proxied, self.base_settings.headers);
        assert(out@ =~= start + head);
        let ghost content = self.body.content();
        match self.body.kind()? {
            BodyKind::Empty => {
                Ok(())
            },
            BodyKind::KnownLength(_) => {
                self.body.write(out)?;
                assert(out@ =~= start + head + content);
                Ok(())
            },
            BodyKind::Chunked => {
                let mut tmp: Vec<u8> = Vec::new();
                self.body.write(&mut tmp)?;
                assert(tmp@ =~= content);
                write_chunked(tmp.as_slice(), out);
                assert(out@ =~= start + head + chunk_encode(content));
                Ok(())
            },
        }
    }

    /// Chooses the proxy for an attempt of the request to `url` and sets the `Host`
    /// header: the proxy's host when the request goes through the proxy in plain HTTP,
    /// else the URL's host. Returns the proxy.
    pub fn route(&mut self, url: &Url) -> (r: Result<Option<Url>, ErrorKind>)
        ensures
            final(self).spec_url() == old(self).spec_url(),
            final(self).spec_method() == old(self).spec_method(),
            final(self).spec_body() == old(self).spec_body(),
            final(self).spec_settings().proxy_settings == old(self).spec_settings().proxy_settings,
            final(self).spec_settings().max_headers == old(self).spec_settings().max_headers,
            final(self).spec_settings().max_redirections == old(self).spec_settings().max_redirections,
            final(self).spec_settings().follow_redirects == old(self).spec_settings().follow_redirects,
            final(self).spec_settings().default_charset == old(self).spec_settings().default_charset,
            ({
                let proxy = old(self).spec_settings().proxy_settings.proxy_for(url@.1, url@.2);
                let target = match proxy {
                    Some(p) => if url@.1 == spec_http() { p } else { url@ },
                    None => url@,
                };
                let old_h = old(self).spec_settings().headers;
                let new_h = final(self).spec_settings().headers;
                match target.2 {
                    None => r == Err::<Option<Url>, ErrorKind>(ErrorKind::InvalidUrlHost) && new_h == old_h,
                    Some(h) => {
                        &&& r matches Ok(p) ==> opt_url(p) == proxy
                            && values_of(header_entries(new_h), names::spec_host()) == seq![host_value(h, target.3)]
                            && forall|n: Seq<u8>| n != names::spec_host() ==> #[trigger] values_of(header_entries(new_h), n)
                                == values_of(header_entries(old_h), n)
                        &&& r is Err ==> r == Err::<Option<Url>, ErrorKind>(ErrorKind::Http) && header_entries(new_h) == header_entries(old_h)
                        &&& is_header_value(host_value(h, target.3)) && has_room(old_h) ==> r is Ok
                    },
                }
            }),
    {
        let proxy = self.base_settings.proxy_settings.for_url(url);
        let s = url.scheme();
        let is_http = s.len() == 4 && s[0] == 104u8 && s[1] == 116u8 && s[2] == 116u8 && s[3] == 112u8;
        proof {
            if is_http {
                assert(s@ =~= spec_http());
            } else if s@ == spec_http() {
                assert(s@[0] == 104u8 && s@[1] == 116u8 && s@[2] == 116u8 && s@[3] == 112u8);
            }
        }
        match &proxy {
            Some(p) => {
                if is_http {
                    set_host(&mut self.base_settings.headers, p)?;
                } else {
                    set_host(&mut self.base_settings.headers, url)?;
                }
            },
            None => {
                set_host(&mut self.base_settings.headers, url)?;
            },
        }
        Ok(proxy)
    }

    /// Decides what follows a response with status `status` and headers `headers` to
    /// the attempt at `url`, after `redirections` redirections: `None` to return the
    /// response, a URL to follow a redirection to, or an error.
    pub fn next_redirect(&self, status: u16, headers: &HeaderMap, redirections: &mut u32, url: &Url) -> (r: Result<Option<Url>, ErrorKind>)
        ensures
            ({
                let s = self.spec_settings();
                let count = *old(redirections) + 1;
                if !s.follow_redirects || !is_redirect(status) {
                    r == Ok::<Option<Url>, ErrorKind>(None) && *final(redirections) == *old(redirections)
                } else if count > s.max_redirections {
                    r == Err::<Option<Url>, ErrorKind>(ErrorKind::TooManyRedirections)
                } else {
                    let locs = values_of(header_entries(*headers), names::spec_location());
                    &&& *final(redirections) == count
                    &&& if locs.len() == 0 {
                        r == Err::<Option<Url>, ErrorKind>(ErrorKind::InvalidResponse(InvalidResponseKind::LocationHeader))
                    } else {
                        match redirect_url(locs[0], url@) {
                            Ok(u) => r matches Ok(Some(v)) && v@ == u,
                            Err(e) => r == Err::<Option<Url>, ErrorKind>(e),
                        }
                    }
                }
            }),
            r matches Ok(Some(_)) ==> *final(redirections) == *old(redirections) + 1
                && *final(redirections) <= self.spec_settings().max_redirections,
    {
        let redirect = status == 301 || status == 302 || status == 303 || status == 307 || status == 308;
        if !self.base_settings.follow_redirects || !redirect {
            return Ok(None);
        }
        if *redirections >= self.base_settings.max_redirections {
            return Err(ErrorKind::TooManyRedirections);
        }
        *redirections = *redirections + 1;
        let name = names::location();
        let location = match header_get(headers, name.as_slice()) {
            Some(v) => v,
            None => return Err(ErrorKind::InvalidResponse(InvalidResponseKind::LocationHeader)),
        };
        let next = base_redirect_url(location.as_slice(), url)?;
        Ok(Some(next))
    }
}

/// `new` holds the headers of `old`, with `ct` as the `Content-Type` if `old` has none.
pub open spec fn typed_headers(old: HeaderMap, new: HeaderMap, ct: Seq<u8>) -> bool {
    let before = values_of(header_entries(old), names::spec_content_type());
    &&& values_of(header_entries(new), names::spec_content_type()) == (if before.len() == 0 {
        seq![ct]
    } else {
        before
    })
    &&& forall|n: Seq<u8>| n != names::spec_content_type() ==> #[trigger] values_of(header_entries(new), n)
        == values_of(header_entries(old), n)
}

/// Builds a request.
pub struct RequestBuilder<B> {
    url: Url,
    method: Method,
    body: B,
    base_settings: BaseSettings,
}

impl RequestBuilder<Empty> {
    /// A builder of a request with `method` to `base_url`, with default settings and the
    /// given proxy settings. The error is `InvalidBaseUrl` if the URL is invalid, else
    /// `ConnectNotSupported` if the method is CONNECT.
    pub fn try_new(method: Method, base_url: &str, proxy_settings: ProxySettings) -> (r: Result<RequestBuilder<Empty>, ErrorKind>)
        ensures
            match parsed_url(base_url@) {
                Err(_) => r == Err::<RequestBuilder<Empty>, ErrorKind>(ErrorKind::InvalidBaseUrl),
                Ok(u) => if method == Method::Connect {
                    r == Err::<RequestBuilder<Empty>, ErrorKind>(ErrorKind::ConnectNotSupported)
                } else {
                    r matches Ok(b) && b.spec_url() == u && b.spec_method() == method
                        && header_entries(b.spec_settings().headers) == Seq::<(Seq<u8>, Seq<u8>)>::empty()
                        && b.spec_settings().max_headers == 100 && b.spec_settings().max_redirections == 5
                        && b.spec_settings().follow_redirects && b.spec_settings().allow_compression
                        && !b.spec_settings().accept_invalid_certs && !b.spec_settings().accept_invalid_hostnames
                        && b.spec_settings().proxy_settings == proxy_settings
                },
            },
    {
        Self::try_with_settings(method, base_url, BaseSettings::new(proxy_settings))
    }

    /// A builder of a request with `method` to `base_url` and the given settings.
    pub fn try_with_settings(method: Method, base_url: &str, base_settings: BaseSettings) -> (r: Result<RequestBuilder<Empty>, ErrorKind>)
        ensures
            match parsed_url(base_url@) {
                Err(_) => r == Err::<RequestBuilder<Empty>, ErrorKind>(ErrorKind::InvalidBaseUrl),
                Ok(u) => if method == Method::Connect {
                    r == Err::<RequestBuilder<Empty>, ErrorKind>(ErrorKind::ConnectNotSupported)
                } else {
                    r matches Ok(b) && b.spec_url() == u && b.spec_method() == method && b.spec_settings() == base_settings
                },
            },
    {
        let url = match Url::parse(base_url) {
            Ok(u) => u,
            Err(_) => return Err(ErrorKind::InvalidBaseUrl),
        };
        if matches!(method, Method::Connect) {
            return Err(ErrorKind::ConnectNotSupported);
        }
        Ok(RequestBuilder { url, method, body: Empty, base_settings })
    }
}

impl<B> RequestBuilder<B> {
    /// The URL of the request.
    pub closed spec fn spec_url(self) -> UrlParts {
        self.url@
    }

    /// The method of the request.
    pub closed spec fn spec_method(self) -> Method {
        self.method
    }

    /// The body of the request.
    pub closed spec fn spec_body(self) -> B {
        self.body
    }

    /// The settings of the request.
    pub closed spec fn spec_settings(self) -> BaseSettings {
        self.base_settings
    }

    /// The current URL.
    pub fn url(&self) -> (r: &Url)
        ensures
            r@ == self.spec_url(),
    {
        &self.url
    }

    /// The current method.
    pub fn method(&self) -> (r: &Method)
        ensures
            *r == self.spec_method(),
    {
        &self.method
    }

    /// The current body.
    pub fn body_ref(&self) -> (r: &B)
        ensures
            *r == self.spec_body(),
    {
        &self.body
    }

    /// The current headers.
    pub fn headers(&self) -> (r: &HeaderMap)
        ensures
            *r == self.spec_settings().headers,
    {
        &self.base_settings.headers
    }

    /// The current settings.
    pub fn settings(&self) -> (r: &BaseSettings)
        ensures
            *r == self.spec_settings(),
    {
        &self.base_settings
    }

    /// Adds the query parameter `key=value` to the URL; a key may be used several times.
    pub fn param(self, key: &str, value: &str) -> (r: Self)
        ensures
            r.spec_url() == crate::urls::url_with_pair(self.spec_url(), key@, value@),
            r.spec_url().5 == Some(crate::urls::query_with_pair(self.spec_url().5, key@, value@)),
            r.spec_url().1 == self.spec_url().1,
            r.spec_url().2 == self.spec_url().2,
            r.spec_url().3 == self.spec_url().3,
            r.spec_url().4 == self.spec_url().4,
            r.spec_method() == self.spec_method(),
            r.spec_body() == self.spec_body(),
            r.spec_settings() == self.spec_settings(),
    {
        let mut s = self;
        s.url.append_pair(key, value);
        s
    }

    /// Adds the query parameters of `pairs`, in order.
    pub fn params(self, pairs: &[(&str, &str)]) -> (r: Self)
        ensures
            r.spec_url() == pairs@.fold_left(self.spec_url(), |u: UrlParts, p: (&str, &str)| crate::urls::url_with_pair(u, p.0@, p.1@)),
            r.spec_url().5 == crate::urls::query_with_pairs(self.spec_url().5, pairs@.map_values(|p: (&str, &str)| (p.0@, p.1@))),
            r.spec_url().1 == self.spec_url().1,
            r.spec_url().2 == self.spec_url().2,
            r.spec_url().3 == self.spec_url().3,
            r.spec_url().4 == self.spec_url().4,
            r.spec_method() == self.spec_method(),
            r.spec_body() == self.spec_body(),
            r.spec_settings() == self.spec_settings(),
    {
        let mut s = self;
        let mut i: usize = 0;
        while i < pairs.len()
            invariant
                i <= pairs@.len(),
                s.spec_url() == pairs@.take(i as int).fold_left(self.spec_url(), |u: UrlParts, p: (&str, &str)| crate::urls::url_with_pair(u, p.0@, p.1@)),
                s.spec_url().5 == crate::urls::query_with_pairs(self.spec_url().5, pairs@.take(i as int).map_values(|p: (&str, &str)| (p.0@, p.1@))),
                s.spec_url().1 == self.spec_url().1,
                s.spec_url().2 == self.spec_url().2,
                s.spec_url().3 == self.spec_url().3,
                s.spec_url().4 == self.spec_url().4,
                s.spec_method() == self.spec_method(),
                s.spec_body() == self.spec_body(),
                s.spec_settings() == self.spec_settings(),
            decreases pairs@.len() - i,
        {
            let (k, v) = pairs[i];
            s = s.param(k, v);
            proof {
                let f = |u: UrlParts, p: (&str, &str)| crate::urls::url_with_pair(u, p.0@, p.1@);
                assert(pairs@.take(i + 1).drop_last() =~= pairs@.take(i as int));
                let g = |p: (&str, &str)| (p.0@, p.1@);
                assert(pairs@.take(i + 1).map_values(g).drop_last() =~= pairs@.take(i as int).map_values(g));
                assert(pairs@.take(i + 1).map_values(g).last() == (k@, v@));
            }
            i = i + 1;
        }
        assert(pairs@.take(i as int) =~= pairs@);
        assert(pairs@.take(i as int).map_values(|p: (&str, &str)| (p.0@, p.1@)) =~= pairs@.map_values(|p: (&str, &str)| (p.0@, p.1@)));
        s
    }

    /// Sets `value` as the only value of the header named `header` (case does not
    /// matter). The error is `Http` if the name or the value is invalid, or the map has
    /// no room.
    pub fn try_header(self, header: &[u8], value: &[u8]) -> (r: Result<Self, ErrorKind>)
        ensures
            match header_name_spec(header@) {
                None => r == Err::<Self, ErrorKind>(ErrorKind::Http),
                Some(n) => match r {
                    Ok(b) => is_header_value(value@)
                        && values_of(header_entries(b.spec_settings().headers), n) == seq![value@]
                        && (forall|m: Seq<u8>| m != n ==> #[trigger] values_of(header_entries(b.spec_settings().headers), m)
                            == values_of(header_entries(self.spec_settings().headers), m))
                        && b.spec_url() == self.spec_url() && b.spec_method() == self.spec_method()
                        && b.spec_body() == self.spec_body()
                        && b.spec_settings() == (BaseSettings { headers: b.spec_settings().headers, ..self.spec_settings() }),
                    Err(e) => e == ErrorKind::Http,
                },
            },
            header_name_spec(header@) is Some && is_header_value(value@) && has_room(self.spec_settings().headers)
                ==> r is Ok,
    {
        let name = match crate::headers::header_name_from_bytes(header) {
            Some(n) => n,
            None => return Err(ErrorKind::Http),
        };
        proof {
            crate::headers::lemma_normalized_is_name(header@);
        }
        let mut s = self;
        header_insert(&mut s.base_settings.headers, name.as_slice(), value)?;
        Ok(s)
    }

    /// Adds `value` after the values of the header named `header` (case does not
    /// matter). The error is `Http` if the name or the value is invalid, or the map has
    /// no room.
    pub fn try_header_append(self, header: &[u8], value: &[u8]) -> (r: Result<Self, ErrorKind>)
        ensures
            match header_name_spec(header@) {
                None => r == Err::<Self, ErrorKind>(ErrorKind::Http),
                Some(n) => match r {
                    Ok(b) => is_header_value(value@)
                        && values_of(header_entries(b.spec_settings().headers), n)
                            == values_of(header_entries(self.spec_settings().headers), n).push(value@)
                        && (forall|m: Seq<u8>| m != n ==> #[trigger] values_of(header_entries(b.spec_settings().headers), m)
                            == values_of(header_entries(self.spec_settings().headers), m))
                        && b.spec_url() == self.spec_url() && b.spec_method() == self.spec_method()
                        && b.spec_body() == self.spec_body()
                        && b.spec_settings() == (BaseSettings { headers: b.spec_settings().headers, ..self.spec_settings() }),
                    Err(e) => e == ErrorKind::Http,
                },
            },
            header_name_spec(header@) is Some && is_header_value(value@) && has_room(self.spec_settings().headers)
                ==> r is Ok,
    {
        let name = match crate::headers::header_name_from_bytes(header) {
            Some(n) => n,
            None => return Err(ErrorKind::Http),
        };
        proof {
            crate::headers::lemma_normalized_is_name(header@);
        }
        let mut s = self;
        header_append(&mut s.base_settings.headers, name.as_slice(), value)?;
        Ok(s)
    }

    /// Sets the `Authorization` header to `Bearer ` followed by `token`.
    pub fn try_bearer_auth(self, token: &str) -> (r: Result<Self, ErrorKind>)
        ensures
            ({
                let v = names::spec_bearer() + vstd::utf8::encode_utf8(token@);
                match r {
                    Ok(b) => is_header_value(v)
                        && values_of(header_entries(b.spec_settings().headers), names::spec_authorization()) == seq![v]
                        && b.spec_url() == self.spec_url() && b.spec_method() == self.spec_method()
                        && b.spec_body() == self.spec_body()
                        && b.spec_settings() == (BaseSettings { headers: b.spec_settings().headers, ..self.spec_settings() }),
                    Err(e) => e == ErrorKind::Http,
                }
            }),
            is_header_value(names::spec_bearer() + vstd::utf8::encode_utf8(token@))
                && has_room(self.spec_settings().headers) ==> r is Ok,
    {
        let mut value = names::bearer();
        append_bytes(&mut value, token.as_bytes());
        let name = names::authorization();
        proof {
            assert(header_name_spec(name@) == Some(name@));
        }
        self.try_header(name.as_slice(), value.as_slice())
    }

    /// Sets the `Authorization` header to `Basic ` followed by `username:password` (or
    /// `username:` without a password) in base64.
    pub fn try_basic_auth(self, username: &str, password: Option<&str>) -> (r: Result<Self, ErrorKind>)
        requires
            vstd::utf8::encode_utf8(username@).len() + (match password {
                Some(p) => vstd::utf8::encode_utf8(p@).len() as int,
                None => 0,
            }) <= 1_610_612_732,
        ensures
            ({
                let creds = vstd::utf8::encode_utf8(username@) + seq![58u8] + match password {
                    Some(p) => vstd::utf8::encode_utf8(p@),
                    None => Seq::<u8>::empty(),
                };
                let v = names::spec_basic() + base64_spec(creds);
                match r {
                    Ok(b) => is_header_value(v)
                        && values_of(header_entries(b.spec_settings().headers), names::spec_authorization()) == seq![v]
                        && b.spec_url() == self.spec_url() && b.spec_method() == self.spec_method()
                        && b.spec_body() == self.spec_body()
                        && b.spec_settings() == (BaseSettings { headers: b.spec_settings().headers, ..self.spec_settings() }),
                    Err(e) => e == ErrorKind::Http,
                }
            }),
            has_room(self.spec_settings().headers) ==> r is Ok,
    {
        let mut creds = slice_to_vec(username.as_bytes());
        creds.push(58u8);
        match password {
            Some(p) => append_bytes(&mut creds, p.as_bytes()),
            None => {},
        }
        assert(creds@ =~= vstd::utf8::encode_utf8(username@) + seq![58u8] + match password {
            Some(p) => vstd::utf8::encode_utf8(p@),
            None => Seq::<u8>::empty(),
        });
        let encoded = base64_outside(creds.as_slice());
        proof {
            lemma_base64_header_value(creds@);
        }
        let mut value = names::basic();
        append_bytes(&mut value, encoded.as_slice());
        assert(value@ =~= names::spec_basic() + base64_spec(creds@));
        let name = names::authorization();
        proof {
            assert(header_name_spec(name@) == Some(name@));
        }
        self.try_header(name.as_slice(), value.as_slice())
    }

    /// Sets `value` as the only value of the header named `header` (case does not
    /// matter).
    pub fn header(self, header: &[u8], value: &[u8]) -> (r: Self)
        requires
            header_name_spec(header@) is Some,
            is_header_value(value@),
            has_room(self.spec_settings().headers),
        ensures
            values_of(header_entries(r.spec_settings().headers), header_name_spec(header@)->0) == seq![value@],
            forall|m: Seq<u8>| m != header_name_spec(header@)->0
                ==> #[trigger] values_of(header_entries(r.spec_settings().headers), m)
                    == values_of(header_entries(self.spec_settings().headers), m),
            r.spec_url() == self.spec_url(),
            r.spec_method() == self.spec_method(),
            r.spec_body() == self.spec_body(),
            r.spec_settings() == (BaseSettings { headers: r.spec_settings().headers, ..self.spec_settings() }),
    {
        match self.try_header(header, value) {
            Ok(b) => b,
            Err(_) => vstd::pervasive::unreached(),
        }
    }

    /// Adds `value` after the values of the header named `header` (case does not
    /// matter).
    pub fn header_append(self, header: &[u8], value: &[u8]) -> (r: Self)
        requires
            header_name_spec(header@) is Some,
            is_header_value(value@),
            has_room(self.spec_settings().headers),
        ensures
            values_of(header_entries(r.spec_settings().headers), header_name_spec(header@)->0)
                == values_of(header_entries(self.spec_settings().headers), header_name_spec(header@)->0).push(value@),
            forall|m: Seq<u8>| m != header_name_spec(header@)->0
                ==> #[trigger] values_of(header_entries(r.spec_settings().headers), m)
                    == values_of(header_entries(self.spec_settings().headers), m),
            r.spec_url() == self.spec_url(),
            r.spec_method() == self.spec_method(),
            r.spec_body() == self.spec_body(),
            r.spec_settings() == (BaseSettings { headers: r.spec_settings().headers, ..self.spec_settings() }),
    {
        match self.try_header_append(header, value) {
            Ok(b) => b,
            Err(_) => vstd::pervasive::unreached(),
        }
    }

    /// Sets the `Authorization` header to `Bearer ` followed by `token`.
    pub fn bearer_auth(self, token: &str) -> (r: Self)
        requires
            is_header_value(names::spec_bearer() + vstd::utf8::encode_utf8(token@)),
            has_room(self.spec_settings().headers),
        ensures
            values_of(header_entries(r.spec_settings().headers), names::spec_authorization())
                == seq![names::spec_bearer() + vstd::utf8::encode_utf8(token@)],
            r.spec_url() == self.spec_url(),
            r.spec_method() == self.spec_method(),
            r.spec_body() == self.spec_body(),
            r.spec_settings() == (BaseSettings { headers: r.spec_settings().headers, ..self.spec_settings() }),
    {
        match self.try_bearer_auth(token) {
            Ok(b) => b,
            Err(_) => vstd::pervasive::unreached(),
        }
    }

    /// Sets the `Authorization` header to `Basic ` followed by `username:password` (or
    /// `username:` without a password) in base64.
    pub fn basic_auth(self, username: &str, password: Option<&str>) -> (r: Self)
        requires
            vstd::utf8::encode_utf8(username@).len() + (match password {
                Some(p) => vstd::utf8::encode_utf8(p@).len() as int,
                None => 0,
            }) <= 1_610_612_732,
            has_room(self.spec_settings().headers),
        ensures
            values_of(header_entries(r.spec_settings().headers), names::spec_authorization()) == seq![
                names::spec_basic() + base64_spec(vstd::utf8::encode_utf8(username@) + seq![58u8] + match password {
                    Some(p) => vstd::utf8::encode_utf8(p@),
                    None => Seq::<u8>::empty(),
                }),
            ],
            r.spec_url() == self.spec_url(),
            r.spec_method() == self.spec_method(),
            r.spec_body() == self.spec_body(),
            r.spec_settings() == (BaseSettings { headers: r.spec_settings().headers, ..self.spec_settings() }),
    {
        match self.try_basic_auth(username, password) {
            Ok(b) => b,
            Err(_) => vstd::pervasive::unreached(),
        }
    }

    /// Replaces the body.
    pub fn body<B1: Body>(self, body: B1) -> (r: RequestBuilder<B1>)
        ensures
            r.spec_url() == self.spec_url(),
            r.spec_method() == self.spec_method(),
            r.spec_body() == body,
            r.spec_settings() == self.spec_settings(),
    {
        RequestBuilder { url: self.url, method: self.method, body, base_settings: self.base_settings }
    }

    /// Sets `value` as the `Content-Type` if the builder has none.
    fn default_content_type(self, value: &[u8]) -> (r: Self)
        requires
            is_header_value(value@),
            has_room(self.spec_settings().headers),
        ensures
            r.spec_url() == self.spec_url(),
            r.spec_method() == self.spec_method(),
            r.spec_body() == self.spec_body(),
            r.spec_settings() == (BaseSettings { headers: r.spec_settings().headers, ..self.spec_settings() }),
            typed_headers(self.spec_settings().headers, r.spec_settings().headers, value@),
    {
        let mut s = self;
        let name = names::content_type();
        let _ = header_insert_if_missing(&mut s.base_settings.headers, name.as_slice(), value);
        s
    }

    /// Sets a text body; the `Content-Type` becomes `text/plain; charset=utf-8` if unset.
    pub fn text(self, body: String) -> (r: RequestBuilder<Text>)
        requires
            has_room(self.spec_settings().headers),
        ensures
            r.spec_url() == self.spec_url(),
            r.spec_method() == self.spec_method(),
            r.spec_body().0@ == body@,
            r.spec_settings() == (BaseSettings { headers: r.spec_settings().headers, ..self.spec_settings() }),
            typed_headers(self.spec_settings().headers, r.spec_settings().headers, names::spec_text_plain_utf8()),
    {
        proof {
            lemma_prepared_constants();
        }
        let ct = names::text_plain_utf8();
        let s = self.default_content_type(ct.as_slice());
        s.body(Text(body))
    }

    /// Sets a binary body; the `Content-Type` becomes `application/octet-stream` if unset.
    pub fn bytes(self, body: Vec<u8>) -> (r: RequestBuilder<Bytes>)
        requires
            has_room(self.spec_settings().headers),
        ensures
            r.spec_url() == self.spec_url(),
            r.spec_method() == self.spec_method(),
            r.spec_body().0@ == body@,
            r.spec_settings() == (BaseSettings { headers: r.spec_settings().headers, ..self.spec_settings() }),
            typed_headers(self.spec_settings().headers, r.spec_settings().headers, names::spec_octet_stream()),
    {
        proof {
            lemma_prepared_constants();
        }
        let ct = names::octet_stream();
        let s = self.default_content_type(ct.as_slice());
        s.body(Bytes(body))
    }

    /// Sets a body of JSON already serialized; the `Content-Type` becomes
    /// `application/json; charset=utf-8` if unset.
    pub fn json_bytes(self, body: Vec<u8>) -> (r: RequestBuilder<Bytes>)
        requires
            has_room(self.spec_settings().headers),
        ensures
            r.spec_url() == self.spec_url(),
            r.spec_method() == self.spec_method(),
            r.spec_body().0@ == body@,
            r.spec_settings() == (BaseSettings { headers: r.spec_settings().headers, ..self.spec_settings() }),
            typed_headers(self.spec_settings().headers, r.spec_settings().headers, names::spec_json_utf8()),
    {
        proof {
            lemma_prepared_constants();
        }
        let ct = names::json_utf8();
        let s = self.default_content_type(ct.as_slice());
        s.body(Bytes(body))
    }

    /// Sets a body of a form already URL-encoded; the `Content-Type` becomes
    /// `application/x-www-form-urlencoded` if unset.
    pub fn form_bytes(self, body: Vec<u8>) -> (r: RequestBuilder<Bytes>)
        requires
            has_room(self.spec_settings().headers),
        ensures
            r.spec_url() == self.spec_url(),
            r.spec_method() == self.spec_method(),
            r.spec_body().0@ == body@,
            r.spec_settings() == (BaseSettings { headers: r.spec_settings().headers, ..self.spec_settings() }),
            typed_headers(self.spec_settings().headers, r.spec_settings().headers, names::spec_form_urlencoded()),
    {
        proof {
            lemma_prepared_constants();
        }
        let ct = names::form_urlencoded();
        let s = self.default_content_type(ct.as_slice());
        s.body(Bytes(body))
    }

    /// Sets the largest number of headers accepted in the response.
    pub fn max_headers(self, max_headers: usize) -> (r: Self)
        ensures
            r.spec_settings() == (BaseSettings { max_headers, ..self.spec_settings() }),
            r.spec_url() == self.spec_url() && r.spec_method() == self.spec_method() && r.spec_body() == self.spec_body(),
    {
        let mut s = self;
        s.base_settings.max_headers = max_headers;
        s
    }

    /// Sets the largest number of redirections followed.
    pub fn max_redirections(self, max_redirections: u32) -> (r: Self)
        ensures
            r.spec_settings() == (BaseSettings { max_redirections, ..self.spec_settings() }),
            r.spec_url() == self.spec_url() && r.spec_method() == self.spec_method() && r.spec_body() == self.spec_body(),
    {
        let mut s = self;
        s.base_settings.max_redirections = max_redirections;
        s
    }

    /// Sets whether redirections are followed.
    pub fn follow_redirects(self, follow_redirects: bool) -> (r: Self)
        ensures
            r.spec_settings() == (BaseSettings { follow_redirects, ..self.spec_settings() }),
            r.spec_url() == self.spec_url() && r.spec_method() == self.spec_method() && r.spec_body() == self.spec_body(),
    {
        let mut s = self;
        s.base_settings.follow_redirects = follow_redirects;
        s
    }

    /// Sets the time allowed to connect.
    pub fn connect_timeout(self, connect_timeout: Duration) -> (r: Self)
        ensures
            r.spec_settings() == (BaseSettings { connect_timeout, ..self.spec_settings() }),
            r.spec_url() == self.spec_url() && r.spec_method() == self.spec_method() && r.spec_body() == self.spec_body(),
    {
        let mut s = self;
        s.base_settings.connect_timeout = connect_timeout;
        s
    }

    /// Sets the time allowed for each read.
    pub fn read_timeout(self, read_timeout: Duration) -> (r: Self)
        ensures
            r.spec_settings() == (BaseSettings { read_timeout, ..self.spec_settings() }),
            r.spec_url() == self.spec_url() && r.spec_method() == self.spec_method() && r.spec_body() == self.spec_body(),
    {
        let mut s = self;
        s.base_settings.read_timeout = read_timeout;
        s
    }

    /// Sets the time allowed for the whole request, once connected.
    pub fn timeout(self, timeout: Duration) -> (r: Self)
        ensures
            r.spec_settings() == (BaseSettings { timeout: Some(timeout), ..self.spec_settings() }),
            r.spec_url() == self.spec_url() && r.spec_method() == self.spec_method() && r.spec_body() == self.spec_body(),
    {
        let mut s = self;
        s.base_settings.timeout = Some(timeout);
        s
    }

    /// Sets the proxy settings.
    pub fn proxy_settings(self, proxy_settings: ProxySettings) -> (r: Self)
        ensures
            r.spec_settings() == (BaseSettings { proxy_settings, ..self.spec_settings() }),
            r.spec_url() == self.spec_url() && r.spec_method() == self.spec_method() && r.spec_body() == self.spec_body(),
    {
        let mut s = self;
        s.base_settings.proxy_settings = proxy_settings;
        s
    }

    /// Sets the character set used for responses that name none.
    pub fn default_charset(self, default_charset: Option<Charset>) -> (r: Self)
        ensures
            r.spec_settings() == (BaseSettings { default_charset, ..self.spec_settings() }),
            r.spec_url() == self.spec_url() && r.spec_method() == self.spec_method() && r.spec_body() == self.spec_body(),
    {
        let mut s = self;
        s.base_settings.default_charset = default_charset;
        s
    }

    /// Sets whether the request announces that it accepts compressed responses.
    pub fn allow_compression(self, allow_compression: bool) -> (r: Self)
        ensures
            r.spec_settings() == (BaseSettings { allow_compression, ..self.spec_settings() }),
            r.spec_url() == self.spec_url() && r.spec_method() == self.spec_method() && r.spec_body() == self.spec_body(),
    {
        let mut s = self;
        s.base_settings.allow_compression = allow_compression;
        s
    }

    /// Sets whether invalid certificates are accepted.
    pub fn danger_accept_invalid_certs(self, accept_invalid_certs: bool) -> (r: Self)
        ensures
            r.spec_settings() == (BaseSettings { accept_invalid_certs, ..self.spec_settings() }),
            r.spec_url() == self.spec_url() && r.spec_method() == self.spec_method() && r.spec_body() == self.spec_body(),
    {
        let mut s = self;
        s.base_settings.accept_invalid_certs = accept_invalid_certs;
        s
    }

    /// Sets whether a certificate for another host name is accepted.
    pub fn danger_accept_invalid_hostnames(self, accept_invalid_hostnames: bool) -> (r: Self)
        ensures
            r.spec_settings() == (BaseSettings { accept_invalid_hostnames, ..self.spec_settings() }),
            r.spec_url() == self.spec_url() && r.spec_method() == self.spec_method() && r.spec_body() == self.spec_body(),
    {
        let mut s = self;
        s.base_settings.accept_invalid_hostnames = accept_invalid_hostnames;
        s
    }

    /// Adds a root certificate to trust.
    pub fn add_root_certificate(self, cert: Certificate) -> (r: Self)
        ensures
            r.spec_settings().root_certificates@ == self.spec_settings().root_certificates@.push(cert),
            r.spec_settings().headers == self.spec_settings().headers,
            r.spec_url() == self.spec_url() && r.spec_method() == self.spec_method() && r.spec_body() == self.spec_body(),
    {
        let mut s = self;
        s.base_settings.root_certificates.push(cert);
        s
    }
}

impl<B: Body> RequestBuilder<B> {
    /// `p` is this request prepared: the same URL, method, body and limits, and the
    /// headers that preparing sets (see `prepared_values`).
    pub open spec fn prepares_to(self, p: PreparedRequest<B>) -> bool {
        &&& p.spec_url() == self.spec_url()
        &&& p.spec_method() == self.spec_method()
        &&& p.spec_body().content() == self.spec_body().content()
        &&& p.spec_settings().max_headers == self.spec_settings().max_headers
        &&& p.spec_settings().follow_redirects == self.spec_settings().follow_redirects
        &&& p.spec_settings().max_redirections == self.spec_settings().max_redirections
        &&& p.spec_settings().accept_invalid_certs == self.spec_settings().accept_invalid_certs
        &&& p.spec_settings().accept_invalid_hostnames == self.spec_settings().accept_invalid_hostnames
        &&& self.spec_body().spec_kind() matches Ok(kind)
        &&& self.spec_body().spec_content_type() matches Ok(ct)
        &&& forall|n: Seq<u8>| #[trigger] values_of(header_entries(p.spec_settings().headers), n)
            == prepared_values(n, values_of(header_entries(self.spec_settings().headers), n),
                self.spec_settings().allow_compression, kind, ct)
    }

    /// The prepared request, as `try_prepare` makes it, for a request whose preparing
    /// cannot fail.
    pub fn prepare(self) -> (r: PreparedRequest<B>)
        requires
            self.spec_body().describable(),
            header_entries(self.spec_settings().headers).len() < 6548,
            self.spec_body().spec_kind() is Ok,
            self.spec_body().spec_content_type() matches Ok(ct) && (ct matches Some(t) ==> is_header_value(t)),
        ensures
            self.prepares_to(r),
    {
        match self.try_prepare() {
            Ok(p) => p,
            Err(_) => vstd::pervasive::unreached(),
        }
    }

    /// The prepared request: `Connection: close`; `Accept-Encoding: gzip, deflate` if
    /// compression is allowed; `Content-Length` or `Transfer-Encoding: chunked` as the
    /// body's size calls for; the body's content type if it names one; `Accept: */*`
    /// and the default `User-Agent` unless set. Preparing succeeds when the body's size
    /// and content type are known, the content type is a valid header value, and the
    /// map holds fewer than 6548 values.
    pub fn try_prepare(self) -> (r: Result<PreparedRequest<B>, ErrorKind>)
        requires
            self.spec_body().describable(),
        ensures
            match r {
                Ok(p) => self.prepares_to(p),
                Err(e) => e == ErrorKind::Http
                    || self.spec_body().spec_kind() == Err::<BodyKind, ErrorKind>(e)
                    || self.spec_body().spec_content_type() == Err::<Option<Seq<u8>>, ErrorKind>(e),
            },
            header_entries(self.spec_settings().headers).len() < 6548
                && self.spec_body().spec_kind() is Ok
                && (self.spec_body().spec_content_type() matches Ok(ct) && (ct matches Some(t) ==> is_header_value(t)))
                ==> r is Ok,
    {
        proof {
            lemma_prepared_constants();
        }
        let mut prepped = PreparedRequest { url: self.url, method: self.method, body: self.body, base_settings: self.base_settings };
        let ghost h0 = header_entries(prepped.base_settings.headers);
        let ghost compress = prepped.base_settings.allow_compression;
        let n_conn = names::connection();
        let v_close = names::close();
        header_insert(&mut prepped.base_settings.headers, n_conn.as_slice(), v_close.as_slice())?;
        if prepped.base_settings.allow_compression {
            let n = names::accept_encoding();
            let v = names::gzip_deflate();
            header_insert(&mut prepped.base_settings.headers, n.as_slice(), v.as_slice())?;
        }
        let kind = prepped.body.kind()?;
        match kind {
            BodyKind::Empty => {},
            BodyKind::KnownLength(len) => {
                let n = names::content_length();
                let v = dec_bytes(len);
                proof {
                    lemma_dec_header_value(len as nat);
                }
                header_insert(&mut prepped.base_settings.headers, n.as_slice(), v.as_slice())?;
            },
            BodyKind::Chunked => {
                let n = names::transfer_encoding();
                let v = names::chunked();
                header_insert(&mut prepped.base_settings.headers, n.as_slice(), v.as_slice())?;
            },
        }
        let ct = prepped.body.content_type()?;
        let ghost ctv = match &ct {
            Some(t) => Some(t@),
            None => None::<Seq<u8>>,
        };
        match &ct {
            Some(t) => {
                let n = names::content_type();
                header_insert(&mut prepped.base_settings.headers, n.as_slice(), t.as_slice())?;
            },
            None => {},
        }
        let n_acc = names::accept();
        let v_any = names::any_type();
        header_insert_if_missing(&mut prepped.base_settings.headers, n_acc.as_slice(), v_any.as_slice())?;
        let n_ua = names::user_agent();
        let v_ua = names::default_user_agent();
        header_insert_if_missing(&mut prepped.base_settings.headers, n_ua.as_slice(), v_ua.as_slice())?;
        proof {
            assert forall|n: Seq<u8>| #[trigger] values_of(header_entries(prepped.base_settings.headers), n)
                == prepared_values(n, values_of(h0, n), compress, kind, ctv) by {}
        }
        Ok(prepped)
    }
}

} // verus!
