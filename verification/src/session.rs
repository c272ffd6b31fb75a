//! Sessions, which share settings among requests, and the constructors of requests
//! with default settings.

use vstd::prelude::*;

use std::time::Duration;

use crate::body::Empty;
use crate::charset::Charset;
use crate::error::ErrorKind;
use crate::headers::{has_room, header_append, header_entries, header_insert, header_name_spec, is_header_value, values_of};
use crate::method::Method;
use crate::proxy::ProxySettings;
use crate::request::{BaseSettings, RequestBuilder};
use crate::tls::Certificate;
use crate::urls::parsed_url;

verus! {

/// What a request builder made for `method` and `base_url` is: the error
/// `InvalidBaseUrl` or `ConnectNotSupported`, or a builder with the parsed URL, the
/// method, and settings of which `settings_ok` holds.
pub open spec fn built_with(method: Method, base_url: Seq<char>, r: Result<RequestBuilder<Empty>, ErrorKind>, settings_ok: spec_fn(BaseSettings) -> bool) -> bool {
    match parsed_url(base_url) {
        Err(_) => r == Err::<RequestBuilder<Empty>, ErrorKind>(ErrorKind::InvalidBaseUrl),
        Ok(u) => if method == Method::Connect {
            r == Err::<RequestBuilder<Empty>, ErrorKind>(ErrorKind::ConnectNotSupported)
        } else {
            r matches Ok(b) && b.spec_url() == u && b.spec_method() == method && settings_ok(b.spec_settings())
        },
    }
}

/// `s` has the same headers and limits as `t`.
pub open spec fn same_settings(s: BaseSettings, t: BaseSettings) -> bool {
    &&& header_entries(s.headers) == header_entries(t.headers)
    &&& s.max_headers == t.max_headers
    &&& s.max_redirections == t.max_redirections
    &&& s.follow_redirects == t.follow_redirects
    &&& s.allow_compression == t.allow_compression
    &&& s.accept_invalid_certs == t.accept_invalid_certs
    &&& s.accept_invalid_hostnames == t.accept_invalid_hostnames
}

/// Settings shared by the requests made from it.
pub struct Session {
    base_settings: BaseSettings,
}

impl Session {
    /// The settings of the session.
    pub closed spec fn spec_settings(self) -> BaseSettings {
        self.base_settings
    }

    /// A session with the default settings and the given proxy settings.
    pub fn new(proxy_settings: ProxySettings) -> (r: Session)
        ensures
            crate::request::default_settings(r.spec_settings(), proxy_settings),
    {
        Session { base_settings: BaseSettings::new(proxy_settings) }
    }

    /// The settings of the session.
    pub fn settings(&self) -> (r: &BaseSettings)
        ensures
            *r == self.spec_settings(),
    {
        &self.base_settings
    }

    /// A builder of a request with `method` to `base_url`, with the session's settings.
    pub fn request(&self, method: Method, base_url: &str) -> (r: Result<RequestBuilder<Empty>, ErrorKind>)
        ensures
            built_with(method, base_url@, r, |s: BaseSettings| same_settings(s, self.spec_settings())),
    {
        RequestBuilder::try_with_settings(method, base_url, self.base_settings.duplicate())
    }

    /// A GET request.
    pub fn get(&self, base_url: &str) -> (r: Result<RequestBuilder<Empty>, ErrorKind>)
        ensures
            built_with(Method::Get, base_url@, r, |s: BaseSettings| same_settings(s, self.spec_settings())),
    {
        self.request(Method::Get, base_url)
    }

    /// A POST request.
    pub fn post(&self, base_url: &str) -> (r: Result<RequestBuilder<Empty>, ErrorKind>)
        ensures
            built_with(Method::Post, base_url@, r, |s: BaseSettings| same_settings(s, self.spec_settings())),
    {
        self.request(Method::Post, base_url)
    }

    /// A PUT request.
    pub fn put(&self, base_url: &str) -> (r: Result<RequestBuilder<Empty>, ErrorKind>)
        ensures
            built_with(Method::Put, base_url@, r, |s: BaseSettings| same_settings(s, self.spec_settings())),
    {
        self.request(Method::Put, base_url)
    }

    /// A DELETE request.
    pub fn delete(&self, base_url: &str) -> (r: Result<RequestBuilder<Empty>, ErrorKind>)
        ensures
            built_with(Method::Delete, base_url@, r, |s: BaseSettings| same_settings(s, self.spec_settings())),
    {
        self.request(Method::Delete, base_url)
    }

    /// A HEAD request.
    pub fn head(&self, base_url: &str) -> (r: Result<RequestBuilder<Empty>, ErrorKind>)
        ensures
            built_with(Method::Head, base_url@, r, |s: BaseSettings| same_settings(s, self.spec_settings())),
    {
        self.request(Method::Head, base_url)
    }

    /// An OPTIONS request.
    pub fn options(&self, base_url: &str) -> (r: Result<RequestBuilder<Empty>, ErrorKind>)
        ensures
            built_with(Method::Options, base_url@, r, |s: BaseSettings| same_settings(s, self.spec_settings())),
    {
        self.request(Method::Options, base_url)
    }

    /// A PATCH request.
    pub fn patch(&self, base_url: &str) -> (r: Result<RequestBuilder<Empty>, ErrorKind>)
        ensures
            built_with(Method::Patch, base_url@, r, |s: BaseSettings| same_settings(s, self.spec_settings())),
    {
        self.request(Method::Patch, base_url)
    }

    /// A TRACE request.
    pub fn trace(&self, base_url: &str) -> (r: Result<RequestBuilder<Empty>, ErrorKind>)
        ensures
            built_with(Method::Trace, base_url@, r, |s: BaseSettings| same_settings(s, self.spec_settings())),
    {
        self.request(Method::Trace, base_url)
    }

    /// Sets `value` as the only value of the header named `header` (case does not matter)
    /// for the session's requests.
    pub fn header(&mut self, header: &[u8], value: &[u8])
        requires
            header_name_spec(header@) is Some,
            is_header_value(value@),
            has_room(old(self).spec_settings().headers),
        ensures
            values_of(header_entries(final(self).spec_settings().headers), header_name_spec(header@)->0) == seq![value@],
            forall|m: Seq<u8>| m != header_name_spec(header@)->0
                ==> #[trigger] values_of(header_entries(final(self).spec_settings().headers), m)
                    == values_of(header_entries(old(self).spec_settings().headers), m),
            final(self).spec_settings() == (BaseSettings { headers: final(self).spec_settings().headers, ..old(self).spec_settings() }),
    {
        let _ = self.try_header(header, value);
    }

    /// Adds `value` after the values of the header named `header` (case does not matter)
    /// for the session's requests.
    pub fn header_append(&mut self, header: &[u8], value: &[u8])
        requires
            header_name_spec(header@) is Some,
            is_header_value(value@),
            has_room(old(self).spec_settings().headers),
        ensures
            values_of(header_entries(final(self).spec_settings().headers), header_name_spec(header@)->0)
                == values_of(header_entries(old(self).spec_settings().headers), header_name_spec(header@)->0).push(value@),
            forall|m: Seq<u8>| m != header_name_spec(header@)->0
                ==> #[trigger] values_of(header_entries(final(self).spec_settings().headers), m)
                    == values_of(header_entries(old(self).spec_settings().headers), m),
            final(self).spec_settings() == (BaseSettings { headers: final(self).spec_settings().headers, ..old(self).spec_settings() }),
    {
        let _ = self.try_header_append(header, value);
    }

    /// Sets `value` as the only value of the header named `header` for the session's
    /// requests. The error is `Http` if the name or value is invalid or the map has no
    /// room; the headers then stay as they were.
    pub fn try_header(&mut self, header: &[u8], value: &[u8]) -> (r: Result<(), ErrorKind>)
        ensures
            match header_name_spec(header@) {
                None => r == Err::<(), ErrorKind>(ErrorKind::Http) && header_entries(final(self).spec_settings().headers)
                    == header_entries(old(self).spec_settings().headers),
                Some(n) => match r {
                    Ok(()) => is_header_value(value@)
                        && values_of(header_entries(final(self).spec_settings().headers), n) == seq![value@]
                        && forall|m: Seq<u8>| m != n ==> #[trigger] values_of(header_entries(final(self).spec_settings().headers), m)
                            == values_of(header_entries(old(self).spec_settings().headers), m),
                    Err(e) => e == ErrorKind::Http && header_entries(final(self).spec_settings().headers)
                        == header_entries(old(self).spec_settings().headers),
                },
            },
            header_name_spec(header@) is Some && is_header_value(value@) && has_room(old(self).spec_settings().headers)
                ==> r is Ok,
            final(self).spec_settings() == (BaseSettings { headers: final(self).spec_settings().headers, ..old(self).spec_settings() }),
    {
        let name = match crate::headers::header_name_from_bytes(header) {
            Some(n) => n,
            None => return Err(ErrorKind::Http),
        };
        proof {
            crate::headers::lemma_normalized_is_name(header@);
        }
        header_insert(&mut self.base_settings.headers, name.as_slice(), value)
    }

    /// Adds `value` after the values of the header named `header` for the session's
    /// requests. The error is `Http` if the name or value is invalid or the map has no
    /// room; the headers then stay as they were.
    pub fn try_header_append(&mut self, header: &[u8], value: &[u8]) -> (r: Result<(), ErrorKind>)
        ensures
            match header_name_spec(header@) {
                None => r == Err::<(), ErrorKind>(ErrorKind::Http) && header_entries(final(self).spec_settings().headers)
                    == header_entries(old(self).spec_settings().headers),
                Some(n) => match r {
                    Ok(()) => is_header_value(value@)
                        && values_of(header_entries(final(self).spec_settings().headers), n)
                            == values_of(header_entries(old(self).spec_settings().headers), n).push(value@)
                        && forall|m: Seq<u8>| m != n ==> #[trigger] values_of(header_entries(final(self).spec_settings().headers), m)
                            == values_of(header_entries(old(self).spec_settings().headers), m),
                    Err(e) => e == ErrorKind::Http && header_entries(final(self).spec_settings().headers)
                        == header_entries(old(self).spec_settings().headers),
                },
            },
            header_name_spec(header@) is Some && is_header_value(value@) && has_room(old(self).spec_settings().headers)
                ==> r is Ok,
            final(self).spec_settings() == (BaseSettings { headers: final(self).spec_settings().headers, ..old(self).spec_settings() }),
    {
        let name = match crate::headers::header_name_from_bytes(header) {
            Some(n) => n,
            None => return Err(ErrorKind::Http),
        };
        proof {
            crate::headers::lemma_normalized_is_name(header@);
        }
        header_append(&mut self.base_settings.headers, name.as_slice(), value)
    }

    /// Sets the largest number of headers accepted in responses.
    pub fn max_headers(&mut self, max_headers: usize)
        ensures
            final(self).spec_settings() == (BaseSettings { max_headers, ..old(self).spec_settings() }),
    {
        self.base_settings.max_headers = max_headers;
    }

    /// Sets the largest number of redirections followed.
    pub fn max_redirections(&mut self, max_redirections: u32)
        ensures
            final(self).spec_settings() == (BaseSettings { max_redirections, ..old(self).spec_settings() }),
    {
        self.base_settings.max_redirections = max_redirections;
    }

    /// Sets whether redirections are followed.
    pub fn follow_redirects(&mut self, follow_redirects: bool)
        ensures
            final(self).spec_settings() == (BaseSettings { follow_redirects, ..old(self).spec_settings() }),
    {
        self.base_settings.follow_redirects = follow_redirects;
    }

    /// Sets the time allowed to connect.
    pub fn connect_timeout(&mut self, connect_timeout: Duration)
        ensures
            final(self).spec_settings() == (BaseSettings { connect_timeout, ..old(self).spec_settings() }),
    {
        self.base_settings.connect_timeout = connect_timeout;
    }

    /// Sets the time allowed for each read.
    pub fn read_timeout(&mut self, read_timeout: Duration)
        ensures
            final(self).spec_settings() == (BaseSettings { read_timeout, ..old(self).spec_settings() }),
    {
        self.base_settings.read_timeout = read_timeout;
    }

    /// Sets the time allowed for a whole request, once connected.
    pub fn timeout(&mut self, timeout: Duration)
        ensures
            final(self).spec_settings() == (BaseSettings { timeout: Some(timeout), ..old(self).spec_settings() }),
    {
        self.base_settings.timeout = Some(timeout);
    }

    /// Sets the proxy settings.
    pub fn proxy_settings(&mut self, proxy_settings: ProxySettings)
        ensures
            final(self).spec_settings() == (BaseSettings { proxy_settings, ..old(self).spec_settings() }),
    {
        self.base_settings.proxy_settings = proxy_settings;
    }

    /// Sets the character set used for responses that name none.
    pub fn default_charset(&mut self, default_charset: Option<Charset>)
        ensures
            final(self).spec_settings() == (BaseSettings { default_charset, ..old(self).spec_settings() }),
    {
        self.base_settings.default_charset = default_charset;
    }

    /// Sets whether requests announce that they accept compressed responses.
    pub fn allow_compression(&mut self, allow_compression: bool)
        ensures
            final(self).spec_settings() == (BaseSettings { allow_compression, ..old(self).spec_settings() }),
    {
        self.base_settings.allow_compression = allow_compression;
    }

    /// Sets whether invalid certificates are accepted.
    pub fn danger_accept_invalid_certs(&mut self, accept_invalid_certs: bool)
        ensures
            final(self).spec_settings() == (BaseSettings { accept_invalid_certs, ..old(self).spec_settings() }),
    {
        self.base_settings.accept_invalid_certs = accept_invalid_certs;
    }

    /// Sets whether a certificate for another host name is accepted.
    pub fn danger_accept_invalid_hostnames(&mut self, accept_invalid_hostnames: bool)
        ensures
            final(self).spec_settings() == (BaseSettings { accept_invalid_hostnames, ..old(self).spec_settings() }),
    {
        self.base_settings.accept_invalid_hostnames = accept_invalid_hostnames;
    }

    /// Adds a root certificate to trust.
    pub fn add_root_certificate(&mut self, cert: Certificate)
        ensures
            final(self).spec_settings().root_certificates@ == old(self).spec_settings().root_certificates@.push(cert),
            final(self).spec_settings().headers == old(self).spec_settings().headers,
    {
        self.base_settings.root_certificates.push(cert);
    }
}

/// A GET request with default settings and the given proxy settings.
pub fn get(base_url: &str, proxy_settings: ProxySettings) -> (r: Result<RequestBuilder<Empty>, ErrorKind>)
    ensures
        built_with(Method::Get, base_url@, r, |s: BaseSettings| crate::request::default_settings(s, proxy_settings)),
{
    RequestBuilder::try_with_settings(Method::Get, base_url, BaseSettings::new(proxy_settings))
}

/// A POST request with default settings and the given proxy settings.
pub fn post(base_url: &str, proxy_settings: ProxySettings) -> (r: Result<RequestBuilder<Empty>, ErrorKind>)
    ensures
        built_with(Method::Post, base_url@, r, |s: BaseSettings| crate::request::default_settings(s, proxy_settings)),
{
    RequestBuilder::try_with_settings(Method::Post, base_url, BaseSettings::new(proxy_settings))
}

/// A PUT request with default settings and the given proxy settings.
pub fn put(base_url: &str, proxy_settings: ProxySettings) -> (r: Result<RequestBuilder<Empty>, ErrorKind>)
    ensures
        built_with(Method::Put, base_url@, r, |s: BaseSettings| crate::request::default_settings(s, proxy_settings)),
{
    RequestBuilder::try_with_settings(Method::Put, base_url, BaseSettings::new(proxy_settings))
}

/// A DELETE request with default settings and the given proxy settings.
pub fn delete(base_url: &str, proxy_settings: ProxySettings) -> (r: Result<RequestBuilder<Empty>, ErrorKind>)
    ensures
        built_with(Method::Delete, base_url@, r, |s: BaseSettings| crate::request::default_settings(s, proxy_settings)),
{
    RequestBuilder::try_with_settings(Method::Delete, base_url, BaseSettings::new(proxy_settings))
}

/// A HEAD request with default settings and the given proxy settings.
pub fn head(base_url: &str, proxy_settings: ProxySettings) -> (r: Result<RequestBuilder<Empty>, ErrorKind>)
    ensures
        built_with(Method::Head, base_url@, r, |s: BaseSettings| crate::request::default_settings(s, proxy_settings)),
{
    RequestBuilder::try_with_settings(Method::Head, base_url, BaseSettings::new(proxy_settings))
}

/// An OPTIONS request with default settings and the given proxy settings.
pub fn options(base_url: &str, proxy_settings: ProxySettings) -> (r: Result<RequestBuilder<Empty>, ErrorKind>)
    ensures
        built_with(Method::Options, base_url@, r, |s: BaseSettings| crate::request::default_settings(s, proxy_settings)),
{
    RequestBuilder::try_with_settings(Method::Options, base_url, BaseSettings::new(proxy_settings))
}

/// A PATCH request with default settings and the given proxy settings.
pub fn patch(base_url: &str, proxy_settings: ProxySettings) -> (r: Result<RequestBuilder<Empty>, ErrorKind>)
    ensures
        built_with(Method::Patch, base_url@, r, |s: BaseSettings| crate::request::default_settings(s, proxy_settings)),
{
    RequestBuilder::try_with_settings(Method::Patch, base_url, BaseSettings::new(proxy_settings))
}

/// A TRACE request with default settings and the given proxy settings.
pub fn trace(base_url: &str, proxy_settings: ProxySettings) -> (r: Result<RequestBuilder<Empty>, ErrorKind>)
    ensures
        built_with(Method::Trace, base_url@, r, |s: BaseSettings| crate::request::default_settings(s, proxy_settings)),
{
    RequestBuilder::try_with_settings(Method::Trace, base_url, BaseSettings::new(proxy_settings))
}

} // verus!
