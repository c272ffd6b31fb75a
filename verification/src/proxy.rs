//! Proxy settings, and the choice of the proxy to use for a URL.

use vstd::prelude::*;

use crate::charset::{decode_utf8_lossy, lossy_utf8};
use crate::chunked_reader::{trim_whitespace, trim_ws};
use crate::buffers::trim_left_spec;
use crate::reader::find_byte;
use crate::urls::{parsed_url, Url};

verus! {

/// What `str::to_lowercase` makes of `s`.
pub uninterp spec fn lowercased(s: Seq<char>) -> Seq<char>;

/// Calls `str::to_lowercase`.
#[verifier::external_body]
fn to_lowercase_outside(s: &str) -> (r: String)
    ensures
        r@ == lowercased(s@),
{
    s.to_lowercase()
}

/// `http`.
pub open spec fn spec_http() -> Seq<u8> {
    seq![104u8, 116u8, 116u8, 112u8]
}

/// `https`.
pub open spec fn spec_https() -> Seq<u8> {
    seq![104u8, 116u8, 116u8, 112u8, 115u8]
}

/// Whether `s` ends with `suffix`.
pub open spec fn ends_with(s: Seq<u8>, suffix: Seq<u8>) -> bool {
    suffix.len() <= s.len() && s.skip(s.len() - suffix.len()) == suffix
}

/// The pieces of `s` between the bytes equal to `b`, as `str::split` yields them.
pub open spec fn split_on(s: Seq<u8>, b: u8) -> Seq<Seq<u8>>
    decreases s.len(),
{
    let i = find_byte(s, b);
    if i >= s.len() {
        seq![s]
    } else {
        proof {
            crate::reader::lemma_find_byte_bounds(s, b);
        }
        seq![s.take(i)] + split_on(s.skip(i + 1), b)
    }
}

/// The host pattern that a piece of a `NO_PROXY` value stands for: the piece without
/// surrounding white space and leading dots, in lower case.
pub open spec fn no_proxy_pattern(piece: Seq<u8>) -> Seq<char> {
    lowercased(lossy_utf8(trim_left_spec(trim_ws(piece), 46u8)))
}

/// Proxy settings: the proxies for `http` and `https` URLs, whether proxies are
/// disabled, and the host patterns that are reached without a proxy.
#[derive(Debug)]
pub struct ProxySettings {
    http_proxy: Option<Url>,
    https_proxy: Option<Url>,
    disable_proxies: bool,
    no_proxy_hosts: Vec<String>,
}

/// The view of an optional URL.
pub open spec fn opt_url(u: Option<Url>) -> Option<(Seq<u8>, Seq<u8>, Option<Seq<u8>>, Option<u16>, Seq<u8>, Option<Seq<u8>>)> {
    match u {
        Some(u) => Some(u@),
        None => None,
    }
}

fn clone_opt_url(u: &Option<Url>) -> (r: Option<Url>)
    ensures
        opt_url(r) == opt_url(*u),
{
    match u {
        Some(u) => Some(u.clone()),
        None => None,
    }
}

impl ProxySettings {
    /// The proxy for `http` URLs.
    pub closed spec fn spec_http_proxy(self) -> Option<(Seq<u8>, Seq<u8>, Option<Seq<u8>>, Option<u16>, Seq<u8>, Option<Seq<u8>>)> {
        opt_url(self.http_proxy)
    }

    /// The proxy for `https` URLs.
    pub closed spec fn spec_https_proxy(self) -> Option<(Seq<u8>, Seq<u8>, Option<Seq<u8>>, Option<u16>, Seq<u8>, Option<Seq<u8>>)> {
        opt_url(self.https_proxy)
    }

    /// Whether proxies are disabled.
    pub closed spec fn spec_disabled(self) -> bool {
        self.disable_proxies
    }

    /// The host patterns reached without a proxy.
    pub closed spec fn spec_no_proxy(self) -> Seq<Seq<char>> {
        self.no_proxy_hosts@.map_values(|s: String| s@)
    }

    /// The proxy to use for a URL with scheme `scheme` and host `host`: none if proxies
    /// are disabled, if the URL has no host, or if its host ends with one of the
    /// patterns in lower case; else the proxy of the scheme, if any.
    pub open spec fn proxy_for(self, scheme: Seq<u8>, host: Option<Seq<u8>>) -> Option<(Seq<u8>, Seq<u8>, Option<Seq<u8>>, Option<u16>, Seq<u8>, Option<Seq<u8>>)> {
        if self.spec_disabled() {
            None
        } else {
            match host {
                None => None,
                Some(h) => if exists|i: int| 0 <= i < self.spec_no_proxy().len()
                    && ends_with(h, vstd::utf8::encode_utf8(lowercased(#[trigger] self.spec_no_proxy()[i]))) {
                    None
                } else if scheme == spec_http() {
                    self.spec_http_proxy()
                } else if scheme == spec_https() {
                    self.spec_https_proxy()
                } else {
                    None
                },
            }
        }
    }

    /// A builder of proxy settings, with no proxy.
    pub fn builder() -> (r: ProxySettingsBuilder)
        ensures
            r.spec_settings().spec_http_proxy() is None,
            r.spec_settings().spec_https_proxy() is None,
            !r.spec_settings().spec_disabled(),
            r.spec_settings().spec_no_proxy() == Seq::<Seq<char>>::empty(),
    {
        ProxySettingsBuilder::new()
    }

    /// Settings that disable every proxy.
    pub fn disabled() -> (r: ProxySettings)
        ensures
            r.spec_disabled(),
            r.spec_http_proxy() is None,
            r.spec_https_proxy() is None,
            r.spec_no_proxy() == Seq::<Seq<char>>::empty(),
    {
        let r = ProxySettings { http_proxy: None, https_proxy: None, disable_proxies: true, no_proxy_hosts: Vec::new() };
        assert(r.spec_no_proxy() =~= Seq::<Seq<char>>::empty());
        r
    }

    /// Settings made of their parts.
    pub fn from_parts(http_proxy: Option<Url>, https_proxy: Option<Url>, disable_proxies: bool, no_proxy_hosts: Vec<String>) -> (r: ProxySettings)
        ensures
            r.spec_http_proxy() == opt_url(http_proxy),
            r.spec_https_proxy() == opt_url(https_proxy),
            r.spec_disabled() == disable_proxies,
            r.spec_no_proxy() == no_proxy_hosts@.map_values(|s: String| s@),
    {
        ProxySettings { http_proxy, https_proxy, disable_proxies, no_proxy_hosts }
    }

    /// The host patterns reached without a proxy.
    pub fn no_proxy_hosts(&self) -> (r: &Vec<String>)
        ensures
            r@.map_values(|s: String| s@) == self.spec_no_proxy(),
    {
        &self.no_proxy_hosts
    }

    /// The proxy for `http` URLs.
    pub fn http_proxy(&self) -> (r: &Option<Url>)
        ensures
            opt_url(*r) == self.spec_http_proxy(),
    {
        &self.http_proxy
    }

    /// The proxy for `https` URLs.
    pub fn https_proxy(&self) -> (r: &Option<Url>)
        ensures
            opt_url(*r) == self.spec_https_proxy(),
    {
        &self.https_proxy
    }

    /// Whether proxies are disabled.
    pub fn proxies_disabled(&self) -> (r: bool)
        ensures
            r == self.spec_disabled(),
    {
        self.disable_proxies
    }

    /// A copy of the settings.
    pub fn duplicate(&self) -> (r: ProxySettings)
        ensures
            r.spec_http_proxy() == self.spec_http_proxy(),
            r.spec_https_proxy() == self.spec_https_proxy(),
            r.spec_disabled() == self.spec_disabled(),
            r.spec_no_proxy() == self.spec_no_proxy(),
    {
        let mut hosts: Vec<String> = Vec::new();
        let mut i: usize = 0;
        while i < self.no_proxy_hosts.len()
            invariant
                i <= self.no_proxy_hosts@.len(),
                hosts@.map_values(|s: String| s@) == self.no_proxy_hosts@.take(i as int).map_values(|s: String| s@),
            decreases self.no_proxy_hosts@.len() - i,
        {
            let h = self.no_proxy_hosts[i].clone();
            let ghost prev = hosts@;
            hosts.push(h);
            proof {
                assert(self.no_proxy_hosts@.take(i + 1) =~= self.no_proxy_hosts@.take(i as int).push(self.no_proxy_hosts@[i as int]));
                assert(hosts@ =~= prev.push(h));
                assert(hosts@.map_values(|s: String| s@) =~= prev.map_values(|s: String| s@).push(h@));
                assert(self.no_proxy_hosts@.take(i + 1).map_values(|s: String| s@) =~= self.no_proxy_hosts@.take(i as int).map_values(|s: String| s@).push(self.no_proxy_hosts@[i as int]@));
            }
            i = i + 1;
        }
        assert(self.no_proxy_hosts@.take(i as int) =~= self.no_proxy_hosts@);
        ProxySettings {
            http_proxy: clone_opt_url(&self.http_proxy),
            https_proxy: clone_opt_url(&self.https_proxy),
            disable_proxies: self.disable_proxies,
            no_proxy_hosts: hosts,
        }
    }

    /// The proxy to use for `url`, if any.
    pub fn for_url(&self, url: &Url) -> (r: Option<Url>)
        ensures
            opt_url(r) == self.proxy_for(url@.1, url@.2),
    {
        if self.disable_proxies {
            return None;
        }
        match url.host() {
            None => None,
            Some(host) => {
                let mut i: usize = 0;
                while i < self.no_proxy_hosts.len()
                    invariant
                        i <= self.no_proxy_hosts@.len(),
                        self.spec_no_proxy().len() == self.no_proxy_hosts@.len(),
                        url@.2 == Some(host@),
                        forall|j: int| 0 <= j < i ==> !ends_with(host@, vstd::utf8::encode_utf8(lowercased(#[trigger] self.spec_no_proxy()[j]))),
                    decreases self.no_proxy_hosts@.len() - i,
                {
                    let lower = to_lowercase_outside(self.no_proxy_hosts[i].as_str());
                    let pat = lower.as_str().as_bytes();
                    assert(self.spec_no_proxy()[i as int] == self.no_proxy_hosts@[i as int]@);
                    if bytes_end_with(host, pat) {
                        return None;
                    }
                    i = i + 1;
                }
                let scheme = url.scheme();
                if scheme.len() == 4 && scheme[0] == 104u8 && scheme[1] == 116u8 && scheme[2] == 116u8 && scheme[3] == 112u8 {
                    assert(scheme@ =~= spec_http());
                    clone_opt_url(&self.http_proxy)
                } else if scheme.len() == 5 && scheme[0] == 104u8 && scheme[1] == 116u8 && scheme[2] == 116u8
                    && scheme[3] == 112u8 && scheme[4] == 115u8 {
                    assert(scheme@ =~= spec_https());
                    clone_opt_url(&self.https_proxy)
                } else {
                    proof {
                        if scheme@ == spec_http() {
                            assert(scheme@[3] == 112u8);
                        }
                        if scheme@ == spec_https() {
                            assert(scheme@[4] == 115u8);
                        }
                    }
                    None
                }
            },
        }
    }

    /// Settings from the values of the `ALL_PROXY`, `HTTP_PROXY`, `HTTPS_PROXY` and
    /// `NO_PROXY` environment variables, following the conventions of curl: the scheme's
    /// variable takes precedence over `ALL_PROXY`; `NO_PROXY` set to `*` disables every
    /// proxy, else it lists host patterns separated by commas.
    pub fn from_env_values(all_proxy: Option<String>, http_proxy: Option<String>, https_proxy: Option<String>, no_proxy: Option<String>) -> (r: ProxySettings)
        ensures
            r.spec_http_proxy() == (match env_url_spec(http_proxy) {
                Some(u) => Some(u),
                None => env_url_spec(all_proxy),
            }),
            r.spec_https_proxy() == (match env_url_spec(https_proxy) {
                Some(u) => Some(u),
                None => env_url_spec(all_proxy),
            }),
            r.spec_disabled() == (no_proxy matches Some(v) && vstd::utf8::encode_utf8(v@) == seq![42u8]),
            r.spec_no_proxy() == (match no_proxy {
                Some(v) => if vstd::utf8::encode_utf8(v@) == seq![42u8] {
                    Seq::<Seq<char>>::empty()
                } else {
                    split_on(vstd::utf8::encode_utf8(v@), 44u8).map_values(|p: Seq<u8>| no_proxy_pattern(p))
                },
                None => Seq::<Seq<char>>::empty(),
            }),
    {
        let all = env_url(all_proxy.as_ref());
        let http = env_url(http_proxy.as_ref());
        let https = env_url(https_proxy.as_ref());
        let http_proxy = match http {
            Some(u) => Some(u),
            None => clone_opt_url(&all),
        };
        let https_proxy = match https {
            Some(u) => Some(u),
            None => all,
        };
        let mut disable_proxies = false;
        let mut hosts: Vec<String> = Vec::new();
        match &no_proxy {
            Some(v) => {
                let bytes = v.as_str().as_bytes();
                if bytes.len() == 1 && bytes[0] == 42u8 {
                    assert(bytes@ =~= seq![42u8]);
                    disable_proxies = true;
                } else {
                    proof {
                        if bytes@ == seq![42u8] {
                            assert(bytes@[0] == 42u8);
                        }
                    }
                    hosts = no_proxy_patterns(bytes);
                }
            },
            None => {},
        }
        let r = ProxySettings { http_proxy, https_proxy, disable_proxies, no_proxy_hosts: hosts };
        assert(r.spec_no_proxy() =~= hosts@.map_values(|s: String| s@));
        r
    }
}

/// The proxy URL that an environment variable holding `val` sets: none if the value is
/// missing, blank, not a URL, or of a scheme other than `http` and `https`.
pub open spec fn env_url_spec(val: Option<String>) -> Option<(Seq<u8>, Seq<u8>, Option<Seq<u8>>, Option<u16>, Seq<u8>, Option<Seq<u8>>)> {
    match val {
        None => None,
        Some(v) => if trim_ws(vstd::utf8::encode_utf8(v@)).len() == 0 {
            None
        } else {
            match parsed_url(v@) {
                Ok(u) => if u.1 == spec_http() || u.1 == spec_https() { Some(u) } else { None },
                Err(_) => None,
            }
        },
    }
}

/// The proxy URL that an environment variable holding `val` sets.
fn env_url(val: Option<&String>) -> (r: Option<Url>)
    ensures
        opt_url(r) == env_url_spec(match val {
            Some(v) => Some(*v),
            None => None,
        }),
{
    match val {
        None => None,
        Some(v) => {
            let t = trim_whitespace(v.as_str().as_bytes());
            if t.len() == 0 {
                return None;
            }
            match Url::parse(v.as_str()) {
                Ok(u) => {
                    let s = u.scheme();
                    if s.len() == 4 && s[0] == 104u8 && s[1] == 116u8 && s[2] == 116u8 && s[3] == 112u8 {
                        assert(s@ =~= spec_http());
                        Some(u)
                    } else if s.len() == 5 && s[0] == 104u8 && s[1] == 116u8 && s[2] == 116u8 && s[3] == 112u8
                        && s[4] == 115u8 {
                        assert(s@ =~= spec_https());
                        Some(u)
                    } else {
                        proof {
                            if s@ == spec_http() {
                                assert(s@[3] == 112u8);
                            }
                            if s@ == spec_https() {
                                assert(s@[4] == 115u8);
                            }
                        }
                        None
                    }
                },
                Err(_) => None,
            }
        },
    }
}

/// Whether `s` ends with `suffix`.
fn bytes_end_with(s: &[u8], suffix: &[u8]) -> (r: bool)
    ensures
        r == ends_with(s@, suffix@),
{
    if suffix.len() > s.len() {
        return false;
    }
    let n = s.len();
    let off = n - suffix.len();
    let mut i: usize = 0;
    while i < suffix.len()
        invariant
            n == s@.len(),
            off + suffix@.len() == s@.len(),
            i <= suffix@.len(),
            forall|j: int| 0 <= j < i ==> s@[off + j] == suffix@[j],
        decreases suffix@.len() - i,
    {
        assert(off + i < n);
        let k: usize = off + i;
        if s[k] != suffix[i] {
            assert(s@.skip(off as int)[i as int] != suffix@[i as int]);
            return false;
        }
        i = i + 1;
    }
    assert(s@.skip(off as int) =~= suffix@);
    true
}

/// The host patterns of a `NO_PROXY` value other than `*`.
fn no_proxy_patterns(value: &[u8]) -> (r: Vec<String>)
    ensures
        r@.map_values(|s: String| s@) == split_on(value@, 44u8).map_values(|p: Seq<u8>| no_proxy_pattern(p)),
{
    let mut out: Vec<String> = Vec::new();
    let mut rest: &[u8] = value;
    loop
        invariant
            out@.map_values(|s: String| s@) + split_on(rest@, 44u8).map_values(|p: Seq<u8>| no_proxy_pattern(p))
                == split_on(value@, 44u8).map_values(|p: Seq<u8>| no_proxy_pattern(p)),
        decreases rest@.len(),
    {
        let mut i: usize = 0;
        while i < rest.len() && rest[i] != 44u8
            invariant
                i <= rest@.len(),
                forall|j: int| 0 <= j < i ==> rest@[j] != 44u8,
            decreases rest@.len() - i,
        {
            i = i + 1;
        }
        proof {
            crate::reader::lemma_find_byte_is(rest@, 44u8, i as int);
        }
        let piece = &rest[0..i];
        let pat = pattern_of(piece);
        let ghost prev = out@;
        out.push(pat);
        if i >= rest.len() {
            proof {
                assert(piece@ =~= rest@);
                assert(out@.map_values(|s: String| s@) =~= prev.map_values(|s: String| s@).push(no_proxy_pattern(rest@)));
                assert(split_on(rest@, 44u8) == seq![rest@]);
                assert(split_on(rest@, 44u8).map_values(|p: Seq<u8>| no_proxy_pattern(p)) =~= seq![no_proxy_pattern(rest@)]);
                assert(out@.map_values(|s: String| s@) =~= prev.map_values(|s: String| s@) + split_on(rest@, 44u8).map_values(|p: Seq<u8>| no_proxy_pattern(p)));
            }
            return out;
        }
        let ghost r0 = rest@;
        rest = &rest[i + 1..rest.len()];
        proof {
            assert(piece@ =~= r0.take(i as int));
            assert(rest@ =~= r0.skip(i + 1));
            assert(split_on(r0, 44u8) == seq![r0.take(i as int)] + split_on(r0.skip(i + 1), 44u8));
            assert(split_on(r0, 44u8).map_values(|p: Seq<u8>| no_proxy_pattern(p)) =~= seq![no_proxy_pattern(piece@)]
                + split_on(rest@, 44u8).map_values(|p: Seq<u8>| no_proxy_pattern(p)));
            assert(out@.map_values(|s: String| s@) =~= prev.map_values(|s: String| s@).push(no_proxy_pattern(piece@)));
        }
    }
}

/// The host pattern that a piece of a `NO_PROXY` value stands for.
fn pattern_of(piece: &[u8]) -> (r: String)
    ensures
        r@ == no_proxy_pattern(piece@),
{
    let t = trim_whitespace(piece);
    let mut k: usize = 0;
    while k < t.len() && t[k] == 46u8
        invariant
            k <= t@.len(),
            forall|j: int| 0 <= j < k ==> t@[j] == 46u8,
        decreases t@.len() - k,
    {
        k = k + 1;
    }
    proof {
        crate::buffers::lemma_trim_left_is(t@, 46u8, k as int);
    }
    let stripped = &t[k..t.len()];
    assert(stripped@ =~= t@.skip(k as int));
    let text = decode_utf8_lossy(stripped);
    to_lowercase_outside(text.as_str())
}

/// Builds proxy settings.
#[derive(Debug)]
pub struct ProxySettingsBuilder {
    inner: ProxySettings,
}

impl ProxySettingsBuilder {
    /// The settings built so far.
    pub closed spec fn spec_settings(self) -> ProxySettings {
        self.inner
    }

    /// A builder with no proxy.
    pub fn new() -> (r: ProxySettingsBuilder)
        ensures
            r.spec_settings().spec_http_proxy() is None,
            r.spec_settings().spec_https_proxy() is None,
            !r.spec_settings().spec_disabled(),
            r.spec_settings().spec_no_proxy() == Seq::<Seq<char>>::empty(),
    {
        let r = ProxySettingsBuilder {
            inner: ProxySettings { http_proxy: None, https_proxy: None, disable_proxies: false, no_proxy_hosts: Vec::new() },
        };
        assert(r.inner.spec_no_proxy() =~= Seq::<Seq<char>>::empty());
        r
    }

    /// Sets the proxy for `http` URLs.
    pub fn http_proxy(self, val: Option<Url>) -> (r: ProxySettingsBuilder)
        ensures
            r.spec_settings().spec_http_proxy() == opt_url(val),
            r.spec_settings().spec_https_proxy() == self.spec_settings().spec_https_proxy(),
            r.spec_settings().spec_disabled() == self.spec_settings().spec_disabled(),
            r.spec_settings().spec_no_proxy() == self.spec_settings().spec_no_proxy(),
    {
        let mut s = self;
        s.inner.http_proxy = val;
        s
    }

    /// Sets the proxy for `https` URLs.
    pub fn https_proxy(self, val: Option<Url>) -> (r: ProxySettingsBuilder)
        ensures
            r.spec_settings().spec_https_proxy() == opt_url(val),
            r.spec_settings().spec_http_proxy() == self.spec_settings().spec_http_proxy(),
            r.spec_settings().spec_disabled() == self.spec_settings().spec_disabled(),
            r.spec_settings().spec_no_proxy() == self.spec_settings().spec_no_proxy(),
    {
        let mut s = self;
        s.inner.https_proxy = val;
        s
    }

    /// Adds a host pattern, in lower case, to reach without a proxy.
    pub fn add_no_proxy_host(self, pattern: &str) -> (r: ProxySettingsBuilder)
        ensures
            r.spec_settings().spec_no_proxy() == self.spec_settings().spec_no_proxy().push(lowercased(pattern@)),
            r.spec_settings().spec_http_proxy() == self.spec_settings().spec_http_proxy(),
            r.spec_settings().spec_https_proxy() == self.spec_settings().spec_https_proxy(),
            r.spec_settings().spec_disabled() == self.spec_settings().spec_disabled(),
    {
        let mut s = self;
        let lower = to_lowercase_outside(pattern);
        let ghost prev = s.inner.no_proxy_hosts@;
        s.inner.no_proxy_hosts.push(lower);
        assert(s.inner.no_proxy_hosts@.map_values(|x: String| x@) =~= prev.map_values(|x: String| x@).push(lowercased(pattern@)));
        s
    }

    /// The settings.
    pub fn build(self) -> (r: ProxySettings)
        ensures
            r == self.spec_settings(),
    {
        self.inner
    }
}

} // verus!
