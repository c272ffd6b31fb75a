//! URLs: the parts of a parsed URL that the client reads, held as bytes. Parsing,
//! joining and query building are done by the `url` crate.

use vstd::prelude::*;

verus! {

/// The parts of a URL as the library reads them: its serialization, scheme, host,
/// explicit port, path and query.
pub type UrlParts = (Seq<u8>, Seq<u8>, Option<Seq<u8>>, Option<u16>, Seq<u8>, Option<Seq<u8>>);

/// Why a URL could not be parsed.
#[derive(Debug, Clone, Copy, PartialEq, Eq, Structural)]
pub enum UrlError {
    /// The input is a relative URL and no base was given.
    RelativeWithoutBase,
    /// Any other parse failure.
    Invalid,
}

/// What `url::Url::parse` makes of `input`: the serialization, scheme, host, explicit
/// port, path and query of the URL, or, on failure, whether the input is a relative URL
/// without a base.
pub uninterp spec fn parsed_url(input: Seq<char>) -> Result<(Seq<u8>, Seq<u8>, Option<Seq<u8>>, Option<u16>, Seq<u8>, Option<Seq<u8>>), bool>;

/// What `url::Url::join` makes of `input` against the URL `base`, in the same form.
pub uninterp spec fn joined_url(
    base: (Seq<u8>, Seq<u8>, Option<Seq<u8>>, Option<u16>, Seq<u8>, Option<Seq<u8>>),
    input: Seq<char>,
) -> Result<(Seq<u8>, Seq<u8>, Option<Seq<u8>>, Option<u16>, Seq<u8>, Option<Seq<u8>>), bool>;

/// The URL after `append_pair(key, value)` on its `query_pairs_mut` serializer.
pub uninterp spec fn url_with_pair(
    url: (Seq<u8>, Seq<u8>, Option<Seq<u8>>, Option<u16>, Seq<u8>, Option<Seq<u8>>),
    key: Seq<char>,
    value: Seq<char>,
) -> (Seq<u8>, Seq<u8>, Option<Seq<u8>>, Option<u16>, Seq<u8>, Option<Seq<u8>>);

/// Whether the `application/x-www-form-urlencoded` serializer keeps byte `b` as it is.
pub open spec fn form_unchanged(b: u8) -> bool {
    b == 42u8 || b == 45u8 || b == 46u8 || b == 95u8 || (48u8 <= b && b <= 57u8) || (65u8 <= b && b <= 90u8)
        || (97u8 <= b && b <= 122u8)
}

/// The upper-case hexadecimal digit of `d`, for `d < 16`.
pub open spec fn hex_upper(d: u8) -> u8 {
    if d < 10 {
        (48 + d) as u8
    } else {
        (55 + d) as u8
    }
}

/// `s` serialized as `application/x-www-form-urlencoded`: unchanged bytes as they are,
/// space as `+`, every other byte as `%` and two upper-case hexadecimal digits.
pub open spec fn form_encode(s: Seq<u8>) -> Seq<u8>
    decreases s.len(),
{
    if s.len() == 0 {
        Seq::empty()
    } else {
        let b = s[0];
        let head = if form_unchanged(b) {
            seq![b]
        } else if b == 32u8 {
            seq![43u8]
        } else {
            seq![37u8, hex_upper(b / 16), hex_upper(b % 16)]
        };
        head + form_encode(s.drop_first())
    }
}

/// The query that results from appending the pair `key=value` to `query`.
pub open spec fn query_with_pair(query: Option<Seq<u8>>, key: Seq<char>, value: Seq<char>) -> Seq<u8> {
    let q = match query {
        Some(q) => q,
        None => Seq::empty(),
    };
    let sep = if q.len() > 0 { seq![38u8] } else { Seq::empty() };
    q + sep + form_encode(vstd::utf8::encode_utf8(key)) + seq![61u8] + form_encode(vstd::utf8::encode_utf8(value))
}

/// The query that results from appending the pairs `pairs`, in order, to `query`.
pub open spec fn query_with_pairs(query: Option<Seq<u8>>, pairs: Seq<(Seq<char>, Seq<char>)>) -> Option<Seq<u8>>
    decreases pairs.len(),
{
    if pairs.len() == 0 {
        query
    } else {
        Some(query_with_pair(query_with_pairs(query, pairs.drop_last()), pairs.last().0, pairs.last().1))
    }
}

/// The default port of a scheme that the `url` crate knows: 80 for `http` and `ws`, 443
/// for `https` and `wss`, 21 for `ftp`.
pub open spec fn known_default_port(scheme: Seq<u8>) -> Option<u16> {
    if scheme == seq![104u8, 116u8, 116u8, 112u8] || scheme == seq![119u8, 115u8] {
        Some(80u16)
    } else if scheme == seq![104u8, 116u8, 116u8, 112u8, 115u8] || scheme == seq![119u8, 115u8, 115u8] {
        Some(443u16)
    } else if scheme == seq![102u8, 116u8, 112u8] {
        Some(21u16)
    } else {
        None
    }
}

/// A parsed URL.
#[derive(Debug)]
pub struct Url {
    text: Vec<u8>,
    scheme: Vec<u8>,
    host: Option<Vec<u8>>,
    port: Option<u16>,
    path: Vec<u8>,
    query: Option<Vec<u8>>,
}

/// The bytes of an optional byte vector.
pub open spec fn opt_bytes(v: Option<Vec<u8>>) -> Option<Seq<u8>> {
    match v {
        Some(b) => Some(b@),
        None => None,
    }
}

impl View for Url {
    type V = (Seq<u8>, Seq<u8>, Option<Seq<u8>>, Option<u16>, Seq<u8>, Option<Seq<u8>>);

    closed spec fn view(&self) -> Self::V {
        (self.text@, self.scheme@, opt_bytes(self.host), self.port, self.path@, opt_bytes(self.query))
    }
}

impl Clone for Url {
    fn clone(&self) -> (r: Self)
        ensures
            r@ == self@,
    {
        let host = match &self.host {
            Some(h) => Some(h.clone()),
            None => None,
        };
        let query = match &self.query {
            Some(q) => Some(q.clone()),
            None => None,
        };
        let r = Url {
            text: self.text.clone(),
            scheme: self.scheme.clone(),
            host,
            port: self.port,
            path: self.path.clone(),
            query,
        };
        assert(r.text@ =~= self.text@ && r.scheme@ =~= self.scheme@ && r.path@ =~= self.path@);
        r
    }
}

/// Calls `url::Url::parse` on `input` and takes the parts of the result.
#[verifier::external_body]
fn parse_outside(input: &str) -> (r: Result<Url, UrlError>)
    ensures
        match r {
            Ok(u) => parsed_url(input@) == Ok::<_, bool>(u@),
            Err(e) => parsed_url(input@) == Err::<(Seq<u8>, Seq<u8>, Option<Seq<u8>>, Option<u16>, Seq<u8>, Option<Seq<u8>>), bool>(e == UrlError::RelativeWithoutBase),
        },
{
    match url::Url::parse(input) {
        Ok(u) => Ok(Url {
            text: u.as_str().as_bytes().to_vec(),
            scheme: u.scheme().as_bytes().to_vec(),
            host: u.host_str().map(str::as_bytes).map(<[u8]>::to_vec),
            port: u.port(),
            path: u.path().as_bytes().to_vec(),
            query: u.query().map(str::as_bytes).map(<[u8]>::to_vec),
        }),
        Err(url::ParseError::RelativeUrlWithoutBase) => Err(UrlError::RelativeWithoutBase),
        Err(_) => Err(UrlError::Invalid),
    }
}

/// Calls `url::Url::join` on `base` (converted back by parsing its serialization) and
/// `input`, and takes the parts of the result.
#[verifier::external_body]
fn join_outside(base: &Url, input: &str) -> (r: Result<Url, UrlError>)
    ensures
        match r {
            Ok(u) => joined_url(base@, input@) == Ok::<_, bool>(u@),
            Err(e) => joined_url(base@, input@) == Err::<(Seq<u8>, Seq<u8>, Option<Seq<u8>>, Option<u16>, Seq<u8>, Option<Seq<u8>>), bool>(e == UrlError::RelativeWithoutBase),
        },
{
    let b = url::Url::parse(&String::from_utf8_lossy(&base.text)).map_err(|_| UrlError::Invalid)?;
    match b.join(input) {
        Ok(u) => Ok(Url {
            text: u.as_str().as_bytes().to_vec(),
            scheme: u.scheme().as_bytes().to_vec(),
            host: u.host_str().map(str::as_bytes).map(<[u8]>::to_vec),
            port: u.port(),
            path: u.path().as_bytes().to_vec(),
            query: u.query().map(str::as_bytes).map(<[u8]>::to_vec),
        }),
        Err(_) => Err(UrlError::Invalid),
    }
}

/// Calls `append_pair(key, value)` on the `query_pairs_mut` serializer of `url`
/// (converted back by parsing its serialization) and takes the parts of the result. The
/// `url` crate documents that the pair is serialized as `application/x-www-form-urlencoded`
/// and added after the existing pairs, separated by `&`, and that the scheme, host,
/// port and path stay as they are; that is what the contract states besides the name.
#[verifier::external_body]
fn append_pair_outside(url: &mut Url, key: &str, value: &str)
    ensures
        final(url)@ == url_with_pair(old(url)@, key@, value@),
        final(url)@.1 == old(url)@.1,
        final(url)@.2 == old(url)@.2,
        final(url)@.3 == old(url)@.3,
        final(url)@.4 == old(url)@.4,
        final(url)@.5 == Some(query_with_pair(old(url)@.5, key@, value@)),
{
    if let Ok(mut u) = url::Url::parse(&String::from_utf8_lossy(&url.text)) {
        u.query_pairs_mut().append_pair(key, value);
        url.text = u.as_str().as_bytes().to_vec();
        url.query = u.query().map(str::as_bytes).map(<[u8]>::to_vec);
    }
}

impl Url {
    /// Parses an absolute URL.
    pub fn parse(input: &str) -> (r: Result<Url, UrlError>)
        ensures
            match r {
                Ok(u) => parsed_url(input@) == Ok::<_, bool>(u@),
                Err(e) => parsed_url(input@) == Err::<(Seq<u8>, Seq<u8>, Option<Seq<u8>>, Option<u16>, Seq<u8>, Option<Seq<u8>>), bool>(e == UrlError::RelativeWithoutBase),
            },
    {
        parse_outside(input)
    }

    /// Resolves `input` against this URL.
    pub fn join(&self, input: &str) -> (r: Result<Url, UrlError>)
        ensures
            match r {
                Ok(u) => joined_url(self@, input@) == Ok::<_, bool>(u@),
                Err(e) => joined_url(self@, input@) == Err::<(Seq<u8>, Seq<u8>, Option<Seq<u8>>, Option<u16>, Seq<u8>, Option<Seq<u8>>), bool>(e == UrlError::RelativeWithoutBase),
            },
    {
        join_outside(self, input)
    }

    /// Appends the query pair `key=value`, form-encoded.
    pub fn append_pair(&mut self, key: &str, value: &str)
        ensures
            final(self)@ == url_with_pair(old(self)@, key@, value@),
            final(self)@.1 == old(self)@.1,
            final(self)@.2 == old(self)@.2,
            final(self)@.3 == old(self)@.3,
            final(self)@.4 == old(self)@.4,
            final(self)@.5 == Some(query_with_pair(old(self)@.5, key@, value@)),
    {
        append_pair_outside(self, key, value)
    }

    /// The serialization of the URL.
    pub fn as_bytes(&self) -> (r: &[u8])
        ensures
            r@ == self@.0,
    {
        self.text.as_slice()
    }

    /// The scheme, such as `http`.
    pub fn scheme(&self) -> (r: &[u8])
        ensures
            r@ == self@.1,
    {
        self.scheme.as_slice()
    }

    /// The host, if the URL has one.
    pub fn host(&self) -> (r: Option<&[u8]>)
        ensures
            match r {
                Some(h) => self@.2 == Some(h@),
                None => self@.2 is None,
            },
    {
        match &self.host {
            Some(h) => Some(h.as_slice()),
            None => None,
        }
    }

    /// The port given in the URL, if any (a port equal to the scheme's default is not kept).
    pub fn port(&self) -> (r: Option<u16>)
        ensures
            r == self@.3,
    {
        self.port
    }

    /// The port given in the URL, or else the default port of its scheme if known.
    pub fn port_or_known_default(&self) -> (r: Option<u16>)
        ensures
            r == (match self@.3 {
                Some(p) => Some(p),
                None => known_default_port(self@.1),
            }),
    {
        match self.port {
            Some(p) => Some(p),
            None => {
                let s = self.scheme.as_slice();
                if s.len() == 4 && s[0] == 104u8 && s[1] == 116u8 && s[2] == 116u8 && s[3] == 112u8 {
                    assert(s@ =~= seq![104u8, 116u8, 116u8, 112u8]);
                    Some(80u16)
                } else if s.len() == 2 && s[0] == 119u8 && s[1] == 115u8 {
                    assert(s@ =~= seq![119u8, 115u8]);
                    Some(80u16)
                } else if s.len() == 5 && s[0] == 104u8 && s[1] == 116u8 && s[2] == 116u8 && s[3] == 112u8
                    && s[4] == 115u8 {
                    assert(s@ =~= seq![104u8, 116u8, 116u8, 112u8, 115u8]);
                    Some(443u16)
                } else if s.len() == 3 && s[0] == 119u8 && s[1] == 115u8 && s[2] == 115u8 {
                    assert(s@ =~= seq![119u8, 115u8, 115u8]);
                    Some(443u16)
                } else if s.len() == 3 && s[0] == 102u8 && s[1] == 116u8 && s[2] == 112u8 {
                    assert(s@ =~= seq![102u8, 116u8, 112u8]);
                    Some(21u16)
                } else {
                    None
                }
            },
        }
    }

    /// The path.
    pub fn path(&self) -> (r: &[u8])
        ensures
            r@ == self@.4,
    {
        self.path.as_slice()
    }

    /// The query, if the URL has one.
    pub fn query(&self) -> (r: Option<&[u8]>)
        ensures
            match r {
                Some(q) => self@.5 == Some(q@),
                None => self@.5 is None,
            },
    {
        match &self.query {
            Some(q) => Some(q.as_slice()),
            None => None,
        }
    }
}

} // verus!
