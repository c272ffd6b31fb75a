//! The decisions of opening a connection: which host and port to connect to, whether
//! with TLS, whether to open a tunnel through a proxy, what to ask the proxy and how
//! to read its answer; and how a read of a connection with a deadline ends.

use vstd::prelude::*;

use crate::digits::{dec_digits, write_dec};
use crate::error::{ErrorKind, IoErrorKind};
use crate::proxy::{spec_http, spec_https};
use crate::request::append_bytes;
use crate::names;
use crate::urls::{known_default_port, Url, UrlParts};

verus! {

/// The largest part of a refusal's body that is kept: 10 KiB.
pub const MAX_REFUSAL_BODY: usize = 10240;

/// Where and how to connect.
#[derive(Debug)]
pub struct ConnectTarget {
    /// The host to connect to.
    pub host: Vec<u8>,
    /// The port to connect to.
    pub port: u16,
    /// Whether the connection uses TLS.
    pub tls: bool,
    /// Whether a tunnel to the remote URL is then opened through the proxy.
    pub tunnel: bool,
}

/// The port of a URL: the one it names, else the default port of its scheme.
pub open spec fn url_port(u: UrlParts) -> Option<u16> {
    match u.3 {
        Some(p) => Some(p),
        None => known_default_port(u.1),
    }
}

/// Where and how to connect for a request to `url` through `proxy`: the proxy's host
/// and port if there is a proxy, else the URL's; TLS for `https`; a tunnel when a proxy
/// carries an `https` request. The error is `InvalidUrlHost` or `InvalidUrlPort` when the
/// host or port is missing, `InvalidBaseUrl` when the scheme is neither `http` nor `https`.
pub open spec fn connect_spec(url: UrlParts, proxy: Option<UrlParts>) -> Result<(Seq<u8>, u16, bool, bool), ErrorKind> {
    let target = match proxy {
        Some(p) => p,
        None => url,
    };
    match target.2 {
        None => Err(ErrorKind::InvalidUrlHost),
        Some(h) => match url_port(target) {
            None => Err(ErrorKind::InvalidUrlPort),
            Some(port) => if target.1 == spec_http() || target.1 == spec_https() {
                Ok((h, port, target.1 == spec_https(), proxy is Some && url.1 == spec_https()))
            } else {
                Err(ErrorKind::InvalidBaseUrl)
            },
        },
    }
}

fn is_http(s: &[u8]) -> (r: bool)
    ensures
        r == (s@ == spec_http()),
{
    let r = s.len() == 4 && s[0] == 104u8 && s[1] == 116u8 && s[2] == 116u8 && s[3] == 112u8;
    proof {
        if r {
            assert(s@ =~= spec_http());
        } else if s@ == spec_http() {
            assert(s@[0] == 104u8 && s@[1] == 116u8 && s@[2] == 116u8 && s@[3] == 112u8);
        }
    }
    r
}

fn is_https(s: &[u8]) -> (r: bool)
    ensures
        r == (s@ == spec_https()),
{
    let r = s.len() == 5 && s[0] == 104u8 && s[1] == 116u8 && s[2] == 116u8 && s[3] == 112u8 && s[4] == 115u8;
    proof {
        if r {
            assert(s@ =~= spec_https());
        } else if s@ == spec_https() {
            assert(s@[0] == 104u8 && s@[1] == 116u8 && s@[2] == 116u8 && s@[3] == 112u8 && s@[4] == 115u8);
        }
    }
    r
}

/// Where and how to connect for a request to `url` through `proxy`.
pub fn connect_target(url: &Url, proxy: Option<&Url>) -> (r: Result<ConnectTarget, ErrorKind>)
    ensures
        match connect_spec(url@, match proxy {
            Some(p) => Some(p@),
            None => None,
        }) {
            Ok((h, port, tls, tunnel)) => r matches Ok(t) && t.host@ == h && t.port == port && t.tls == tls
                && t.tunnel == tunnel,
            Err(e) => r == Err::<ConnectTarget, ErrorKind>(e),
        },
{
    let target = match proxy {
        Some(p) => p,
        None => url,
    };
    let host = match target.host() {
        Some(h) => h,
        None => return Err(ErrorKind::InvalidUrlHost),
    };
    let port = match target.port_or_known_default() {
        Some(p) => p,
        None => return Err(ErrorKind::InvalidUrlPort),
    };
    let tls = if is_http(target.scheme()) {
        false
    } else if is_https(target.scheme()) {
        true
    } else {
        return Err(ErrorKind::InvalidBaseUrl);
    };
    let tunnel = match proxy {
        Some(_) => is_https(url.scheme()),
        None => false,
    };
    assert(spec_http().len() != spec_https().len());
    Ok(ConnectTarget { host: crate::reader::slice_to_vec(host), port, tls, tunnel })
}

/// The request that asks a proxy for a tunnel to `remote_host:remote_port`.
pub open spec fn tunnel_request_spec(remote_host: Seq<u8>, remote_port: u16, proxy_host: Seq<u8>, proxy_port: u16) -> Seq<u8> {
    names::spec_connect_request() + remote_host + seq![58u8] + dec_digits(remote_port as nat) + seq![32u8]
        + names::spec_http_version() + seq![13u8, 10u8] + names::spec_host_line() + proxy_host + seq![58u8]
        + dec_digits(proxy_port as nat) + seq![13u8, 10u8] + names::spec_connection_close_line() + seq![13u8, 10u8]
}

/// The request that asks the proxy `proxy` for a tunnel to the host and port of
/// `remote`. The error is `InvalidUrlHost` or `InvalidUrlPort` when a host or port is
/// missing, the remote's checked first.
pub fn tunnel_request(remote: &Url, proxy: &Url) -> (r: Result<Vec<u8>, ErrorKind>)
    ensures
        match (remote@.2, url_port(remote@), proxy@.2, url_port(proxy@)) {
            (None, _, _, _) => r == Err::<Vec<u8>, ErrorKind>(ErrorKind::InvalidUrlHost),
            (Some(_), None, _, _) => r == Err::<Vec<u8>, ErrorKind>(ErrorKind::InvalidUrlPort),
            (Some(_), Some(_), None, _) => r == Err::<Vec<u8>, ErrorKind>(ErrorKind::InvalidUrlHost),
            (Some(_), Some(_), Some(_), None) => r == Err::<Vec<u8>, ErrorKind>(ErrorKind::InvalidUrlPort),
            (Some(rh), Some(rp), Some(ph), Some(pp)) => r matches Ok(v) && v@ == tunnel_request_spec(rh, rp, ph, pp),
        },
{
    let remote_host = match remote.host() {
        Some(h) => h,
        None => return Err(ErrorKind::InvalidUrlHost),
    };
    let remote_port = match remote.port_or_known_default() {
        Some(p) => p,
        None => return Err(ErrorKind::InvalidUrlPort),
    };
    let proxy_host = match proxy.host() {
        Some(h) => h,
        None => return Err(ErrorKind::InvalidUrlHost),
    };
    let proxy_port = match proxy.port_or_known_default() {
        Some(p) => p,
        None => return Err(ErrorKind::InvalidUrlPort),
    };
    let mut out = names::connect_request();
    append_bytes(&mut out, remote_host);
    out.push(58u8);
    write_dec(remote_port as u64, &mut out);
    out.push(32u8);
    let v = names::http_version();
    append_bytes(&mut out, v.as_slice());
    out.push(13u8);
    out.push(10u8);
    let h = names::host_line();
    append_bytes(&mut out, h.as_slice());
    append_bytes(&mut out, proxy_host);
    out.push(58u8);
    write_dec(proxy_port as u64, &mut out);
    out.push(13u8);
    out.push(10u8);
    let c = names::connection_close_line();
    append_bytes(&mut out, c.as_slice());
    out.push(13u8);
    out.push(10u8);
    assert(out@ =~= tunnel_request_spec(remote_host@, remote_port, proxy_host@, proxy_port));
    Ok(out)
}

/// How a proxy's answer to a tunnel request with status `status` is taken: a success
/// status opens the tunnel; any other is a `ConnectError` with the status and at most
/// the first 10 KiB of `body`.
pub fn tunnel_outcome(status: u16, body: &[u8]) -> (r: Result<(), ErrorKind>)
    ensures
        if 200 <= status <= 299 {
            r is Ok
        } else {
            r matches Err(ErrorKind::ConnectError { status_code, body: b }) && status_code == status
                && b@ == (if body@.len() <= MAX_REFUSAL_BODY { body@ } else { body@.take(MAX_REFUSAL_BODY as int) })
        },
{
    if 200 <= status && status <= 299 {
        return Ok(());
    }
    let n = if body.len() <= MAX_REFUSAL_BODY { body.len() } else { MAX_REFUSAL_BODY };
    let kept = crate::reader::slice_to_vec(&body[0..n]);
    proof {
        assert(kept@ =~= (if body@.len() <= MAX_REFUSAL_BODY { body@ } else { body@.take(MAX_REFUSAL_BODY as int) }));
    }
    Err(ErrorKind::ConnectError { status_code: status, body: kept })
}

/// Whether a read of a connection with a deadline must check with the timer: the read
/// gave no bytes into a buffer that had room, and a timer is running.
pub fn timer_check_due(read: &Result<usize, IoErrorKind>, buf_len: usize, has_timer: bool) -> (r: bool)
    ensures
        r == (read matches Ok(n) && n == 0 && buf_len > 0 && has_timer),
{
    match read {
        Ok(n) => *n == 0 && buf_len > 0 && has_timer,
        Err(_) => false,
    }
}

/// How a read of a connection with a deadline ends: as the read did, except that an
/// empty read counts as a time-out when the timer could not be told that the read
/// ended, because it had already shut the connection down. `timer_gone` is whether
/// telling the timer failed, if it was told.
pub fn read_timeout(read: Result<usize, IoErrorKind>, timer_gone: Option<bool>) -> (r: Result<usize, IoErrorKind>)
    ensures
        r == (if read == Ok::<usize, IoErrorKind>(0) && timer_gone == Some(true) {
            Err(IoErrorKind::TimedOut)
        } else {
            read
        }),
{
    match read {
        Ok(0) => match timer_gone {
            Some(true) => Err(IoErrorKind::TimedOut),
            _ => Ok(0),
        },
        other => other,
    }
}

} // verus!
