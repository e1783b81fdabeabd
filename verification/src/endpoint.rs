//! Endpoint descriptors: the benchmark target and the proxy in front of it,
//! parsed from URL strings. The URL grammar itself is handled by an outside
//! parser behind one trusted boundary; everything downstream of its
//! components (defaulting, path/query assembly, the Host header) is
//! verified.

use crate::util::str_eq;
use vstd::prelude::*;

verus! {

/// The components that URL parsing extracts from a string: scheme, host,
/// port, path, query. Nothing is known of this function except what the
/// parsing wrapper states.
pub uninterp spec fn url_parts_of(s: Seq<char>) -> Option<
    (Seq<char>, Option<Seq<char>>, Option<u16>, Seq<char>, Option<Seq<char>>),
>;

/// The string parses as an absolute URL.
pub open spec fn url_ok(s: Seq<char>) -> bool {
    url_parts_of(s) is Some
}

/// The parsed URL's scheme (lower-cased by the parser).
pub open spec fn url_scheme(s: Seq<char>) -> Seq<char> {
    url_parts_of(s)->Some_0.0
}

/// The parsed URL's host, when it has one.
pub open spec fn url_host(s: Seq<char>) -> Option<Seq<char>> {
    url_parts_of(s)->Some_0.1
}

/// The parsed URL's explicit port; the parser reports none when the port
/// is the scheme's default.
pub open spec fn url_port(s: Seq<char>) -> Option<u16> {
    url_parts_of(s)->Some_0.2
}

/// The parsed URL's path, without the query string.
pub open spec fn url_path(s: Seq<char>) -> Seq<char> {
    url_parts_of(s)->Some_0.3
}

/// The parsed URL's query string, when it has one.
pub open spec fn url_query(s: Seq<char>) -> Option<Seq<char>> {
    url_parts_of(s)->Some_0.4
}

/// The components of one parsed URL, held as plain values.
pub struct RawUrl {
    pub scheme: String,
    pub host: Option<String>,
    pub port: Option<u16>,
    pub path: String,
    pub query: Option<String>,
}

/// Relies on url::Url::parse and its scheme/host_str/port/path/query
/// accessors: parsing is a pure function of the input string that either
/// rejects it or yields these components; scheme() comes back lower-cased.
#[verifier::external_body]
fn split_url(s: &str) -> (r: Option<RawUrl>)
    ensures
        (r is Some) == (url_parts_of(s@) is Some),
        r matches Some(u) ==> {
            &&& u.scheme@ == url_scheme(s@)
            &&& (u.host is Some) == (url_host(s@) is Some)
            &&& (u.host matches Some(h) ==> url_host(s@) == Some(h@))
            &&& u.port == url_port(s@)
            &&& u.path@ == url_path(s@)
            &&& (u.query is Some) == (url_query(s@) is Some)
            &&& (u.query matches Some(q) ==> url_query(s@) == Some(q@))
        },
{
    match url::Url::parse(s) {
        Ok(u) => Some(
            RawUrl {
                scheme: u.scheme().to_string(),
                host: u.host_str().map(|h| h.to_string()),
                port: u.port(),
                path: u.path().to_string(),
                query: u.query().map(|q| q.to_string()),
            },
        ),
        Err(_) => None,
    }
}

/// The character for one decimal digit value.
pub open spec fn digit_char(d: int) -> char {
    if d == 0 {
        '0'
    } else if d == 1 {
        '1'
    } else if d == 2 {
        '2'
    } else if d == 3 {
        '3'
    } else if d == 4 {
        '4'
    } else if d == 5 {
        '5'
    } else if d == 6 {
        '6'
    } else if d == 7 {
        '7'
    } else if d == 8 {
        '8'
    } else {
        '9'
    }
}

/// The decimal digits of `n`, most significant first, no sign and no
/// leading zeros (a single zero for 0).
pub open spec fn dec_digits(n: int) -> Seq<char>
    decreases n,
{
    if n < 10 {
        seq![digit_char(n)]
    } else {
        dec_digits(n / 10).push(digit_char(n % 10))
    }
}

fn digit_str(d: u16) -> (r: &'static str)
    requires
        d < 10,
    ensures
        r@ == seq![digit_char(d as int)],
{
    proof {
        reveal_strlit("0");
        reveal_strlit("1");
        reveal_strlit("2");
        reveal_strlit("3");
        reveal_strlit("4");
        reveal_strlit("5");
        reveal_strlit("6");
        reveal_strlit("7");
        reveal_strlit("8");
        reveal_strlit("9");
    }
    let r = match d {
        0 => "0",
        1 => "1",
        2 => "2",
        3 => "3",
        4 => "4",
        5 => "5",
        6 => "6",
        7 => "7",
        8 => "8",
        _ => "9",
    };
    proof {
        assert(r@ =~= seq![digit_char(d as int)]);
    }
    r
}

/// Renders `x` in decimal.
pub fn u16_to_string(x: u16) -> (r: String)
    ensures
        r@ == dec_digits(x as int),
{
    let d0 = x % 10;
    let mut out = String::from_str(digit_str(d0));
    let mut v = x / 10;
    proof {
        if x < 10 {
            assert(out@ =~= dec_digits(x as int));
        } else {
            assert(dec_digits(x as int) =~= dec_digits(v as int) + out@);
        }
    }
    while v > 0
        invariant
            if v > 0 {
                dec_digits(x as int) =~= dec_digits(v as int) + out@
            } else {
                dec_digits(x as int) =~= out@
            },
        decreases v,
    {
        let d = v % 10;
        let ghost old_out = out@;
        let ghost old_v = v as int;
        out = String::from_str(digit_str(d)).concat(out.as_str());
        v = v / 10;
        proof {
            assert(out@ =~= seq![digit_char(d as int)] + old_out);
            if old_v >= 10 {
                assert(dec_digits(old_v) =~= dec_digits(old_v / 10).push(
                    digit_char(old_v % 10),
                ));
                assert(dec_digits(old_v / 10).push(digit_char(old_v % 10)) + old_out
                    =~= dec_digits(old_v / 10) + (seq![digit_char(old_v % 10)] + old_out));
            } else {
                assert(dec_digits(old_v) =~= seq![digit_char(old_v)]);
                assert(dec_digits(x as int) =~= out@);
            }
        }
    }
    out
}

/// Why a target or proxy URL was rejected.
#[derive(Clone, Copy, Debug, PartialEq, Eq, Structural)]
pub enum UrlError {
    /// The string is not an absolute URL.
    Invalid,
    /// The URL's scheme is not accepted here.
    UnsupportedScheme,
    /// The URL names no host.
    MissingHost,
}

/// The benchmark target: where requests are sent once a tunnel stands.
/// Immutable after construction, shared read-only by every iteration.
pub struct Target {
    /// "http" or "https".
    pub scheme: String,
    /// The host that drives DNS/SNI and, with the port, the tunnel
    /// destination.
    pub host: String,
    /// The explicit or scheme-default port.
    pub port: u16,
    /// The request path, query string included.
    pub path: String,
    /// What the Host header carries: the host, with the port appended
    /// unless it is the scheme's default.
    pub host_header: String,
}

/// The port a target URL gets when it names none.
pub open spec fn default_target_port(scheme: Seq<char>) -> u16 {
    if scheme == "https"@ {
        443
    } else {
        80
    }
}

/// The port the target is addressed at.
pub open spec fn effective_port(s: Seq<char>) -> u16 {
    match url_port(s) {
        Some(p) => p,
        None => default_target_port(url_scheme(s)),
    }
}

/// The request path: the URL path (or "/" when empty), with the query
/// string appended after '?' when there is one.
pub open spec fn effective_path(s: Seq<char>) -> Seq<char> {
    let base = if url_path(s).len() == 0 {
        "/"@
    } else {
        url_path(s)
    };
    match url_query(s) {
        Some(q) => base + "?"@ + q,
        None => base,
    }
}

/// The Host header value: the port is omitted exactly when it is the
/// scheme's default (80 for http, 443 for https).
pub open spec fn spec_host_header(scheme: Seq<char>, host: Seq<char>, port: u16) -> Seq<char> {
    if (scheme == "http"@ && port == 80) || (scheme == "https"@ && port == 443) {
        host
    } else {
        host + seq![':'] + dec_digits(port as int)
    }
}

/// Builds "host:port".
pub fn host_with_port(host: &str, port: u16) -> (r: String)
    ensures
        r@ == host@ + seq![':'] + dec_digits(port as int),
{
    let mut out = String::from_str(host);
    proof {
        reveal_strlit(":");
    }
    out.append(":");
    let p = u16_to_string(port);
    out.append(p.as_str());
    proof {
        assert(out@ =~= host@ + seq![':'] + dec_digits(port as int));
    }
    out
}

/// Reads a target URL: the scheme must be http or https and a host must be
/// present; a missing port defaults to 80/443; an empty path becomes "/";
/// the query string is kept on the path; the Host header omits a default
/// port.
pub fn parse_url_target(url_str: &str) -> (r: Result<Target, UrlError>)
    ensures
        match r {
            Ok(t) => {
                &&& url_ok(url_str@)
                &&& (url_scheme(url_str@) == "http"@ || url_scheme(url_str@) == "https"@)
                &&& url_host(url_str@) is Some
                &&& t.scheme@ == url_scheme(url_str@)
                &&& t.host@ == url_host(url_str@)->Some_0
                &&& t.port == effective_port(url_str@)
                &&& t.path@ == effective_path(url_str@)
                &&& t.host_header@ == spec_host_header(t.scheme@, t.host@, t.port)
            },
            Err(UrlError::Invalid) => !url_ok(url_str@),
            Err(UrlError::UnsupportedScheme) => url_ok(url_str@) && url_scheme(url_str@)
                != "http"@ && url_scheme(url_str@) != "https"@,
            Err(UrlError::MissingHost) => url_ok(url_str@) && (url_scheme(url_str@) == "http"@
                || url_scheme(url_str@) == "https"@) && url_host(url_str@) is None,
        },
{
    let u = match split_url(url_str) {
        Some(u) => u,
        None => {
            return Err(UrlError::Invalid);
        },
    };
    let is_http = str_eq(u.scheme.as_str(), "http");
    let is_https = str_eq(u.scheme.as_str(), "https");
    if !is_http && !is_https {
        return Err(UrlError::UnsupportedScheme);
    }
    let host = match u.host {
        Some(h) => h,
        None => {
            return Err(UrlError::MissingHost);
        },
    };
    let port = match u.port {
        Some(p) => p,
        None => if is_https {
            443
        } else {
            80
        },
    };
    let mut path = if u.path.as_str().is_empty() {
        proof {
            reveal_strlit("/");
        }
        String::from_str("/")
    } else {
        u.path
    };
    if let Some(q) = u.query {
        path.append("?");
        path.append(q.as_str());
    }
    let host_header = if (is_http && port == 80) || (is_https && port == 443) {
        host.clone()
    } else {
        host_with_port(host.as_str(), port)
    };
    Ok(Target { scheme: u.scheme, host, port, path, host_header })
}

/// The destination the proxy is asked to tunnel to: the override when one
/// was given, else the target's own "host:port" (the original host still
/// drives SNI and the Host header either way).
pub fn connect_destination(t: &Target, connect_to: &Option<String>) -> (r: String)
    ensures
        r@ == match connect_to {
            Some(ct) => ct@,
            None => t.host@ + seq![':'] + dec_digits(t.port as int),
        },
{
    match connect_to {
        Some(ct) => ct.clone(),
        None => host_with_port(t.host.as_str(), t.port),
    }
}

/// How the proxy is spoken to.
#[derive(Clone, Copy, Debug, PartialEq, Eq, Structural)]
pub enum ProxyScheme {
    /// HTTP CONNECT tunnelling.
    Http,
    /// SOCKS5 negotiation.
    Socks5,
}

/// The port a proxy URL gets when it names none.
pub const DEFAULT_PROXY_PORT: u16 = 2080;

/// The proxy every iteration tunnels through. Immutable after
/// construction.
pub struct Proxy {
    pub scheme: ProxyScheme,
    pub host: String,
    pub port: u16,
}

/// Reads a proxy URL: the scheme must be socks5 or http, a host must be
/// present, and a missing port defaults to 2080 for either scheme.
pub fn parse_proxy(url_str: &str) -> (r: Result<Proxy, UrlError>)
    ensures
        match r {
            Ok(p) => {
                &&& url_ok(url_str@)
                &&& (url_scheme(url_str@) == "socks5"@ || url_scheme(url_str@) == "http"@)
                &&& p.scheme == (if url_scheme(url_str@) == "socks5"@ {
                    ProxyScheme::Socks5
                } else {
                    ProxyScheme::Http
                })
                &&& url_host(url_str@) is Some
                &&& p.host@ == url_host(url_str@)->Some_0
                &&& p.port == (match url_port(url_str@) {
                    Some(q) => q,
                    None => DEFAULT_PROXY_PORT,
                })
            },
            Err(UrlError::Invalid) => !url_ok(url_str@),
            Err(UrlError::UnsupportedScheme) => url_ok(url_str@) && url_scheme(url_str@)
                != "socks5"@ && url_scheme(url_str@) != "http"@,
            Err(UrlError::MissingHost) => url_ok(url_str@) && (url_scheme(url_str@) == "socks5"@
                || url_scheme(url_str@) == "http"@) && url_host(url_str@) is None,
        },
{
    let u = match split_url(url_str) {
        Some(u) => u,
        None => {
            return Err(UrlError::Invalid);
        },
    };
    let is_socks = str_eq(u.scheme.as_str(), "socks5");
    let is_http = str_eq(u.scheme.as_str(), "http");
    if !is_socks && !is_http {
        return Err(UrlError::UnsupportedScheme);
    }
    let host = match u.host {
        Some(h) => h,
        None => {
            return Err(UrlError::MissingHost);
        },
    };
    let port = match u.port {
        Some(p) => p,
        None => DEFAULT_PROXY_PORT,
    };
    Ok(
        Proxy {
            scheme: if is_socks {
                ProxyScheme::Socks5
            } else {
                ProxyScheme::Http
            },
            host,
            port,
        },
    )
}

} // verus!
