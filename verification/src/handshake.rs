//! Proxy-handshake protocol logic: the CONNECT request and its reply
//! scanner (with the hard cap on unterminated replies), the SOCKS5
//! negotiation messages, and the single per-iteration deadline budget.

use vstd::prelude::*;
use vstd::slice::slice_subrange;

verus! {

/// A CONNECT reply buffered beyond this many bytes with no header
/// terminator is rejected as oversized.
pub const MAX_CONNECT_REPLY: usize = 8192;

/// The CONNECT request sent to an HTTP proxy for this destination.
pub fn connect_request(connect_target: &str) -> (r: String)
    ensures
        r@ == "CONNECT "@ + connect_target@ + " HTTP/1.1\r\nHost: "@ + connect_target@
            + "\r\nProxy-Connection: Keep-Alive\r\n\r\n"@,
{
    let mut out = String::from_str("CONNECT ");
    out.append(connect_target);
    out.append(" HTTP/1.1\r\nHost: ");
    out.append(connect_target);
    out.append("\r\nProxy-Connection: Keep-Alive\r\n\r\n");
    proof {
        assert(out@ =~= "CONNECT "@ + connect_target@ + " HTTP/1.1\r\nHost: "@
            + connect_target@ + "\r\nProxy-Connection: Keep-Alive\r\n\r\n"@);
    }
    out
}

/// A blank-line header terminator (CR LF CR LF) starts at byte `i`.
pub open spec fn terminator_at(b: Seq<u8>, i: int) -> bool {
    b[i] == 13 && b[i + 1] == 10 && b[i + 2] == 13 && b[i + 3] == 10
}

/// `needle` occurs contiguously somewhere in `hay`.
pub open spec fn has_sub_bytes(hay: Seq<u8>, needle: Seq<u8>) -> bool {
    exists|i: int|
        0 <= i <= hay.len() - needle.len() && #[trigger] hay.subrange(i, i + needle.len())
            == needle
}

/// The bytes of "HTTP/1.1 200".
pub open spec fn http200_prefix() -> Seq<u8> {
    seq![
        'H' as u8,
        'T' as u8,
        'T' as u8,
        'P' as u8,
        '/' as u8,
        '1' as u8,
        '.' as u8,
        '1' as u8,
        ' ' as u8,
        '2' as u8,
        '0' as u8,
        '0' as u8,
    ]
}

/// The bytes of " 200 Connection", as in "200 Connection established".
pub open spec fn conn200_pattern() -> Seq<u8> {
    seq![
        ' ' as u8,
        '2' as u8,
        '0' as u8,
        '0' as u8,
        ' ' as u8,
        'C' as u8,
        'o' as u8,
        'n' as u8,
        'n' as u8,
        'e' as u8,
        'c' as u8,
        't' as u8,
        'i' as u8,
        'o' as u8,
        'n' as u8,
    ]
}

/// The proxy accepted the CONNECT: the head starts with "HTTP/1.1 200" or
/// contains " 200 Connection" (covering the "200 Connection established"
/// phrasing).
pub open spec fn reply_accepted(head: Seq<u8>) -> bool {
    (head.len() >= 12 && head.subrange(0, 12) == http200_prefix()) || has_sub_bytes(
        head,
        conn200_pattern(),
    )
}

fn http200_prefix_bytes() -> (r: Vec<u8>)
    ensures
        r@ == http200_prefix(),
{
    let mut r: Vec<u8> = Vec::new();
    r.push('H' as u8);
    r.push('T' as u8);
    r.push('T' as u8);
    r.push('P' as u8);
    r.push('/' as u8);
    r.push('1' as u8);
    r.push('.' as u8);
    r.push('1' as u8);
    r.push(' ' as u8);
    r.push('2' as u8);
    r.push('0' as u8);
    r.push('0' as u8);
    proof {
        assert(r@ =~= http200_prefix());
    }
    r
}

fn conn200_pattern_bytes() -> (r: Vec<u8>)
    ensures
        r@ == conn200_pattern(),
{
    let mut r: Vec<u8> = Vec::new();
    r.push(' ' as u8);
    r.push('2' as u8);
    r.push('0' as u8);
    r.push('0' as u8);
    r.push(' ' as u8);
    r.push('C' as u8);
    r.push('o' as u8);
    r.push('n' as u8);
    r.push('n' as u8);
    r.push('e' as u8);
    r.push('c' as u8);
    r.push('t' as u8);
    r.push('i' as u8);
    r.push('o' as u8);
    r.push('n' as u8);
    proof {
        assert(r@ =~= conn200_pattern());
    }
    r
}

/// True iff `needle`'s bytes occur contiguously in `hay`.
fn bytes_contain(hay: &[u8], needle: &Vec<u8>) -> (r: bool)
    ensures
        r == has_sub_bytes(hay@, needle@),
{
    let hl = hay.len();
    let nl = needle.len();
    if nl > hl {
        return false;
    }
    let mut i: usize = 0;
    while i <= hl - nl
        invariant
            nl <= hl == hay@.len(),
            nl == needle@.len(),
            i <= hl - nl + 1,
            forall|p: int|
                0 <= p < i ==> #[trigger] hay@.subrange(p, p + needle@.len()) != needle@,
        decreases hl - nl - i + 1,
    {
        let mut k: usize = 0;
        while k < nl && hay[i + k] == needle[k]
            invariant
                i + nl <= hl == hay@.len(),
                nl == needle@.len(),
                k <= nl,
                forall|q: int| 0 <= q < k ==> hay@[i + q] == needle@[q],
            decreases nl - k,
        {
            k = k + 1;
        }
        if k == nl {
            proof {
                assert(hay@.subrange(i as int, i + needle@.len()) =~= needle@);
            }
            return true;
        }
        proof {
            assert(hay@.subrange(i as int, i + needle@.len())[k as int] == hay@[i + k]);
            assert(hay@.subrange(i as int, i + needle@.len()) != needle@);
        }
        i = i + 1;
    }
    false
}

/// Whether the buffered head is a CONNECT acceptance, as `reply_accepted`
/// says.
pub fn connect_reply_ok(head: &[u8]) -> (r: bool)
    ensures
        r == reply_accepted(head@),
{
    let prefix = http200_prefix_bytes();
    if head.len() >= 12 {
        let mut k: usize = 0;
        while k < 12 && head[k] == prefix[k]
            invariant
                head@.len() >= 12,
                prefix@ == http200_prefix(),
                k <= 12,
                forall|q: int| 0 <= q < k ==> head@[q] == http200_prefix()[q],
            decreases 12 - k,
        {
            k = k + 1;
        }
        if k == 12 {
            proof {
                assert(head@.subrange(0, 12) =~= http200_prefix());
            }
            return true;
        }
        proof {
            assert(head@.subrange(0, 12)[k as int] == head@[k as int]);
            assert(head@.subrange(0, 12) != http200_prefix());
        }
    }
    let pat = conn200_pattern_bytes();
    bytes_contain(head, &pat)
}

/// Position of the first header terminator, when the buffer holds one.
pub fn find_header_end(buf: &[u8]) -> (r: Option<usize>)
    ensures
        match r {
            Some(i) => i + 4 <= buf@.len() && terminator_at(buf@, i as int) && forall|j: int|
                0 <= j < i ==> !terminator_at(buf@, j),
            None => forall|j: int| 0 <= j && j + 4 <= buf@.len() ==> !terminator_at(buf@, j),
        },
{
    let n = buf.len();
    if n < 4 {
        return None;
    }
    let mut i: usize = 0;
    while i <= n - 4
        invariant
            4 <= n == buf@.len(),
            i <= n - 3,
            forall|j: int| 0 <= j < i ==> !terminator_at(buf@, j),
        decreases n - i,
    {
        if buf[i] == 13 && buf[i + 1] == 10 && buf[i + 2] == 13 && buf[i + 3] == 10 {
            return Some(i);
        }
        i = i + 1;
    }
    None
}

/// What the CONNECT reply scanner says of the bytes buffered so far.
pub enum ConnectScan {
    /// No terminator yet and the cap not reached: keep reading.
    NeedMore,
    /// The header (of the attached length) ended and the proxy accepted.
    Accepted(usize),
    /// The header ended but the status line is no acceptance: the proxy
    /// refused the tunnel.
    Refused(usize),
    /// More than `MAX_CONNECT_REPLY` bytes buffered with no terminator:
    /// the reply is rejected outright, so an unterminated flood can
    /// neither hang nor grow the buffer without bound.
    Oversized,
}

/// Scans everything buffered so far from the proxy after a CONNECT:
/// exactly one of the four scanner verdicts holds, so an overlong reply
/// without a terminator fails deterministically instead of hanging.
pub fn scan_connect_reply(buf: &[u8]) -> (r: ConnectScan)
    ensures
        match r {
            ConnectScan::NeedMore => (forall|j: int|
                0 <= j && j + 4 <= buf@.len() ==> !terminator_at(buf@, j)) && buf@.len()
                <= MAX_CONNECT_REPLY,
            ConnectScan::Accepted(p) => p + 4 <= buf@.len() && terminator_at(buf@, p as int) && (
            forall|j: int| 0 <= j < p ==> !terminator_at(buf@, j)) && reply_accepted(
                buf@.subrange(0, p as int),
            ),
            ConnectScan::Refused(p) => p + 4 <= buf@.len() && terminator_at(buf@, p as int) && (
            forall|j: int| 0 <= j < p ==> !terminator_at(buf@, j)) && !reply_accepted(
                buf@.subrange(0, p as int),
            ),
            ConnectScan::Oversized => (forall|j: int|
                0 <= j && j + 4 <= buf@.len() ==> !terminator_at(buf@, j)) && buf@.len()
                > MAX_CONNECT_REPLY,
        },
{
    match find_header_end(buf) {
        Some(pos) => {
            let head = slice_subrange(buf, 0, pos);
            if connect_reply_ok(head) {
                ConnectScan::Accepted(pos)
            } else {
                ConnectScan::Refused(pos)
            }
        },
        None => {
            if buf.len() > MAX_CONNECT_REPLY {
                ConnectScan::Oversized
            } else {
                ConnectScan::NeedMore
            }
        },
    }
}

/// The SOCKS5 greeting: version 5, one method, no authentication.
pub open spec fn spec_socks5_greeting() -> Seq<u8> {
    seq![5u8, 1u8, 0u8]
}

/// Builds the SOCKS5 greeting.
pub fn socks5_greeting() -> (r: Vec<u8>)
    ensures
        r@ == spec_socks5_greeting(),
{
    let mut r: Vec<u8> = Vec::new();
    r.push(5);
    r.push(1);
    r.push(0);
    proof {
        assert(r@ =~= spec_socks5_greeting());
    }
    r
}

/// What the server's method-selection reply means.
#[derive(Clone, Copy, Debug, PartialEq, Eq, Structural)]
pub enum Socks5Method {
    /// Fewer than two bytes buffered: keep reading.
    NeedMore,
    /// Version 5, no authentication: proceed with CONNECT.
    NoAuth,
    /// Any other reply: the negotiation is rejected.
    Rejected,
}

/// How a method-selection reply is read.
pub open spec fn spec_socks5_method(b: Seq<u8>) -> Socks5Method {
    if b.len() < 2 {
        Socks5Method::NeedMore
    } else if b[0] == 5 && b[1] == 0 {
        Socks5Method::NoAuth
    } else {
        Socks5Method::Rejected
    }
}

/// Reads the method-selection reply, as `spec_socks5_method` says.
pub fn socks5_parse_method_reply(b: &[u8]) -> (r: Socks5Method)
    ensures
        r == spec_socks5_method(b@),
{
    if b.len() < 2 {
        Socks5Method::NeedMore
    } else if b[0] == 5 && b[1] == 0 {
        Socks5Method::NoAuth
    } else {
        Socks5Method::Rejected
    }
}

/// The SOCKS5 CONNECT request for a domain-addressed destination:
/// version, CONNECT, reserved, domain address type, length-prefixed host,
/// then the port in network order.
pub open spec fn spec_socks5_connect(host: Seq<u8>, port: u16) -> Seq<u8> {
    seq![5u8, 1u8, 0u8, 3u8, host.len() as u8] + host + seq![(port / 256) as u8, (port % 256) as u8]
}

/// Builds the SOCKS5 CONNECT request; the domain must fit its one-byte
/// length prefix.
pub fn socks5_connect_request(host: &[u8], port: u16) -> (r: Option<Vec<u8>>)
    ensures
        (r is Some) == (1 <= host@.len() <= 255),
        r matches Some(v) ==> v@ == spec_socks5_connect(host@, port),
{
    let n = host.len();
    if n == 0 || n > 255 {
        return None;
    }
    let mut r: Vec<u8> = Vec::new();
    r.push(5);
    r.push(1);
    r.push(0);
    r.push(3);
    r.push(n as u8);
    let mut i: usize = 0;
    while i < n
        invariant
            i <= n == host@.len(),
            1 <= n <= 255,
            r@ =~= seq![5u8, 1u8, 0u8, 3u8, host@.len() as u8] + host@.subrange(0, i as int),
        decreases n - i,
    {
        r.push(host[i]);
        proof {
            assert(host@.subrange(0, i + 1) =~= host@.subrange(0, i as int).push(
                host@[i as int],
            ));
        }
        i = i + 1;
    }
    r.push((port / 256) as u8);
    r.push((port % 256) as u8);
    proof {
        assert(host@.subrange(0, n as int) =~= host@);
        assert(r@ =~= spec_socks5_connect(host@, port));
    }
    Some(r)
}

/// What the server's CONNECT reply means.
#[derive(Clone, Copy, Debug, PartialEq, Eq, Structural)]
pub enum Socks5Reply {
    /// Not enough bytes yet to decide: keep reading.
    NeedMore,
    /// The tunnel stands; the reply occupies the attached number of bytes.
    Granted(usize),
    /// The server refused with this reply code.
    Refused(u8),
    /// The reply does not follow the protocol.
    Malformed,
}

/// Bytes of address payload for the reply's address type, or none when the
/// type is unknown. A domain address needs its length byte first.
pub open spec fn spec_socks5_addr_len(b: Seq<u8>) -> Option<int> {
    if b[3] == 1 {
        Some(4int)
    } else if b[3] == 4 {
        Some(16int)
    } else if b[3] == 3 {
        if b.len() < 5 {
            None
        } else {
            Some(1 + b[4] as int)
        }
    } else {
        None
    }
}

/// How a SOCKS5 CONNECT reply is read: version 5 and a zero reserved byte
/// are demanded, the address is sized by its type, and a non-zero reply
/// code is a refusal.
pub open spec fn spec_socks5_reply(b: Seq<u8>) -> Socks5Reply {
    if b.len() < 4 {
        Socks5Reply::NeedMore
    } else if b[0] != 5 || b[2] != 0 {
        Socks5Reply::Malformed
    } else if b[3] == 3 && b.len() < 5 {
        Socks5Reply::NeedMore
    } else {
        match spec_socks5_addr_len(b) {
            None => Socks5Reply::Malformed,
            Some(alen) => if b.len() < 4 + alen + 2 {
                Socks5Reply::NeedMore
            } else if b[1] == 0 {
                Socks5Reply::Granted((4 + alen + 2) as usize)
            } else {
                Socks5Reply::Refused(b[1])
            },
        }
    }
}

/// Reads the CONNECT reply buffered so far, as `spec_socks5_reply` says.
pub fn socks5_parse_connect_reply(b: &[u8]) -> (r: Socks5Reply)
    ensures
        r == spec_socks5_reply(b@),
{
    if b.len() < 4 {
        return Socks5Reply::NeedMore;
    }
    if b[0] != 5 || b[2] != 0 {
        return Socks5Reply::Malformed;
    }
    let alen: usize = if b[3] == 1 {
        4
    } else if b[3] == 4 {
        16
    } else if b[3] == 3 {
        if b.len() < 5 {
            return Socks5Reply::NeedMore;
        }
        1 + (b[4] as usize)
    } else {
        return Socks5Reply::Malformed;
    };
    if b.len() < 4 + alen + 2 {
        Socks5Reply::NeedMore
    } else if b[1] == 0 {
        Socks5Reply::Granted(4 + alen + 2)
    } else {
        Socks5Reply::Refused(b[1])
    }
}

/// Milliseconds left of the iteration's single deadline budget after
/// `elapsed_ms` have passed; the budget is never re-armed per step.
pub fn remaining_ms(budget_ms: u64, elapsed_ms: u64) -> (r: u64)
    ensures
        r == if elapsed_ms >= budget_ms {
            0u64
        } else {
            (budget_ms - elapsed_ms) as u64
        },
{
    if elapsed_ms >= budget_ms {
        0
    } else {
        budget_ms - elapsed_ms
    }
}

/// Whether the iteration's deadline has expired.
pub fn deadline_expired(budget_ms: u64, elapsed_ms: u64) -> (r: bool)
    ensures
        r == (elapsed_ms >= budget_ms),
{
    elapsed_ms >= budget_ms
}

} // verus!
