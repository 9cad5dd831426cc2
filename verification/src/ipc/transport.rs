//! Structured transport endpoints, the ecosystem wire format returned by
//! capability resolution: a Unix socket, a TCP address, or a mesh relay.

use vstd::prelude::*;
use vstd::string::*;

use crate::text::{is_digit, lemma_decimal_reads_back, nat_decimal, parse_unsigned, parse_unsigned_max, unsigned_digits};

verus! {

/// Structured transport endpoint.
#[derive(Debug, Clone, PartialEq, Eq)]
pub enum TransportEndpoint {
    /// Unix domain socket.
    Uds {
        /// Absolute filesystem path to the socket.
        path: String,
    },
    /// TCP connection.
    Tcp {
        /// Hostname or IP address.
        host: String,
        /// Port number.
        port: u16,
    },
    /// Mesh relay via federation.
    MeshRelay {
        /// Identity of the remote gate hosting the primal.
        peer_id: String,
        /// Relay address (federation endpoint).
        relay: String,
    },
}

/// Index of the last occurrence of `c` in `s`.
pub open spec fn last_index_of(s: Seq<char>, c: char) -> Option<int> {
    if exists|i: int| 0 <= i < s.len() && s[i] == c {
        Some(choose|i: int| 0 <= i < s.len() && s[i] == c && forall|j: int| i < j < s.len() ==> s[j] != c)
    } else {
        None
    }
}

/// The TCP endpoint spelled by `addr` (`host:port`, split at the last
/// colon, the port read as a `u16`), as (host, port).
pub open spec fn tcp_addr_parts(addr: Seq<char>) -> Option<(Seq<char>, u16)> {
    match last_index_of(addr, ':') {
        Some(k) => match parse_unsigned(addr.subrange(k + 1, addr.len() as int), u16::MAX as nat) {
            Some(p) => Some((addr.subrange(0, k), p as u16)),
            None => None,
        },
        None => None,
    }
}

/// Whether `ep` is the TCP endpoint with host `host` and port `port`.
pub open spec fn is_tcp(ep: TransportEndpoint, host: Seq<char>, port: u16) -> bool {
    match ep {
        TransportEndpoint::Tcp { host: h, port: p } => h@ == host && p == port,
        _ => false,
    }
}

/// Finds the last `c` in `s`.
pub fn rfind_char(s: &str, c: char) -> (r: Option<usize>)
    ensures
        match r {
            Some(i) => last_index_of(s@, c) == Some(i as int) && i < s@.len() && s@[i as int] == c,
            None => last_index_of(s@, c) is None,
        },
{
    let n = s.unicode_len();
    let mut i: usize = n;
    while i > 0
        invariant
            i <= n == s@.len(),
            forall|j: int| i <= j < n ==> s@[j] != c,
        decreases i,
    {
        if s.get_char(i - 1) == c {
            let k = i - 1;
            proof {
                let w = choose|w: int| 0 <= w < s@.len() && s@[w] == c && forall|j: int| w < j < s@.len() ==> s@[j] != c;
                assert(s@[k as int] == c);
                if w < k {
                    assert(s@[k as int] != c);
                } else if w > k {
                    assert(s@[w] != c);
                }
            }
            return Some(k);
        }
        i = i - 1;
    }
    None
}

impl TransportEndpoint {
    /// A Unix socket endpoint at `path`.
    pub fn uds(path: &str) -> (r: TransportEndpoint)
        ensures
            r matches TransportEndpoint::Uds { path: p } && p@ == path@,
    {
        TransportEndpoint::Uds { path: path.to_owned() }
    }

    /// A TCP endpoint at `host` and `port`.
    pub fn tcp(host: &str, port: u16) -> (r: TransportEndpoint)
        ensures
            is_tcp(r, host@, port),
    {
        TransportEndpoint::Tcp { host: host.to_owned(), port }
    }

    /// A mesh relay endpoint.
    pub fn mesh_relay(peer_id: &str, relay: &str) -> (r: TransportEndpoint)
        ensures
            r matches TransportEndpoint::MeshRelay { peer_id: p, relay: q } && p@ == peer_id@
                && q@ == relay@,
    {
        TransportEndpoint::MeshRelay { peer_id: peer_id.to_owned(), relay: relay.to_owned() }
    }

    /// Parse a TCP address (`host:port`) into a TCP endpoint: split at the
    /// last colon, the port read as a `u16`; `None` when there is no colon
    /// or the port does not read.
    pub fn from_tcp_addr(addr: &str) -> (r: Option<TransportEndpoint>)
        ensures
            match tcp_addr_parts(addr@) {
                Some((h, p)) => r is Some && is_tcp(r->0, h, p),
                None => r is None,
            },
    {
        let n = addr.unicode_len();
        match rfind_char(addr, ':') {
            Some(k) => {
                let host = addr.substring_char(0, k);
                let port_text = addr.substring_char(k + 1, n);
                match parse_unsigned_max(port_text, 65535) {
                    Some(p) => Some(Self::tcp(host, p as u16)),
                    None => None,
                }
            },
            None => None,
        }
    }
}

/// An address written as `host:port` (the way `host_port` writes it)
/// reads back as the same endpoint: its host and its port, whatever colons
/// the host itself holds.
pub proof fn law_tcp_address_round_trip(host: Seq<char>, port: u16)
    ensures
        tcp_addr_parts(host + ":"@ + nat_decimal(port as nat)) == Some((host, port)),
{
    reveal_strlit(":");
    let d = nat_decimal(port as nat);
    lemma_decimal_reads_back(port as nat);
    let a = host + ":"@ + d;
    let k = host.len() as int;
    assert(a[k] == ':');
    assert forall|j: int| k < j < a.len() implies a[j] != ':' by {
        assert(a[j] == d[j - k - 1]);
        assert(is_digit(d[j - k - 1]));
    }
    assert(last_index_of(a, ':') == Some(k)) by {
        let i = choose|i: int| 0 <= i < a.len() && a[i] == ':' && forall|j: int| i < j < a.len() ==> a[j] != ':';
        if i < k {
            assert(a[k] != ':');
        }
    }
    assert(a.subrange(k + 1, a.len() as int) =~= d);
    assert(a.subrange(0, k) =~= host);
    assert(d[0] != '+') by {
        assert(is_digit(d[0]));
    }
    assert(unsigned_digits(d) == d);
}

/// Where `c` occurs in `s`, there is a last occurrence.
proof fn lemma_last_occurrence(s: Seq<char>, c: char)
    requires
        exists|i: int| 0 <= i < s.len() && s[i] == c,
    ensures
        exists|i: int| 0 <= i < s.len() && s[i] == c && forall|j: int| i < j < s.len() ==> s[j] != c,
    decreases s.len(),
{
    let n = s.len() - 1;
    if s[n] == c {
        assert(forall|j: int| n < j < s.len() ==> s[j] != c);
    } else {
        let t = s.drop_last();
        let w = choose|i: int| 0 <= i < s.len() && s[i] == c;
        assert(t[w] == c);
        lemma_last_occurrence(t, c);
        let i = choose|i: int| 0 <= i < t.len() && t[i] == c && forall|j: int| i < j < t.len() ==> t[j] != c;
        assert(s[i] == c);
        assert forall|j: int| i < j < s.len() implies s[j] != c by {
            if j < n {
                assert(t[j] == s[j]);
            }
        }
    }
}

/// Conversely, an address that reads as a TCP endpoint is its host, a
/// colon, and a text with no colon that reads as its port.
pub proof fn law_tcp_address_split(addr: Seq<char>, host: Seq<char>, port: u16)
    requires
        tcp_addr_parts(addr) == Some((host, port)),
    ensures
        exists|rest: Seq<char>|
            #![trigger host + ":"@ + rest]
            addr == host + ":"@ + rest && parse_unsigned(rest, u16::MAX as nat) == Some(port as nat)
                && !rest.contains(':'),
{
    reveal_strlit(":");
    lemma_last_occurrence(addr, ':');
    let k = last_index_of(addr, ':')->0;
    assert(0 <= k < addr.len() && addr[k] == ':' && forall|j: int| k < j < addr.len() ==> addr[j] != ':');
    let rest = addr.subrange(k + 1, addr.len() as int);
    assert(addr.subrange(0, k) == host);
    assert(addr =~= host + ":"@ + rest);
    assert(!rest.contains(':')) by {
        if rest.contains(':') {
            let j = choose|j: int| 0 <= j < rest.len() && rest[j] == ':';
            assert(rest[j] == addr[k + 1 + j]);
        }
    }
}

} // verus!
