//! The framing rules of Webb's IPC server: where its socket lives, how a
//! TCP connection is told to speak HTTP, how request headers give the body
//! length, and how a JSON-RPC reply is framed as an HTTP response. The
//! sockets themselves are the caller's part.

use vstd::prelude::*;
use vstd::string::*;

use crate::ipc::discovery::is_white;
use crate::text::{is_prefix, nat_decimal, parse_unsigned};

use crate::ipc::envelope::ERROR_PARSE;
use crate::ipc::handlers::RpcFailure;

verus! {

/// The socket path of Webb's IPC server: the explicit override, else the
/// family's socket name in the usable socket directory, else in the
/// temporary directory (see `niche::resolve_server_socket`).
pub fn socket_path(explicit: Option<&str>, family_id: &str, usable_dir: Option<&str>, temp_dir: &str) -> (r: String)
    ensures
        r@ == crate::niche::server_socket_of(explicit, family_id@, usable_dir, temp_dir@),
{
    crate::niche::resolve_server_socket(explicit, family_id, usable_dir, temp_dir)
}

/// Whether the first line of a TCP connection opens an HTTP request.
pub open spec fn is_http_request_line(line: Seq<char>) -> bool {
    is_prefix("POST "@, line) || is_prefix("GET "@, line) || is_prefix("PUT "@, line) || is_prefix("OPTIONS "@, line)
}

/// Whether the first line of a TCP connection opens an HTTP request
/// (`POST`, `GET`, `PUT` or `OPTIONS`); otherwise it is a JSON-RPC line.
pub fn is_http_request(line: &str) -> (r: bool)
    ensures
        r == is_http_request_line(line@),
{
    crate::text::starts_with(line, "POST ") || crate::text::starts_with(line, "GET ") || crate::text::starts_with(line, "PUT ")
        || crate::text::starts_with(line, "OPTIONS ")
}

/// The number of white characters that begin `s`.
pub open spec fn lead_white(s: Seq<char>) -> nat
    decreases s.len(),
{
    if s.len() > 0 && is_white(s[0]) {
        1 + lead_white(s.drop_first())
    } else {
        0
    }
}

/// The number of white characters that end `s`.
pub open spec fn trail_white(s: Seq<char>) -> nat
    decreases s.len(),
{
    if s.len() > 0 && is_white(s.last()) {
        1 + trail_white(s.drop_last())
    } else {
        0
    }
}

/// `s` without leading and trailing white space (`str::trim`).
pub open spec fn trimmed(s: Seq<char>) -> Seq<char> {
    let a = lead_white(s) as int;
    if a == s.len() {
        Seq::empty()
    } else {
        s.subrange(a, s.len() - trail_white(s) as int)
    }
}

/// `lead_white` where the first non-white character is known.
proof fn lemma_lead_white(s: Seq<char>, k: int)
    requires
        0 <= k <= s.len(),
        forall|j: int| 0 <= j < k ==> is_white(s[j]),
        k == s.len() || !is_white(s[k]),
    ensures
        lead_white(s) == k,
    decreases k,
{
    if k > 0 {
        lemma_lead_white(s.drop_first(), k - 1);
    }
}

/// `trail_white` where the last non-white character is known.
proof fn lemma_trail_white(s: Seq<char>, k: int)
    requires
        0 <= k <= s.len(),
        forall|j: int| s.len() - k <= j < s.len() ==> is_white(s[j]),
        k == s.len() || !is_white(s[s.len() - k - 1]),
    ensures
        trail_white(s) == k,
    decreases k,
{
    if k > 0 {
        lemma_trail_white(s.drop_last(), k - 1);
    }
}

/// `s` without leading and trailing white space.
pub fn trim(s: &str) -> (r: &str)
    ensures
        r@ == trimmed(s@),
{
    let n = s.unicode_len();
    let mut a: usize = 0;
    while a < n && crate::ipc::discovery::white_char(s.get_char(a))
        invariant
            n == s@.len(),
            a <= n,
            forall|j: int| 0 <= j < a ==> is_white(s@[j]),
        decreases n - a,
    {
        a = a + 1;
    }
    proof {
        lemma_lead_white(s@, a as int);
    }
    if a == n {
        proof {
            reveal_strlit("");
        }
        return "";
    }
    let mut b: usize = n;
    while b > a && crate::ipc::discovery::white_char(s.get_char(b - 1))
        invariant
            n == s@.len(),
            a < n,
            !is_white(s@[a as int]),
            a <= b <= n,
            forall|j: int| b <= j < n ==> is_white(s@[j]),
        decreases b,
    {
        b = b - 1;
    }
    proof {
        if b == a {
            assert(is_white(s@[a as int]) || b > a);
        }
        lemma_trail_white(s@, (n - b) as int);
    }
    s.substring_char(a, b)
}

/// The body length after one header line, or `None` at the blank line
/// that ends the headers: a `Content-Length:` (or `content-length:`)
/// header sets it to its value read as a `usize`, or 0 where that does
/// not read; other headers leave it.
pub open spec fn header_step_of(current: nat, header: Seq<char>) -> Option<nat> {
    let h = trimmed(header);
    if h.len() == 0 {
        None
    } else if is_prefix("Content-Length:"@, h) {
        Some(
            match parse_unsigned(trimmed(h.subrange(15, h.len() as int)), usize::MAX as nat) {
                Some(v) => v,
                None => 0,
            },
        )
    } else if is_prefix("content-length:"@, h) {
        Some(
            match parse_unsigned(trimmed(h.subrange(15, h.len() as int)), usize::MAX as nat) {
                Some(v) => v,
                None => 0,
            },
        )
    } else {
        Some(current)
    }
}

/// The body length after one request header line, or `None` at the blank
/// line that ends the headers.
pub fn header_step(current: usize, header: &str) -> (r: Option<usize>)
    ensures
        match r {
            Some(v) => header_step_of(current as nat, header@) == Some(v as nat),
            None => header_step_of(current as nat, header@) is None,
        },
{
    let h = trim(header);
    let n = h.unicode_len();
    if n == 0 {
        return None;
    }
    proof {
        reveal_strlit("Content-Length:");
        reveal_strlit("content-length:");
    }
    if crate::text::starts_with(h, "Content-Length:") || crate::text::starts_with(h, "content-length:") {
        let rest = trim(h.substring_char(15, n));
        return match crate::text::parse_unsigned_max(rest, usize::MAX as u64) {
            Some(v) => Some(v as usize),
            None => Some(0),
        };
    }
    Some(current)
}

/// The HTTP response that carries a JSON-RPC reply: status 200, JSON
/// content, the body's length in UTF-8 bytes, and open CORS headers.
pub open spec fn http_ok_text(body: Seq<char>) -> Seq<char> {
    "HTTP/1.1 200 OK\r\nContent-Type: application/json\r\nContent-Length: "@ + nat_decimal(
        vstd::utf8::encode_utf8(body).len(),
    ) + "\r\nAccess-Control-Allow-Origin: *\r\nAccess-Control-Allow-Methods: POST, OPTIONS\r\nAccess-Control-Allow-Headers: Content-Type\r\n\r\n"@
        + body
}

/// Frames a JSON-RPC reply as an HTTP response.
pub fn http_ok_response(body: &str) -> (r: String)
    requires
        vstd::utf8::encode_utf8(body@).len() <= usize::MAX,
    ensures
        r@ == http_ok_text(body@),
{
    let len = body.len();
    let mut r = String::from_str("HTTP/1.1 200 OK\r\nContent-Type: application/json\r\nContent-Length: ");
    let digits = crate::text::u64_to_string(len as u64);
    r.append(digits.as_str());
    r.append(
        "\r\nAccess-Control-Allow-Origin: *\r\nAccess-Control-Allow-Methods: POST, OPTIONS\r\nAccess-Control-Allow-Headers: Content-Type\r\n\r\n",
    );
    r.append(body);
    r
}

/// The response to a request whose body could not be read.
pub fn http_bad_request() -> (r: &'static str)
    ensures
        r@ == "HTTP/1.1 400 Bad Request\r\nContent-Length: 0\r\n\r\n"@,
{
    "HTTP/1.1 400 Bad Request\r\nContent-Length: 0\r\n\r\n"
}

/// The answer owed to an HTTP request before its body is dispatched: a
/// request with an empty body is refused with a parse error ("empty
/// request body"); any other body goes on to the dispatcher (`None`).
pub fn empty_body_failure(body: &str) -> (r: Option<RpcFailure>)
    ensures
        body@.len() == 0 ==> (r matches Some(f) && f.code == ERROR_PARSE && f.message@ == "empty request body"@),
        body@.len() > 0 ==> r is None,
{
    if body.unicode_len() == 0 {
        Some(RpcFailure { code: ERROR_PARSE, message: String::from_str("empty request body") })
    } else {
        None
    }
}

} // verus!
