//! The HTTP inbound: what is answered to the head of a request.
//!
//! The inbound accepts `CONNECT host:port` over HTTP/1.1, from a client that
//! shows the configured credentials where credentials are configured, and
//! answers every other request with `403 Forbidden`.

use crate::addr::{host_port_of, NetworkAddr};
use crate::config::AuthData;
use crate::text::{bytes_eq, copy_range, ends_with, occurs_at, utf8};
use crate::trusted::{base64_decode, base64_decoded, parse_request, parsed_request, string_from_utf8};
use vstd::prelude::*;
use vstd::string::StringExecFns;
use vstd::utf8::valid_utf8;

verus! {

/// One header of a request.
#[derive(Debug)]
pub struct Header {
    pub name: String,
    pub value: Vec<u8>,
}

/// What a parser found in the head of a request.
#[derive(Debug)]
pub struct RequestHead {
    pub method: Option<String>,
    pub path: Option<String>,
    /// The minor version: 1 for HTTP/1.1.
    pub version: Option<u8>,
    pub headers: Vec<Header>,
}

/// A header as plain values.
pub struct HeaderView {
    pub name: Seq<char>,
    pub value: Seq<u8>,
}

/// The head of a request as plain values.
pub struct RequestHeadView {
    pub method: Option<Seq<char>>,
    pub path: Option<Seq<char>>,
    pub version: Option<u8>,
    pub headers: Seq<HeaderView>,
}

/// An optional text as plain values.
pub open spec fn text_view(t: Option<String>) -> Option<Seq<char>> {
    match t {
        Some(s) => Some(s@),
        None => None,
    }
}

impl View for RequestHead {
    type V = RequestHeadView;

    open spec fn view(&self) -> RequestHeadView {
        RequestHeadView {
            method: text_view(self.method),
            path: text_view(self.path),
            version: self.version,
            headers: Seq::new(
                self.headers@.len(),
                |i: int| HeaderView { name: self.headers@[i].name@, value: self.headers@[i].value@ },
            ),
        }
    }
}

/// What the inbound does with a request.
#[derive(Debug)]
pub enum HttpOutcome {
    /// Answer `200 OK` and hand the connection on, to this destination.
    Accept(NetworkAddr),
    /// Answer `403 Forbidden` and close.
    Forbidden,
    /// Close without an answer: the request is not HTTP.
    Malformed,
}

/// What reading the head of a request has come to.
#[derive(Clone, Copy, Debug, PartialEq, Eq, Structural)]
pub enum ReadStep {
    /// The head is complete.
    Done,
    /// More is to be read.
    More,
    /// The client closed before the head was complete.
    Eof,
    /// The head is longer than `MAX_HEAD`.
    TooLong,
}

/// The greatest length of the head of a request, in bytes.
pub const MAX_HEAD: usize = 4096;

/// The number of headers that a request may have.
pub const MAX_HEADERS: usize = 16;

/// The lower-case form of an ASCII letter; any other byte is left as it is.
pub open spec fn lower(b: u8) -> u8 {
    if 0x41 <= b <= 0x5a {
        (b + 0x20) as u8
    } else {
        b
    }
}

/// Whether two byte strings are equal but for the case of ASCII letters.
pub open spec fn same_but_case(a: Seq<u8>, b: Seq<u8>) -> bool {
    a.len() == b.len() && forall|i: int| 0 <= i < a.len() ==> lower(#[trigger] a[i]) == lower(b[i])
}

/// Whether two byte strings are equal but for the case of ASCII letters.
pub fn eq_ignore_ascii_case(a: &[u8], b: &[u8]) -> (r: bool)
    ensures
        r == same_but_case(a@, b@),
{
    if a.len() != b.len() {
        return false;
    }
    let mut i: usize = 0;
    while i < a.len()
        invariant
            i <= a.len(),
            a.len() == b.len(),
            forall|j: int| 0 <= j < i ==> lower(#[trigger] a@[j]) == lower(b@[j]),
        decreases a.len() - i,
    {
        let x = if 0x41 <= a[i] && a[i] <= 0x5a {
            a[i] + 0x20
        } else {
            a[i]
        };
        let y = if 0x41 <= b[i] && b[i] <= 0x5a {
            b[i] + 0x20
        } else {
            b[i]
        };
        if x != y {
            assert(lower(a@[i as int]) != lower(b@[i as int]));
            return false;
        }
        i += 1;
    }
    true
}

/// Whether every byte is ASCII.
pub open spec fn all_ascii(s: Seq<u8>) -> bool {
    forall|i: int| 0 <= i < s.len() ==> #[trigger] s[i] < 0x80
}

/// Whether every byte is ASCII.
pub fn is_ascii(s: &[u8]) -> (r: bool)
    ensures
        r == all_ascii(s@),
{
    let mut i: usize = 0;
    while i < s.len()
        invariant
            i <= s.len(),
            forall|j: int| 0 <= j < i ==> #[trigger] s@[j] < 0x80,
        decreases s.len() - i,
    {
        if s[i] >= 0x80 {
            return false;
        }
        i += 1;
    }
    true
}

/// Whether the value of a header shows the credentials `auth`: it is ASCII,
/// begins with `basic ` in any case, and the rest is `auth` in base64.
pub open spec fn shows_credentials(value: Seq<u8>, auth: Seq<char>) -> bool {
    &&& all_ascii(value)
    &&& value.len() > 6
    &&& same_but_case(value.subrange(0, 6), utf8("basic "@))
    &&& base64_decoded(value.subrange(6, value.len() as int)) == Some(utf8(auth))
}

/// Whether the header is one of the name `Proxy-Authorization`, in any case.
pub open spec fn is_authorization(h: HeaderView) -> bool {
    same_but_case(utf8(h.name), utf8("proxy-authorization"@))
}

/// Whether the headers from `from` on show the credentials: the first
/// authorization header whose value is not UTF-8 ends the search; before it,
/// one that shows the credentials is enough.
pub open spec fn authorized_from(headers: Seq<HeaderView>, auth: Seq<char>, from: int) -> bool
    decreases headers.len() - from,
{
    if 0 <= from < headers.len() {
        if is_authorization(headers[from]) {
            if !valid_utf8(headers[from].value) {
                false
            } else if shows_credentials(headers[from].value, auth) {
                true
            } else {
                authorized_from(headers, auth, from + 1)
            }
        } else {
            authorized_from(headers, auth, from + 1)
        }
    } else {
        false
    }
}

/// Whether the request may pass: no credentials are configured, or its
/// headers show them.
pub open spec fn authorized(head: RequestHeadView, auth: Option<Seq<char>>) -> bool {
    match auth {
        Some(a) => authorized_from(head.headers, a, 0),
        None => true,
    }
}

/// Whether the request is `CONNECT` over HTTP/1.1 with a path.
pub open spec fn is_connect(head: RequestHeadView) -> bool {
    head.method == Some("CONNECT"@) && head.version == Some(1u8) && head.path is Some
}

/// Whether the outcome is the one that the head asks for: a request that
/// is `CONNECT` to `host:port` and may pass is accepted to that
/// destination; every other request is forbidden.
pub open spec fn outcome_of_head(head: RequestHeadView, auth: Option<Seq<char>>, out: HttpOutcome) -> bool {
    if is_connect(head) && host_port_of(utf8(head.path->0)) is Some && authorized(head, auth) {
        match out {
            HttpOutcome::Accept(dest) => {
                let hp = host_port_of(utf8(head.path->0))->0;
                dest.denotes(hp.0, hp.1)
            },
            _ => false,
        }
    } else {
        out is Forbidden
    }
}

/// Whether the outcome is the one that the parsed request asks for.
pub open spec fn outcome_of(parsed: Option<RequestHeadView>, auth: Option<Seq<char>>, out: HttpOutcome) -> bool {
    match parsed {
        Some(head) => outcome_of_head(head, auth, out),
        None => out is Malformed,
    }
}

/// Whether the value of a header shows the credentials.
fn check_credentials(value: &[u8], auth: &str) -> (r: bool)
    ensures
        r == shows_credentials(value@, auth@),
{
    if !is_ascii(value) || value.len() <= 6 {
        return false;
    }
    let left = copy_range(value, 0, 6);
    if !eq_ignore_ascii_case(left.as_slice(), "basic ".as_bytes()) {
        return false;
    }
    let right = copy_range(value, 6, value.len());
    match base64_decode(right.as_slice()) {
        Some(code) => bytes_eq(code.as_slice(), auth.as_bytes()),
        None => false,
    }
}

/// Whether the headers show the credentials.
fn check_headers(headers: &Vec<Header>, auth: &str, Ghost(view): Ghost<Seq<HeaderView>>) -> (r: bool)
    requires
        view.len() == headers@.len(),
        forall|i: int|
            0 <= i < view.len() ==> (#[trigger] view[i]) == (HeaderView {
                name: headers@[i].name@,
                value: headers@[i].value@,
            }),
    ensures
        r == authorized_from(view, auth@, 0),
{
    let mut i: usize = 0;
    while i < headers.len()
        invariant
            i <= headers.len(),
            view.len() == headers@.len(),
            forall|j: int|
                0 <= j < view.len() ==> (#[trigger] view[j]) == (HeaderView {
                    name: headers@[j].name@,
                    value: headers@[j].value@,
                }),
            authorized_from(view, auth@, 0) == authorized_from(view, auth@, i as int),
        decreases headers.len() - i,
    {
        let h = &headers[i];
        assert(view[i as int].name == h.name@ && view[i as int].value == h.value@);
        if eq_ignore_ascii_case(h.name.as_str().as_bytes(), "proxy-authorization".as_bytes()) {
            let copy = copy_range(h.value.as_slice(), 0, h.value.len());
            assert(copy@ =~= h.value@);
            if string_from_utf8(copy).is_none() {
                return false;
            }
            if check_credentials(h.value.as_slice(), auth) {
                return true;
            }
        }
        i += 1;
    }
    false
}

/// The answer to a request that is refused.
pub fn response403() -> (r: &'static str)
    ensures
        r@ == "HTTP/1.1 403 Forbidden\r\n\r\n"@,
{
    "HTTP/1.1 403 Forbidden\r\n\r\n"
}

/// The answer to a request that is accepted.
pub fn response200() -> (r: &'static str)
    ensures
        r@ == "HTTP/1.1 200 OK\r\n\r\n"@,
{
    "HTTP/1.1 200 OK\r\n\r\n"
}

/// Whether what was read of a request ends its head: with an empty line.
pub fn head_complete(req: &[u8]) -> (r: bool)
    ensures
        r == occurs_at(req@, utf8("\r\n\r\n"@), req@.len() - utf8("\r\n\r\n"@).len()),
{
    ends_with(req, "\r\n\r\n".as_bytes())
}

/// What follows a read of `read` bytes that left `req` as all that was read.
pub fn after_read(req: &[u8], read: usize) -> (r: ReadStep)
    ensures
        r == if read == 0 {
            ReadStep::Eof
        } else if req@.len() > MAX_HEAD {
            ReadStep::TooLong
        } else if occurs_at(req@, utf8("\r\n\r\n"@), req@.len() - utf8("\r\n\r\n"@).len()) {
            ReadStep::Done
        } else {
            ReadStep::More
        },
{
    if read == 0 {
        ReadStep::Eof
    } else if req.len() > MAX_HEAD {
        ReadStep::TooLong
    } else if head_complete(req) {
        ReadStep::Done
    } else {
        ReadStep::More
    }
}

/// The configured credentials as the text that a client shows.
pub open spec fn credentials(auth: Option<AuthData>) -> Option<Seq<char>> {
    match auth {
        Some(a) => Some(a.username@ + ":"@ + a.password@),
        None => None,
    }
}

/// The HTTP inbound of a port.
#[derive(Debug)]
pub struct HttpInbound {
    pub port: u16,
    /// The credentials that a client must show, as `user:password`.
    pub auth: Option<String>,
}

impl HttpInbound {
    /// The inbound of the port, which asks for the credentials, if there
    /// are any.
    pub fn new(port: u16, auth: Option<AuthData>) -> (r: HttpInbound)
        ensures
            r.port == port,
            text_view(r.auth) == credentials(auth),
    {
        let auth = match auth {
            Some(a) => {
                let mut text = a.username;
                text.append(":");
                text.append(a.password.as_str());
                Some(text)
            },
            None => None,
        };
        HttpInbound { port, auth }
    }

    /// Decides on a request from what a parser found in its head.
    pub fn decide(head: &RequestHead, auth: Option<&String>) -> (out: HttpOutcome)
        ensures
            outcome_of_head(
                head@,
                match auth {
                    Some(a) => Some(a@),
                    None => None,
                },
                out,
            ),
    {
        let connect = match &head.method {
            Some(m) => crate::text::str_eq(m.as_str(), "CONNECT"),
            None => false,
        };
        let v1 = match head.version {
            Some(v) => v == 1,
            None => false,
        };
        if connect && v1 {
            match &head.path {
                Some(p) => match NetworkAddr::parse(p.as_str()) {
                    Some(dest) => {
                        let allowed = match auth {
                            Some(a) => check_headers(&head.headers, a.as_str(), Ghost(head@.headers)),
                            None => true,
                        };
                        if allowed {
                            return HttpOutcome::Accept(dest);
                        } else {
                            return HttpOutcome::Forbidden;
                        }
                    },
                    None => {},
                },
                None => {},
            }
        }
        HttpOutcome::Forbidden
    }

    /// Decides on a request from the bytes of its head.
    pub fn serve_connection(&self, req: &[u8]) -> (out: HttpOutcome)
        ensures
            outcome_of(parsed_request(req@, MAX_HEADERS as nat), text_view(self.auth), out),
    {
        match parse_request(req, MAX_HEADERS) {
            Some(head) => Self::decide(&head, self.auth.as_ref()),
            None => HttpOutcome::Malformed,
        }
    }
}

} // verus!
