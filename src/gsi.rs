//! The telemetry listener's framing: where a webhook request's body starts,
//! and the fixed reply it gets.

use vstd::prelude::*;

verus! {

/// How many bytes of one request are read, at most.
pub const READ_CAPACITY: usize = 122880;

/// Where the listener is bound.
pub struct Server {
    uri: String,
}

impl Server {
    pub fn new(uri: &str) -> (r: Server)
        ensures
            r.uri_view() == uri@,
    {
        Server { uri: uri.to_owned() }
    }

    pub closed spec fn uri_view(&self) -> Seq<char> {
        self.uri@
    }

    /// The address to listen on.
    pub fn uri(&self) -> (r: &str)
        ensures
            r@ == self.uri_view(),
    {
        self.uri.as_str()
    }
}

/// The name of where `httparse::Request::parse` finds a request's head to
/// end in `b`; `None` where the head is incomplete or malformed.
pub uninterp spec fn header_end(b: Seq<u8>) -> Option<usize>;

/// Relies on `httparse::Request::parse` with room for 16 headers: on a
/// complete head, the offset in `buf` where the body starts, which lies
/// within `buf`; a partial head or a parse error gives `None`.
#[verifier::external_body]
pub fn parse_headers(buf: &[u8]) -> (r: Option<usize>)
    ensures
        r == header_end(buf@),
        r matches Some(n) ==> n <= buf@.len(),
{
    let mut headers = [httparse::EMPTY_HEADER; 16];
    let mut req = httparse::Request::new(&mut headers);
    match req.parse(buf) {
        Ok(httparse::Status::Complete(n)) => Some(n),
        Ok(httparse::Status::Partial) => None,
        Err(_) => None,
    }
}

/// The bytes of `buf` from offset `start` on; `None` past its end.
pub fn body_from(buf: &[u8], start: usize) -> (r: Option<Vec<u8>>)
    ensures
        start <= buf@.len() ==> (r matches Some(b) && b@ == buf@.subrange(start as int, buf@.len() as int)),
        start > buf@.len() ==> r is None,
{
    if start > buf.len() {
        return None;
    }
    let mut body: Vec<u8> = Vec::new();
    let mut i: usize = start;
    while i < buf.len()
        invariant
            start <= i <= buf@.len(),
            body@ == buf@.subrange(start as int, i as int),
        decreases buf@.len() - i,
    {
        body.push(buf[i]);
        i = i + 1;
        assert(body@ =~= buf@.subrange(start as int, i as int));
    }
    Some(body)
}

/// The body of the request read into `buf`: what follows its head; `None`
/// where no complete head is found.
pub fn request_body(buf: &[u8]) -> (r: Option<Vec<u8>>)
    ensures
        match header_end(buf@) {
            Some(n) => (r matches Some(b) && b@ == buf@.subrange(n as int, buf@.len() as int)),
            None => r is None,
        },
{
    match parse_headers(buf) {
        Some(n) => body_from(buf, n),
        None => None,
    }
}

/// The reply every request gets, before its body is looked at.
pub fn ok_response() -> (r: &'static str)
    ensures
        r@ == "HTTP/1.1 200 OK\ncontent-type: text/html\n"@,
{
    "HTTP/1.1 200 OK\ncontent-type: text/html\n"
}

} // verus!
