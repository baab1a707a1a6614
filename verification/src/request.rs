//! The request object: parsed eagerly from the first line of the bytes
//! peeked off an accepted connection, within a bounded lookahead window.
//! Headers and body are left for collaborator code; the connection handle
//! itself stays outside this crate.

use vstd::prelude::*;
use vstd::utf8::{decode_utf8, valid_utf8};
use crate::text::spec_is_ws;

verus! {

/// Why a request could not be constructed from the peeked bytes.
#[derive(Clone, Copy, Debug, PartialEq, Eq, Structural)]
pub enum RequestError {
    /// No bytes at all were readable.
    Empty,
    /// No line terminator within the lookahead window.
    NoLineEnd,
    /// The first line is not valid UTF-8.
    InvalidEncoding,
    /// The first line has fewer than three whitespace-separated tokens.
    MissingParts,
}

/// Most bytes a construction may look at.
pub const MAX_PEEK_SIZE: usize = 1024;

/// Character position just before the first line feed, or the length
/// when there is none.
pub open spec fn spec_line_len(data: Seq<u8>) -> int
    decreases data.len(),
{
    if data.len() == 0 {
        0
    } else if data[0] == 10 {
        0
    } else {
        1 + spec_line_len(data.skip(1))
    }
}

/// The window holds a line terminator.
pub open spec fn has_line_end(data: Seq<u8>) -> bool {
    spec_line_len(data) < data.len()
}

/// The bytes of the first line, terminator excluded.
pub open spec fn spec_line(data: Seq<u8>) -> Seq<u8> {
    data.take(spec_line_len(data))
}

/// The whitespace-separated tokens of a character sequence, in order.
pub open spec fn spec_tokens(s: Seq<char>) -> Seq<Seq<char>>
    decreases s.len(),
    via spec_tokens_decreases
{
    if s.len() == 0 {
        Seq::empty()
    } else if spec_is_ws(s[0]) {
        spec_tokens(s.skip(1))
    } else {
        seq![s.take(spec_token_len(s))] + spec_tokens(s.skip(spec_token_len(s)))
    }
}

#[via_fn]
proof fn spec_tokens_decreases(s: Seq<char>) {
    if s.len() > 0 && !spec_is_ws(s[0]) {
        lemma_token_len_bounds(s);
        lemma_token_len_bounds(s.skip(1));
        assert(spec_token_len(s) >= 1);
    }
}

/// Length of the token at the head of `s` (zero when `s` starts with
/// whitespace or is empty).
pub open spec fn spec_token_len(s: Seq<char>) -> int
    decreases s.len(),
{
    if s.len() == 0 || spec_is_ws(s[0]) {
        0
    } else {
        1 + spec_token_len(s.skip(1))
    }
}

proof fn lemma_token_len_bounds(s: Seq<char>)
    ensures
        0 <= spec_token_len(s) <= s.len(),
        forall|k: int| 0 <= k < spec_token_len(s) ==> !spec_is_ws(s[k]),
        spec_token_len(s) < s.len() ==> spec_is_ws(s[spec_token_len(s)]),
    decreases s.len(),
{
    if s.len() > 0 && !spec_is_ws(s[0]) {
        lemma_token_len_bounds(s.skip(1));
        assert forall|k: int| 0 <= k < spec_token_len(s) implies !spec_is_ws(s[k]) by {
            if k > 0 {
                assert(!spec_is_ws(s.skip(1)[k - 1]));
            }
        }
        if spec_token_len(s) < s.len() {
            assert(spec_is_ws(s.skip(1)[spec_token_len(s) - 1]));
        }
    }
}

/// The failure, if any, that constructing a request from the peeked
/// window `data` runs into; the stages are checked in this order.
pub open spec fn spec_parse_err(data: Seq<u8>) -> Option<RequestError> {
    if data.len() == 0 {
        Some(RequestError::Empty)
    } else if !has_line_end(data) {
        Some(RequestError::NoLineEnd)
    } else if !valid_utf8(spec_line(data)) {
        Some(RequestError::InvalidEncoding)
    } else if spec_tokens(decode_utf8(spec_line(data))).len() < 3 {
        Some(RequestError::MissingParts)
    } else {
        None
    }
}

/// The tokens of the first line of the window.
pub open spec fn spec_line_tokens(data: Seq<u8>) -> Seq<Seq<char>> {
    spec_tokens(decode_utf8(spec_line(data)))
}

/// `q` is what parsing the window `data` yields: the first three tokens
/// of the first line, with headers and body still absent.
pub open spec fn parsed_from(q: Request, data: Seq<u8>) -> bool {
    &&& q.method@ == spec_line_tokens(data)[0]
    &&& q.uri@ == spec_line_tokens(data)[1]
    &&& q.protocol@ == spec_line_tokens(data)[2]
    &&& q.headers is None
    &&& q.body is None
}

/// A parsed request: the request line's first three tokens, with headers
/// and body left unread until collaborator code fills them in.
#[derive(Debug)]
pub struct Request {
    pub protocol: String,
    pub method: String,
    pub uri: String,
    pub headers: Option<Vec<(String, String)>>,
    pub body: Option<Vec<u8>>,
}

/// Relies on core::str::from_utf8: returns a slice over the same bytes
/// exactly when they are valid UTF-8.
#[verifier::external_body]
fn bytes_to_str(data: &[u8]) -> (r: Option<&str>)
    ensures
        r is Some <==> valid_utf8(data@),
        r matches Some(s) ==> s@ == decode_utf8(data@),
{
    match core::str::from_utf8(data) {
        Ok(s) => Some(s),
        Err(_) => None,
    }
}

/// Least position with a line feed, or the length when there is none.
fn find_line_end(data: &[u8]) -> (r: usize)
    ensures
        r == spec_line_len(data@),
{
    let n = data.len();
    let mut i: usize = 0;
    while i < n
        invariant
            n == data@.len(),
            0 <= i <= n,
            forall|k: int| 0 <= k < i ==> data@[k] != 10,
        decreases n - i,
    {
        if *vstd::slice::slice_index_get(data, i) == 10 {
            proof {
                lemma_line_len_at(data@, i as int);
            }
            return i;
        }
        i += 1;
    }
    proof {
        lemma_line_len_at(data@, n as int);
    }
    n
}

proof fn lemma_line_len_at(data: Seq<u8>, i: int)
    requires
        0 <= i <= data.len(),
        forall|k: int| 0 <= k < i ==> data[k] != 10,
        i < data.len() ==> data[i] == 10,
    ensures
        spec_line_len(data) == i,
    decreases i,
{
    if i > 0 {
        lemma_line_len_at(data.skip(1), i - 1);
    }
}

/// Split a string into its whitespace-separated tokens.
fn split_tokens(s: &str) -> (v: Vec<String>)
    ensures
        v.deep_view() == spec_tokens(s@),
{
    let n = s.unicode_len();
    let mut v: Vec<String> = Vec::new();
    let mut i: usize = 0;
    proof {
        assert(s@.skip(0) =~= s@);
        assert(v.deep_view() + spec_tokens(s@) =~= spec_tokens(s@));
    }
    while i < n
        invariant
            n == s@.len(),
            0 <= i <= n,
            spec_tokens(s@) == v.deep_view() + spec_tokens(s@.skip(i as int)),
        decreases n - i,
    {
        let ghost rest = s@.skip(i as int);
        if crate::text::is_ws(s.get_char(i)) {
            proof {
                assert(rest.skip(1) =~= s@.skip(i + 1));
            }
            i += 1;
        } else {
            // scan to the end of the token that starts at i
            let start = i;
            let mut j = i + 1;
            while j < n && !crate::text::is_ws(s.get_char(j))
                invariant
                    n == s@.len(),
                    0 <= start < j <= n,
                    forall|k: int| start <= k < j ==> !spec_is_ws(s@[k]),
                decreases n - j,
            {
                j += 1;
            }
            let tok = s.substring_char(start, j);
            proof {
                lemma_token_len_from_scan(rest, j - start);
                assert(tok@ =~= rest.take(j - start)) by {
                    assert(tok@ == s@.subrange(start as int, j as int));
                    assert(rest.take(j - start) =~= s@.subrange(start as int, j as int));
                }
                assert(rest.skip(j - start) =~= s@.skip(j as int));
                assert(spec_tokens(rest) == seq![tok@] + spec_tokens(s@.skip(j as int)));
            }
            let ghost pre = v.deep_view();
            v.push(tok.to_owned());
            proof {
                assert(v.deep_view() =~= pre.push(tok@));
                assert(v.deep_view() + spec_tokens(s@.skip(j as int)) =~= spec_tokens(s@));
            }
            i = j;
        }
    }
    proof {
        assert(s@.skip(n as int) =~= Seq::<char>::empty());
        assert(v.deep_view() =~= spec_tokens(s@));
    }
    v
}

proof fn lemma_token_len_from_scan(rest: Seq<char>, t: int)
    requires
        0 < t <= rest.len(),
        forall|k: int| 0 <= k < t ==> !spec_is_ws(rest[k]),
        t < rest.len() ==> spec_is_ws(rest[t]),
    ensures
        spec_token_len(rest) == t,
    decreases t,
{
    if t > 1 {
        lemma_token_len_from_scan(rest.skip(1), t - 1);
    } else {
        assert(spec_token_len(rest) == 1 + spec_token_len(rest.skip(1)));
        if rest.skip(1).len() > 0 {
            assert(spec_is_ws(rest.skip(1)[0]));
        }
    }
}

impl Request {
    /// Assemble a request from already-parsed parts.
    pub fn new(
        protocol: String,
        method: String,
        uri: String,
        headers: Option<Vec<(String, String)>>,
        body: Option<Vec<u8>>,
    ) -> (r: Request)
        ensures
            r.protocol == protocol,
            r.method == method,
            r.uri == uri,
            r.headers == headers,
            r.body == body,
    {
        Request { protocol, method, uri, headers, body }
    }

    /// Construct a request from the bytes peeked off a connection: only
    /// the first 1024 bytes are considered; the first line must be
    /// terminated, valid UTF-8, and carry at least three
    /// whitespace-separated tokens — method, URI, protocol, in that
    /// order; anything after the third token is ignored.
    pub fn from(data: &[u8]) -> (r: Result<Request, RequestError>)
        requires
            data@.len() <= MAX_PEEK_SIZE,
        ensures
            r is Ok <==> spec_parse_err(data@) is None,
            r matches Err(e) ==> Some(e) == spec_parse_err(data@),
            r matches Ok(q) ==> parsed_from(q, data@),
    {
        if data.len() == 0 {
            return Err(RequestError::Empty);
        }
        let end = find_line_end(data);
        if end >= data.len() {
            return Err(RequestError::NoLineEnd);
        }
        let line = vstd::slice::slice_subrange(data, 0, end);
        proof {
            assert(line@ == spec_line(data@));
        }
        let s = match bytes_to_str(line) {
            Some(s) => s,
            None => {
                return Err(RequestError::InvalidEncoding);
            },
        };
        let tokens = split_tokens(s);
        if tokens.len() < 3 {
            proof {
                assert(spec_tokens(s@).len() == tokens.deep_view().len());
            }
            return Err(RequestError::MissingParts);
        }
        proof {
            assert(spec_tokens(s@).len() == tokens.deep_view().len());
            assert(tokens.deep_view()[0] == tokens@[0]@);
            assert(tokens.deep_view()[1] == tokens@[1]@);
            assert(tokens.deep_view()[2] == tokens@[2]@);
        }
        let method = tokens[0].clone();
        let uri = tokens[1].clone();
        let protocol = tokens[2].clone();
        Ok(Request { protocol, method, uri, headers: None, body: None })
    }

    /// The request's method token.
    pub fn method(&self) -> (r: &String)
        ensures
            r == self.method,
    {
        &self.method
    }

    /// The request's URI token.
    pub fn uri(&self) -> (r: &String)
        ensures
            r == self.uri,
    {
        &self.uri
    }

    /// The request's protocol token.
    pub fn protocol(&self) -> (r: &String)
        ensures
            r == self.protocol,
    {
        &self.protocol
    }

    /// The header map, absent until collaborator code fills it in.
    pub fn headers(&self) -> (r: Option<&Vec<(String, String)>>)
        ensures
            r matches Some(h) ==> self.headers matches Some(h2) && h == h2,
            r is None <==> self.headers is None,
    {
        self.headers.as_ref()
    }

    /// The body buffer, absent until collaborator code fills it in.
    pub fn body(&self) -> (r: Option<&Vec<u8>>)
        ensures
            r matches Some(b) ==> self.body matches Some(b2) && b == b2,
            r is None <==> self.body is None,
    {
        self.body.as_ref()
    }
}

} // verus!
