//! Response framing: a status line, zero or more `Key: Value` header
//! lines, a blank line, then the body bytes verbatim. Encoding fills a
//! byte buffer; writing that buffer onto a connection happens outside
//! this crate.

use vstd::prelude::*;
use vstd::utf8::encode_utf8;

verus! {

/// A response ready to be framed: status code and reason text, header
/// pairs, and the body bytes.
pub struct HttpResponse {
    pub status: u16,
    pub status_text: String,
    pub headers: Vec<(String, String)>,
    pub body: Vec<u8>,
}

/// The protocol tag of every framed response: the bytes of `HTTP/1.1`.
pub open spec fn spec_http_version() -> Seq<u8> {
    seq![72u8, 84u8, 84u8, 80u8, 47u8, 49u8, 46u8, 49u8]
}

/// A line break on the wire: carriage return, line feed.
pub open spec fn spec_crlf() -> Seq<u8> {
    seq![13u8, 10u8]
}

/// The decimal digits of `n`, most significant first.
pub open spec fn spec_dec_digits(n: int) -> Seq<u8>
    recommends
        n >= 0,
    decreases n,
{
    if n < 10 {
        seq![(48 + n) as u8]
    } else {
        spec_dec_digits(n / 10).push((48 + n % 10) as u8)
    }
}

/// One encoded header line per pair: `Key: Value` then a line break.
pub open spec fn spec_encode_headers(hs: Seq<(String, String)>) -> Seq<u8>
    decreases hs.len(),
{
    if hs.len() == 0 {
        Seq::empty()
    } else {
        encode_utf8(hs[0].0@) + seq![58u8, 32u8] + encode_utf8(hs[0].1@) + spec_crlf()
            + spec_encode_headers(hs.skip(1))
    }
}

/// The full frame: status line, header lines, a blank line, the body.
pub open spec fn spec_encode(r: HttpResponse) -> Seq<u8> {
    spec_http_version() + seq![32u8] + spec_dec_digits(r.status as int) + seq![32u8]
        + encode_utf8(r.status_text@) + spec_crlf() + spec_encode_headers(r.headers@)
        + spec_crlf() + r.body@
}

/// Encoding of a response into a byte buffer, to be sent over a
/// connection by the caller.
pub trait HttpCodec {
    /// The bytes this value frames to.
    spec fn encoding(&self) -> Seq<u8>;

    /// Append the frame to `buffer`; returns how many bytes were added.
    fn encode_to(&self, buffer: &mut Vec<u8>) -> (n: usize)
        ensures
            final(buffer)@ == old(buffer)@ + self.encoding(),
            n == self.encoding().len(),
    ;
}

/// Append the decimal digits of `n` to `out`.
fn push_decimal(out: &mut Vec<u8>, n: u64)
    ensures
        final(out)@ == old(out)@ + spec_dec_digits(n as int),
    decreases n,
{
    if n < 10 {
        out.push(48 + n as u8);
        proof {
            assert(out@ =~= old(out)@ + spec_dec_digits(n as int));
        }
    } else {
        push_decimal(out, n / 10);
        out.push(48 + (n % 10) as u8);
        proof {
            assert(out@ =~= old(out)@ + spec_dec_digits(n as int));
        }
    }
}

/// Append the bytes of a string to `out`.
fn push_str_bytes(out: &mut Vec<u8>, s: &str)
    ensures
        final(out)@ == old(out)@ + encode_utf8(s@),
{
    let mut bytes = s.as_bytes_vec();
    out.append(&mut bytes);
}

/// Append a line break to `out`.
fn push_crlf(out: &mut Vec<u8>)
    ensures
        final(out)@ == old(out)@ + spec_crlf(),
{
    out.push(13);
    out.push(10);
    proof {
        assert(out@ =~= old(out)@ + spec_crlf());
    }
}

impl HttpResponse {
    /// A response from its parts.
    pub fn new(
        status: u16,
        status_text: String,
        headers: Vec<(String, String)>,
        body: Vec<u8>,
    ) -> (r: HttpResponse)
        ensures
            r.status == status,
            r.status_text == status_text,
            r.headers == headers,
            r.body == body,
    {
        HttpResponse { status, status_text, headers, body }
    }
}

impl HttpCodec for HttpResponse {
    open spec fn encoding(&self) -> Seq<u8> {
        spec_encode(*self)
    }

    fn encode_to(&self, buffer: &mut Vec<u8>) -> (n: usize) {
        let start = buffer.len();
        // status line
        let mut version: Vec<u8> = vec![72u8, 84u8, 84u8, 80u8, 47u8, 49u8, 46u8, 49u8];
        proof {
            assert(version@ =~= spec_http_version());
        }
        buffer.append(&mut version);
        buffer.push(32);
        push_decimal(buffer, self.status as u64);
        buffer.push(32);
        push_str_bytes(buffer, self.status_text.as_str());
        push_crlf(buffer);
        // header lines
        let ghost base = buffer@;
        let m = self.headers.len();
        let mut i: usize = 0;
        proof {
            assert(self.headers@.skip(0) =~= self.headers@);
            assert(base + spec_encode_headers(self.headers@) =~= base + spec_encode_headers(
                self.headers@.skip(0),
            ));
        }
        while i < m
            invariant
                m == self.headers@.len(),
                0 <= i <= m,
                base + spec_encode_headers(self.headers@) =~= buffer@ + spec_encode_headers(
                    self.headers@.skip(i as int),
                ),
            decreases m - i,
        {
            let ghost rest = self.headers@.skip(i as int);
            let pair = &self.headers[i];
            push_str_bytes(buffer, pair.0.as_str());
            buffer.push(58);
            buffer.push(32);
            push_str_bytes(buffer, pair.1.as_str());
            push_crlf(buffer);
            proof {
                assert(rest[0] == self.headers@[i as int]);
                assert(rest.skip(1) =~= self.headers@.skip(i + 1));
            }
            i += 1;
        }
        // blank line, then the body
        push_crlf(buffer);
        let ghost before_body = buffer@;
        let nb = self.body.len();
        let mut k: usize = 0;
        proof {
            assert(before_body + self.body@.take(0) =~= before_body);
        }
        while k < nb
            invariant
                nb == self.body@.len(),
                0 <= k <= nb,
                buffer@ =~= before_body + self.body@.take(k as int),
            decreases nb - k,
        {
            buffer.push(self.body[k]);
            proof {
                assert(self.body@.take(k + 1) =~= self.body@.take(k as int).push(
                    self.body@[k as int],
                ));
            }
            k += 1;
        }
        proof {
            assert(self.body@.take(nb as int) =~= self.body@);
        }
        proof {
            assert(self.headers@.skip(m as int) =~= Seq::<(String, String)>::empty());
            assert(buffer@ =~= old(buffer)@ + spec_encode(*self));
            assert(old(buffer)@.len() == start);
        }
        buffer.len() - start
    }
}

} // verus!
