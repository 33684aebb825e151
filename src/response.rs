//! Responses and their wire form: status line, header lines, and, when
//! there is a body, a `Content-Length` computed from it.
use vstd::prelude::*;

use crate::ascii::{append_decimal, append_str, ascii, decimal};
use crate::request::{header_pairs, opt_bytes, Header};

verus! {

#[derive(Clone, Copy, Debug, PartialEq, Eq, Structural)]
pub enum Status {
    /// `200 OK`
    Success,
    Created,
    BadRequest,
    NotFound,
    InternalServerError,
}

#[derive(Debug)]
pub struct Response {
    pub status: Status,
    /// Header lines other than `Content-Length`, in the order they are sent.
    pub headers: Vec<Header>,
    /// With a body, `Content-Length` is sent; without one, nothing follows
    /// the blank line.
    pub body: Option<Vec<u8>>,
}

pub struct ResponseModel {
    pub status: Status,
    pub headers: Seq<(Seq<u8>, Seq<u8>)>,
    pub body: Option<Seq<u8>>,
}

impl View for Response {
    type V = ResponseModel;

    open spec fn view(&self) -> ResponseModel {
        ResponseModel {
            status: self.status,
            headers: header_pairs(self.headers@),
            body: opt_bytes(self.body),
        }
    }
}

/// The status line, line ending included.
pub open spec fn status_line(s: Status) -> Seq<u8> {
    match s {
        Status::Success => ascii("HTTP/1.1 200 OK\r\n"@),
        Status::Created => ascii("HTTP/1.1 201 Created\r\n"@),
        Status::BadRequest => ascii("HTTP/1.1 400 Bad Request\r\n"@),
        Status::NotFound => ascii("HTTP/1.1 404 Not Found\r\n"@),
        Status::InternalServerError => ascii("HTTP/1.1 500 Internal Server Error\r\n"@),
    }
}

/// `Name: Value` lines, each ended by CR LF.
pub open spec fn header_lines(h: Seq<(Seq<u8>, Seq<u8>)>) -> Seq<u8>
    decreases h.len(),
{
    if h.len() == 0 {
        Seq::empty()
    } else {
        h[0].0 + ascii(": "@) + h[0].1 + ascii("\r\n"@) + header_lines(h.drop_first())
    }
}

/// What follows the header lines: the `Content-Length` line, the blank
/// line and the body; or the blank line alone.
pub open spec fn framing(body: Option<Seq<u8>>) -> Seq<u8> {
    match body {
        Some(b) => ascii("Content-Length: "@) + decimal(b.len()) + ascii("\r\n\r\n"@) + b,
        None => ascii("\r\n"@),
    }
}

/// The bytes sent for response `r`.
pub open spec fn wire(r: ResponseModel) -> Seq<u8> {
    status_line(r.status) + header_lines(r.headers) + framing(r.body)
}

/// Appends the status line.
fn append_status_line(out: &mut Vec<u8>, s: Status)
    ensures
        final(out)@ == old(out)@ + status_line(s),
{
    match s {
        Status::Success => {
            proof {
                reveal_strlit("HTTP/1.1 200 OK\r\n");
            }
            append_str(out, "HTTP/1.1 200 OK\r\n");
        },
        Status::Created => {
            proof {
                reveal_strlit("HTTP/1.1 201 Created\r\n");
            }
            append_str(out, "HTTP/1.1 201 Created\r\n");
        },
        Status::BadRequest => {
            proof {
                reveal_strlit("HTTP/1.1 400 Bad Request\r\n");
            }
            append_str(out, "HTTP/1.1 400 Bad Request\r\n");
        },
        Status::NotFound => {
            proof {
                reveal_strlit("HTTP/1.1 404 Not Found\r\n");
            }
            append_str(out, "HTTP/1.1 404 Not Found\r\n");
        },
        Status::InternalServerError => {
            proof {
                reveal_strlit("HTTP/1.1 500 Internal Server Error\r\n");
            }
            append_str(out, "HTTP/1.1 500 Internal Server Error\r\n");
        },
    }
}

proof fn lemma_header_lines_push(h: Seq<(Seq<u8>, Seq<u8>)>, f: (Seq<u8>, Seq<u8>))
    ensures
        header_lines(h.push(f)) == header_lines(h) + (f.0 + ascii(": "@) + f.1 + ascii(
            "\r\n"@,
        )),
    decreases h.len(),
{
    let line = f.0 + ascii(": "@) + f.1 + ascii("\r\n"@);
    if h.len() == 0 {
        assert(h.push(f).drop_first() =~= Seq::<(Seq<u8>, Seq<u8>)>::empty());
        assert(h.push(f)[0] == f);
        assert(header_lines(h.push(f)) == line + header_lines(Seq::empty()));
        assert(header_lines(h.push(f)) =~= line);
        assert(header_lines(h) + line =~= line);
    } else {
        assert(h.push(f).drop_first() =~= h.drop_first().push(f));
        lemma_header_lines_push(h.drop_first(), f);
        let first = h[0].0 + ascii(": "@) + h[0].1 + ascii("\r\n"@);
        assert(first + (header_lines(h.drop_first()) + line) =~= (first + header_lines(
            h.drop_first(),
        )) + line);
    }
}

impl Response {
    /// The bytes to send: `HTTP/1.1 <code> <reason>`, each header as
    /// `Name: Value`, then `Content-Length` with the body's exact length
    /// when there is a body, a blank line, and the body.
    pub fn to_bytes(&self) -> (r: Vec<u8>)
        ensures
            r@ == wire(self@),
    {
        let mut out: Vec<u8> = Vec::new();
        append_status_line(&mut out, self.status);
        proof {
            reveal_strlit(": ");
            reveal_strlit("\r\n");
            reveal_strlit("Content-Length: ");
            reveal_strlit("\r\n\r\n");
        }
        let ghost pairs = header_pairs(self.headers@);
        let mut i: usize = 0;
        assert(pairs.subrange(0, 0) =~= Seq::<(Seq<u8>, Seq<u8>)>::empty());
        assert(out@ =~= status_line(self.status) + header_lines(pairs.subrange(0, 0)));
        while i < self.headers.len()
            invariant
                i <= self.headers@.len() == pairs.len(),
                pairs == header_pairs(self.headers@),
                out@ == status_line(self.status) + header_lines(pairs.subrange(0, i as int)),
            decreases self.headers.len() - i,
        {
            proof {
                reveal_strlit(": ");
                reveal_strlit("\r\n");
            }
            let ghost before = out@;
            out.extend_from_slice(self.headers[i].name.as_slice());
            append_str(&mut out, ": ");
            out.extend_from_slice(self.headers[i].value.as_slice());
            append_str(&mut out, "\r\n");
            proof {
                let f = pairs[i as int];
                assert(pairs.subrange(0, i + 1) =~= pairs.subrange(0, i as int).push(f));
                lemma_header_lines_push(pairs.subrange(0, i as int), f);
                assert(out@ =~= before + (f.0 + ascii(": "@) + f.1 + ascii("\r\n"@)));
            }
            i = i + 1;
        }
        assert(pairs.subrange(0, i as int) =~= pairs);
        let ghost head = out@;
        match &self.body {
            Some(b) => {
                append_str(&mut out, "Content-Length: ");
                append_decimal(&mut out, b.len());
                append_str(&mut out, "\r\n\r\n");
                out.extend_from_slice(b.as_slice());
                assert(out@ =~= head + framing(self@.body));
            },
            None => {
                append_str(&mut out, "\r\n");
                assert(out@ =~= head + framing(self@.body));
            },
        }
        assert(out@ =~= wire(self@));
        out
    }
}

} // verus!
