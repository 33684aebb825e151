//! The request parser: from the bytes received on a connection to a
//! structured request, an error, or the news that more bytes are needed.
use vstd::prelude::*;
use vstd::slice::{slice_subrange, slice_to_vec};

use crate::ascii::{
    ascii, bytes_eq, parse_usize, space_at, space_len, str_bytes, trim, trimmed, usize_of,
};

verus! {

#[derive(Clone, Copy, Debug, PartialEq, Eq, Structural)]
pub enum HttpMethod {
    Post,
    Get,
}

/// The protocol versions that a request line may name. Only the label is
/// kept; no version changes how a request is handled.
#[derive(Clone, Copy, Debug, PartialEq, Eq, Structural)]
pub enum HttpVersion {
    Http09,
    Http10,
    Http11,
    Http2,
    Http3,
}

/// Why a request head was rejected.
#[derive(Clone, Copy, Debug, PartialEq, Eq, Structural)]
pub enum ParseError {
    /// The first word of the request line is neither `GET` nor `POST`.
    BadMethod,
    /// The request line has no second word.
    MissingTarget,
    /// The last word of the request line is no known version.
    BadVersion,
    /// A header line holds no colon.
    BadHeader,
    /// The first `Content-Length` value is no unsigned integer.
    BadContentLength,
}

/// One header line: the name as received, and the value without the
/// surrounding whitespace.
#[derive(Debug)]
pub struct Header {
    pub name: Vec<u8>,
    pub value: Vec<u8>,
}

#[derive(Debug)]
pub struct HttpRequest {
    pub method: HttpMethod,
    /// The request target, verbatim.
    pub url: Vec<u8>,
    pub version: HttpVersion,
    /// Every header line, in the order received; a name may repeat.
    pub headers: Vec<Header>,
    /// Present when `Content-Length` was given and is not zero.
    pub body: Option<Vec<u8>>,
}

#[derive(Debug)]
pub enum ParseOutcome {
    /// The bytes so far end before the request does.
    Incomplete,
    Failed(ParseError),
    /// A whole request, which took the first `consumed` bytes.
    Complete { request: HttpRequest, consumed: usize },
}

/// A request as values: header fields are (name, value) pairs in the order
/// received.
pub struct RequestModel {
    pub method: HttpMethod,
    pub url: Seq<u8>,
    pub version: HttpVersion,
    pub headers: Seq<(Seq<u8>, Seq<u8>)>,
    pub body: Option<Seq<u8>>,
}

pub enum ParseModel {
    Incomplete,
    Failed(ParseError),
    Complete(RequestModel, nat),
}

pub open spec fn header_pairs(h: Seq<Header>) -> Seq<(Seq<u8>, Seq<u8>)> {
    h.map_values(|x: Header| (x.name@, x.value@))
}

pub open spec fn opt_bytes(b: Option<Vec<u8>>) -> Option<Seq<u8>> {
    match b {
        Some(v) => Some(v@),
        None => None,
    }
}

impl View for HttpRequest {
    type V = RequestModel;

    open spec fn view(&self) -> RequestModel {
        RequestModel {
            method: self.method,
            url: self.url@,
            version: self.version,
            headers: header_pairs(self.headers@),
            body: opt_bytes(self.body),
        }
    }
}

impl View for ParseOutcome {
    type V = ParseModel;

    open spec fn view(&self) -> ParseModel {
        match self {
            ParseOutcome::Incomplete => ParseModel::Incomplete,
            ParseOutcome::Failed(e) => ParseModel::Failed(*e),
            ParseOutcome::Complete { request, consumed } => ParseModel::Complete(
                request@,
                *consumed as nat,
            ),
        }
    }
}

/// The first value of header `name`, if any line carries it.
pub open spec fn first_value(h: Seq<(Seq<u8>, Seq<u8>)>, name: Seq<u8>) -> Option<Seq<u8>>
    decreases h.len(),
{
    if h.len() == 0 {
        None
    } else if h[0].0 == name {
        Some(h[0].1)
    } else {
        first_value(h.drop_first(), name)
    }
}

/// The first position at or after `i` that holds byte `b`.
pub open spec fn first_index(s: Seq<u8>, b: u8, i: int) -> Option<int>
    decreases s.len() - i,
{
    if i < 0 || i >= s.len() {
        None
    } else if s[i] == b {
        Some(i)
    } else {
        first_index(s, b, i + 1)
    }
}

pub proof fn lemma_first_index(s: Seq<u8>, b: u8, i: int)
    requires
        0 <= i,
    ensures
        match first_index(s, b, i) {
            Some(j) => i <= j < s.len() && s[j] == b && forall|k: int| i <= k < j ==> s[k] != b,
            None => forall|k: int| i <= k < s.len() ==> s[k] != b,
        },
    decreases s.len() - i,
{
    if i < s.len() && s[i] != b {
        lemma_first_index(s, b, i + 1);
    }
}

/// A line without its carriage return, if it ends with one.
pub open spec fn strip_cr(line: Seq<u8>) -> Seq<u8> {
    if line.len() > 0 && line.last() == 13 {
        line.drop_last()
    } else {
        line
    }
}

/// The line that starts at `i` and ends with a line feed, and the position
/// after that line feed; none while no line feed follows.
pub open spec fn line_from(buf: Seq<u8>, i: int) -> Option<(Seq<u8>, int)> {
    match first_index(buf, 10, i) {
        Some(j) => Some((strip_cr(buf.subrange(i, j)), j + 1)),
        None => None,
    }
}

/// The words of `s` from position `i` on (runs of bytes between whitespace
/// characters, see `space_at`), `cur` being the word under way.
pub open spec fn words_from(s: Seq<u8>, i: int, cur: Seq<u8>) -> Seq<Seq<u8>>
    decreases s.len() - i,
{
    let done = if cur.len() > 0 {
        seq![cur]
    } else {
        Seq::empty()
    };
    if i < 0 || i >= s.len() {
        done
    } else if space_at(s, i) > 0 {
        done + words_from(s, i + space_at(s, i), Seq::empty())
    } else {
        words_from(s, i + 1, cur.push(s[i]))
    }
}

/// The whitespace-separated words of `s`, as `str::split_whitespace` gives
/// them.
pub open spec fn words(s: Seq<u8>) -> Seq<Seq<u8>> {
    words_from(s, 0, Seq::empty())
}

pub open spec fn method_of(w: Seq<u8>) -> Option<HttpMethod> {
    if w == ascii("GET"@) {
        Some(HttpMethod::Get)
    } else if w == ascii("POST"@) {
        Some(HttpMethod::Post)
    } else {
        None
    }
}

pub open spec fn version_of(w: Seq<u8>) -> Option<HttpVersion> {
    if w == ascii("HTTP/0.9"@) {
        Some(HttpVersion::Http09)
    } else if w == ascii("HTTP/1.0"@) {
        Some(HttpVersion::Http10)
    } else if w == ascii("HTTP/1.1"@) {
        Some(HttpVersion::Http11)
    } else if w == ascii("HTTP/2.0"@) {
        Some(HttpVersion::Http2)
    } else if w == ascii("HTTP/3.0"@) {
        Some(HttpVersion::Http3)
    } else {
        None
    }
}

/// The request line: method from the first word, target from the second,
/// version from the last.
pub open spec fn request_line(line: Seq<u8>) -> Result<(HttpMethod, Seq<u8>, HttpVersion), ParseError> {
    let w = words(line);
    if w.len() == 0 || method_of(w[0]) is None {
        Err(ParseError::BadMethod)
    } else if w.len() < 2 {
        Err(ParseError::MissingTarget)
    } else if version_of(w.last()) is None {
        Err(ParseError::BadVersion)
    } else {
        Ok((method_of(w[0])->0, w[1], version_of(w.last())->0))
    }
}

/// A header line: the name before the first colon, the trimmed value after.
pub open spec fn header_field(line: Seq<u8>) -> Option<(Seq<u8>, Seq<u8>)> {
    match first_index(line, 58, 0) {
        Some(c) => Some((line.subrange(0, c), trim(line.subrange(c + 1, line.len() as int)))),
        None => None,
    }
}

pub enum HeadModel {
    Incomplete,
    Bad,
    /// The header fields, and the position after the empty line.
    Done(Seq<(Seq<u8>, Seq<u8>)>, int),
}

/// The header lines from position `pos` up to the empty line.
pub open spec fn header_block(buf: Seq<u8>, pos: int) -> HeadModel
    decreases buf.len() - pos,
    via header_block_decreases
{
    match line_from(buf, pos) {
        None => HeadModel::Incomplete,
        Some((line, next)) => if line.len() == 0 {
            HeadModel::Done(Seq::empty(), next)
        } else {
            match header_field(line) {
                None => HeadModel::Bad,
                Some(f) => match header_block(buf, next) {
                    HeadModel::Done(fs, end) => HeadModel::Done(seq![f] + fs, end),
                    other => other,
                },
            }
        },
    }
}

#[via_fn]
proof fn header_block_decreases(buf: Seq<u8>, pos: int) {
    if pos >= 0 {
        lemma_first_index(buf, 10, pos);
    }
}

pub open spec fn content_length_name() -> Seq<u8> {
    ascii("Content-Length"@)
}

pub open spec fn make_request(
    rl: (HttpMethod, Seq<u8>, HttpVersion),
    headers: Seq<(Seq<u8>, Seq<u8>)>,
    body: Option<Seq<u8>>,
) -> RequestModel {
    RequestModel { method: rl.0, url: rl.1, version: rl.2, headers, body }
}

/// What the bytes `buf` received so far amount to. The head is a request
/// line and header lines, each ended by a line feed (a carriage return
/// before it is dropped), closed by an empty line. A `Content-Length`
/// header then asks for exactly that many further bytes as the body; a
/// length of zero gives no body.
pub open spec fn parse_model(buf: Seq<u8>) -> ParseModel {
    match line_from(buf, 0) {
        None => ParseModel::Incomplete,
        Some((line, next)) => match request_line(line) {
            Err(e) => ParseModel::Failed(e),
            Ok(rl) => match header_block(buf, next) {
                HeadModel::Incomplete => ParseModel::Incomplete,
                HeadModel::Bad => ParseModel::Failed(ParseError::BadHeader),
                HeadModel::Done(fs, start) => match first_value(fs, content_length_name()) {
                    None => ParseModel::Complete(make_request(rl, fs, None), start as nat),
                    Some(v) => match usize_of(v) {
                        None => ParseModel::Failed(ParseError::BadContentLength),
                        Some(n) => if n == 0 {
                            ParseModel::Complete(make_request(rl, fs, None), start as nat)
                        } else if start + n <= buf.len() {
                            ParseModel::Complete(
                                make_request(rl, fs, Some(buf.subrange(start, start + n))),
                                (start + n) as nat,
                            )
                        } else {
                            ParseModel::Incomplete
                        },
                    },
                },
            },
        },
    }
}

/// The position of the first byte `b` at or after `from`.
pub fn find_byte(buf: &[u8], b: u8, from: usize) -> (r: Option<usize>)
    ensures
        match r {
            Some(j) => first_index(buf@, b, from as int) == Some(j as int),
            None => first_index(buf@, b, from as int) is None,
        },
{
    let mut i: usize = from;
    while i < buf.len()
        invariant
            from <= i,
            first_index(buf@, b, from as int) == first_index(buf@, b, i as int),
        decreases buf.len() - i,
    {
        if buf[i] == b {
            return Some(i);
        }
        i = i + 1;
    }
    None
}

/// The line that starts at `pos`, without its line ending, and the position
/// after it.
pub fn read_line(buf: &[u8], pos: usize) -> (r: Option<(Vec<u8>, usize)>)
    ensures
        match r {
            Some((line, next)) => line_from(buf@, pos as int) == Some((line@, next as int)),
            None => line_from(buf@, pos as int) is None,
        },
{
    let n = buf.len();
    match find_byte(buf, 10, pos) {
        None => None,
        Some(j) => {
            proof {
                lemma_first_index(buf@, 10, pos as int);
            }
            assert(j < n);
            let mut end = j;
            if end > pos && buf[end - 1] == 13 {
                end = end - 1;
            }
            let line = slice_to_vec(slice_subrange(buf, pos, end));
            assert(line@ =~= strip_cr(buf@.subrange(pos as int, j as int)));
            Some((line, j + 1))
        },
    }
}

pub open spec fn seqs_view(v: Seq<Vec<u8>>) -> Seq<Seq<u8>> {
    v.map_values(|x: Vec<u8>| x@)
}

/// The whitespace-separated words of `line`.
pub fn split_words(line: &[u8]) -> (r: Vec<Vec<u8>>)
    ensures
        seqs_view(r@) == words(line@),
{
    let n = line.len();
    let mut out: Vec<Vec<u8>> = Vec::new();
    let mut cur: Vec<u8> = Vec::new();
    let mut i: usize = 0;
    assert(seqs_view(out@) + words(line@) =~= words(line@));
    while i < n
        invariant
            i <= n == line@.len(),
            words(line@) == seqs_view(out@) + words_from(line@, i as int, cur@),
        decreases n - i,
    {
        let ghost c = cur@;
        let ghost before = seqs_view(out@);
        let k = space_len(line, i);
        if k > 0 {
            let ghost next = i + k;
            if cur.len() > 0 {
                assert(words_from(line@, i as int, c) == seq![c] + words_from(line@, next, Seq::empty()));
                out.push(cur);
                cur = Vec::new();
                assert(seqs_view(out@) =~= before.push(c));
                assert(before + (seq![c] + words_from(line@, next, cur@)) =~= seqs_view(out@)
                    + words_from(line@, next, cur@));
            } else {
                assert(c =~= Seq::<u8>::empty());
                assert(words_from(line@, i as int, c) == Seq::<Seq<u8>>::empty() + words_from(line@, next, c));
                assert(Seq::<Seq<u8>>::empty() + words_from(line@, next, c) =~= words_from(line@, next, c));
            }
            i = i + k;
        } else {
            assert(words_from(line@, i as int, c) == words_from(line@, i + 1, c.push(line@[i as int])));
            cur.push(line[i]);
            i = i + 1;
        }
    }
    if cur.len() > 0 {
        let ghost before = seqs_view(out@);
        let ghost c = cur@;
        out.push(cur);
        assert(seqs_view(out@) =~= before.push(c));
        assert(before + seq![c] =~= before.push(c));
    } else {
        assert(seqs_view(out@) + Seq::<Seq<u8>>::empty() =~= seqs_view(out@));
    }
    out
}

fn method_from(w: &[u8]) -> (r: Option<HttpMethod>)
    ensures
        r == method_of(w@),
{
    proof {
        reveal_strlit("GET");
        reveal_strlit("POST");
    }
    if bytes_eq(w, str_bytes("GET").as_slice()) {
        Some(HttpMethod::Get)
    } else if bytes_eq(w, str_bytes("POST").as_slice()) {
        Some(HttpMethod::Post)
    } else {
        None
    }
}

fn version_from(w: &[u8]) -> (r: Option<HttpVersion>)
    ensures
        r == version_of(w@),
{
    proof {
        reveal_strlit("HTTP/0.9");
        reveal_strlit("HTTP/1.0");
        reveal_strlit("HTTP/1.1");
        reveal_strlit("HTTP/2.0");
        reveal_strlit("HTTP/3.0");
    }
    if bytes_eq(w, str_bytes("HTTP/0.9").as_slice()) {
        Some(HttpVersion::Http09)
    } else if bytes_eq(w, str_bytes("HTTP/1.0").as_slice()) {
        Some(HttpVersion::Http10)
    } else if bytes_eq(w, str_bytes("HTTP/1.1").as_slice()) {
        Some(HttpVersion::Http11)
    } else if bytes_eq(w, str_bytes("HTTP/2.0").as_slice()) {
        Some(HttpVersion::Http2)
    } else if bytes_eq(w, str_bytes("HTTP/3.0").as_slice()) {
        Some(HttpVersion::Http3)
    } else {
        None
    }
}

/// Reads the request line: method, target and version.
pub fn parse_request_line(line: &[u8]) -> (r: Result<(HttpMethod, Vec<u8>, HttpVersion), ParseError>)
    ensures
        match r {
            Ok((m, t, v)) => request_line(line@) == Ok::<_, ParseError>((m, t@, v)),
            Err(e) => request_line(line@) == Err::<(HttpMethod, Seq<u8>, HttpVersion), _>(e),
        },
{
    let w = split_words(line);
    assert(seqs_view(w@).len() == w@.len());
    if w.len() == 0 {
        return Err(ParseError::BadMethod);
    }
    assert(seqs_view(w@)[0] == w@[0]@);
    let method = match method_from(w[0].as_slice()) {
        Some(m) => m,
        None => return Err(ParseError::BadMethod),
    };
    if w.len() < 2 {
        return Err(ParseError::MissingTarget);
    }
    let last = w.len() - 1;
    assert(seqs_view(w@)[last as int] == w@[last as int]@);
    assert(seqs_view(w@)[1] == w@[1]@);
    let version = match version_from(w[last].as_slice()) {
        Some(v) => v,
        None => return Err(ParseError::BadVersion),
    };
    let target = slice_to_vec(w[1].as_slice());
    Ok((method, target, version))
}

/// Reads a header line: name before the first colon, value after it with
/// the surrounding whitespace removed.
pub fn parse_header_line(line: &[u8]) -> (r: Option<Header>)
    ensures
        match r {
            Some(h) => header_field(line@) == Some((h.name@, h.value@)),
            None => header_field(line@) is None,
        },
{
    let n = line.len();
    match find_byte(line, 58, 0) {
        None => None,
        Some(c) => {
            proof {
                lemma_first_index(line@, 58, 0);
            }
            assert(c < n);
            let name = slice_to_vec(slice_subrange(line, 0, c));
            let value = trimmed(slice_subrange(line, c + 1, line.len()));
            Some(Header { name, value })
        },
    }
}

/// The first value given for header `name`.
pub fn first_header_value<'a>(headers: &'a [Header], name: &[u8]) -> (r: Option<&'a Vec<u8>>)
    ensures
        match r {
            Some(v) => first_value(header_pairs(headers@), name@) == Some(v@),
            None => first_value(header_pairs(headers@), name@) is None,
        },
{
    let ghost all = header_pairs(headers@);
    let mut i: usize = 0;
    assert(all.subrange(0, all.len() as int) =~= all);
    while i < headers.len()
        invariant
            i <= headers@.len() == all.len(),
            all == header_pairs(headers@),
            first_value(all, name@) == first_value(all.subrange(i as int, all.len() as int), name@),
        decreases headers.len() - i,
    {
        let ghost rest = all.subrange(i as int, all.len() as int);
        assert(rest.drop_first() =~= all.subrange(i + 1, all.len() as int));
        assert(rest[0] == (headers@[i as int].name@, headers@[i as int].value@));
        if bytes_eq(headers[i].name.as_slice(), name) {
            return Some(&headers[i].value);
        }
        i = i + 1;
    }
    None
}

enum HeadScan {
    Incomplete,
    Bad,
    Done(Vec<Header>, usize),
}

spec fn prepend_fields(acc: Seq<(Seq<u8>, Seq<u8>)>, m: HeadModel) -> HeadModel {
    match m {
        HeadModel::Done(fs, end) => HeadModel::Done(acc + fs, end),
        other => other,
    }
}

/// Reads header lines from `pos` through the empty line that ends them.
fn scan_headers(buf: &[u8], pos: usize) -> (r: HeadScan)
    requires
        pos <= buf@.len(),
    ensures
        match r {
            HeadScan::Incomplete => header_block(buf@, pos as int) is Incomplete,
            HeadScan::Bad => header_block(buf@, pos as int) is Bad,
            HeadScan::Done(hs, end) => end <= buf@.len() && header_block(buf@, pos as int) == HeadModel::Done(
                header_pairs(hs@),
                end as int,
            ),
        },
{
    let mut hs: Vec<Header> = Vec::new();
    let mut p: usize = pos;
    assert(header_pairs(hs@) =~= Seq::<(Seq<u8>, Seq<u8>)>::empty());
    assert(prepend_fields(Seq::empty(), header_block(buf@, pos as int)) =~~= header_block(buf@, pos as int));
    loop
        invariant
            p <= buf@.len(),
            header_block(buf@, pos as int) == prepend_fields(header_pairs(hs@), header_block(buf@, p as int)),
        decreases buf@.len() - p,
    {
        proof {
            lemma_first_index(buf@, 10, p as int);
        }
        match read_line(buf, p) {
            None => return HeadScan::Incomplete,
            Some((line, next)) => {
                if line.len() == 0 {
                    assert(header_pairs(hs@) + Seq::empty() =~= header_pairs(hs@));
                    return HeadScan::Done(hs, next);
                }
                match parse_header_line(line.as_slice()) {
                    None => return HeadScan::Bad,
                    Some(h) => {
                        let ghost before = header_pairs(hs@);
                        let ghost f = (h.name@, h.value@);
                        hs.push(h);
                        assert(header_pairs(hs@) =~= before.push(f));
                        proof {
                            match header_block(buf@, next as int) {
                                HeadModel::Done(fs, e) => {
                                    assert(before + (seq![f] + fs) =~= before.push(f) + fs);
                                },
                                _ => {},
                            }
                        }
                        p = next;
                    },
                }
            },
        }
    }
}

/// Reads one request from the bytes received so far on a connection.
///
/// The head must be complete (closed by an empty line) and, when it
/// declares a non-zero `Content-Length`, that many bytes must follow it;
/// until then the outcome is `Incomplete`. A malformed request line or
/// header fails as soon as its line is complete.
pub fn parse_request(buf: &[u8]) -> (r: ParseOutcome)
    ensures
        r@ == parse_model(buf@),
{
    let (line, next) = match read_line(buf, 0) {
        None => return ParseOutcome::Incomplete,
        Some(x) => x,
    };
    let (method, url, version) = match parse_request_line(line.as_slice()) {
        Err(e) => return ParseOutcome::Failed(e),
        Ok(x) => x,
    };
    proof {
        lemma_first_index(buf@, 10, 0);
    }
    let (headers, start) = match scan_headers(buf, next) {
        HeadScan::Incomplete => return ParseOutcome::Incomplete,
        HeadScan::Bad => return ParseOutcome::Failed(ParseError::BadHeader),
        HeadScan::Done(hs, end) => (hs, end),
    };
    proof {
        reveal_strlit("Content-Length");
    }
    let name = str_bytes("Content-Length");
    let declared = match first_header_value(headers.as_slice(), name.as_slice()) {
        None => None,
        Some(v) => match parse_usize(v.as_slice()) {
            None => return ParseOutcome::Failed(ParseError::BadContentLength),
            Some(n) => Some(n),
        },
    };
    let (body, consumed) = match declared {
        None => (None, start),
        Some(n) => {
            if n == 0 {
                (None, start)
            } else if n <= buf.len() - start {
                (Some(slice_to_vec(slice_subrange(buf, start, start + n))), start + n)
            } else {
                return ParseOutcome::Incomplete;
            }
        },
    };
    let request = HttpRequest { method, url, version, headers, body };
    ParseOutcome::Complete { request, consumed }
}

} // verus!
