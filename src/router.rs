//! The route dispatcher: from a request to the response, or to the file
//! work that the response waits on.
use vstd::prelude::*;
use vstd::slice::{slice_subrange, slice_to_vec};

use crate::ascii::{ascii, bytes_eq, has_prefix, starts_with, str_bytes};
use crate::encoding::{accepts_gzip, gzip, gzip_accepted, gzip_of};
use crate::request::{
    first_header_value, first_value, opt_bytes, Header, HttpMethod, HttpRequest,
    ParseError, RequestModel,
};
use crate::response::{Response, ResponseModel, Status};

verus! {

/// Settings fixed when the server starts.
#[derive(Debug)]
pub struct Config {
    /// The directory that `/` and `/files/<name>` are served from.
    pub directory: Option<Vec<u8>>,
}

/// What the connection has to do to answer a request.
#[derive(Debug)]
pub enum Action {
    /// Send this response.
    Respond(Response),
    /// Read the file at this path and answer with `file_response`: its
    /// contents when it is a regular file, nothing otherwise.
    ServeFile(Vec<u8>),
    /// Create or truncate the file at `path`, write `contents` to it, and
    /// answer with `store_response`.
    StoreFile { path: Vec<u8>, contents: Vec<u8> },
}

pub enum ActionModel {
    Respond(ResponseModel),
    ServeFile(Seq<u8>),
    StoreFile(Seq<u8>, Seq<u8>),
}

impl View for Action {
    type V = ActionModel;

    open spec fn view(&self) -> ActionModel {
        match self {
            Action::Respond(r) => ActionModel::Respond(r@),
            Action::ServeFile(p) => ActionModel::ServeFile(p@),
            Action::StoreFile { path, contents } => ActionModel::StoreFile(path@, contents@),
        }
    }
}

pub open spec fn bare(status: Status) -> ResponseModel {
    ResponseModel { status, headers: Seq::empty(), body: None }
}

pub open spec fn text_model(body: Seq<u8>, gzipped: bool) -> ResponseModel {
    let kind = seq![(ascii("Content-Type"@), ascii("text/plain"@))];
    ResponseModel {
        status: Status::Success,
        headers: if gzipped {
            kind.push((ascii("Content-Encoding"@), ascii("gzip"@)))
        } else {
            kind
        },
        body: Some(body),
    }
}

pub open spec fn file_model(contents: Seq<u8>) -> ResponseModel {
    ResponseModel {
        status: Status::Success,
        headers: seq![(ascii("Content-Type"@), ascii("application/octet-stream"@))],
        body: Some(contents),
    }
}

/// `name` inside directory `dir`: a `/` goes between them unless `dir` is
/// empty or already ends with one.
pub open spec fn join_path(dir: Seq<u8>, name: Seq<u8>) -> Seq<u8> {
    if dir.len() == 0 || dir.last() == 47 {
        dir + name
    } else {
        dir + seq![47u8] + name
    }
}

/// What follows `prefix` in `s`.
pub open spec fn after(s: Seq<u8>, prefix: Seq<u8>) -> Seq<u8> {
    s.subrange(prefix.len() as int, s.len() as int)
}

/// The file that `GET /` or `GET /files/<name>` reads, or 404 without a
/// directory.
pub open spec fn serve_from(dir: Option<Seq<u8>>, name: Seq<u8>) -> ActionModel {
    match dir {
        Some(d) => ActionModel::ServeFile(join_path(d, name)),
        None => ActionModel::Respond(bare(Status::NotFound)),
    }
}

/// The answer to a GET, given that compression succeeds.
///
/// `/` serves `index.html`; `/echo/<text>` answers `<text>`, gzipped when
/// the request accepts gzip; a target that begins with `/user-agent`
/// answers the first `User-Agent` value, and 400 without one;
/// `/files/<name>` serves that file; anything else is 404.
pub open spec fn route_get(dir: Option<Seq<u8>>, req: RequestModel) -> ActionModel {
    let u = req.url;
    if u == ascii("/"@) {
        serve_from(dir, ascii("index.html"@))
    } else if has_prefix(u, ascii("/echo/"@)) {
        let text = after(u, ascii("/echo/"@));
        if gzip_accepted(req.headers) {
            ActionModel::Respond(text_model(gzip_of(text), true))
        } else {
            ActionModel::Respond(text_model(text, false))
        }
    } else if has_prefix(u, ascii("/user-agent"@)) {
        match first_value(req.headers, ascii("User-Agent"@)) {
            Some(v) => ActionModel::Respond(text_model(v, false)),
            None => ActionModel::Respond(bare(Status::BadRequest)),
        }
    } else if has_prefix(u, ascii("/files/"@)) {
        serve_from(dir, after(u, ascii("/files/"@)))
    } else {
        ActionModel::Respond(bare(Status::NotFound))
    }
}

/// A GET of `/echo/...` from a client that accepts gzip: the one request
/// whose answer rests on compression.
pub open spec fn compresses(req: RequestModel) -> bool {
    has_prefix(req.url, ascii("/echo/"@)) && gzip_accepted(req.headers)
}

/// The answer to a POST: `/files/<name>` stores the body (empty when there
/// is none) in that file; anything else, or no directory, is 404.
pub open spec fn route_post(dir: Option<Seq<u8>>, req: RequestModel) -> ActionModel {
    if has_prefix(req.url, ascii("/files/"@)) && dir is Some {
        ActionModel::StoreFile(
            join_path(dir->0, after(req.url, ascii("/files/"@))),
            match req.body {
                Some(b) => b,
                None => Seq::empty(),
            },
        )
    } else {
        ActionModel::Respond(bare(Status::NotFound))
    }
}

pub open spec fn route(dir: Option<Seq<u8>>, req: RequestModel) -> ActionModel {
    match req.method {
        HttpMethod::Get => route_get(dir, req),
        HttpMethod::Post => route_post(dir, req),
    }
}

fn header(name: &str, value: &str) -> (r: Header)
    requires
        name.is_ascii(),
        value.is_ascii(),
    ensures
        r.name@ == ascii(name@),
        r.value@ == ascii(value@),
{
    Header { name: str_bytes(name), value: str_bytes(value) }
}

fn bare_response(status: Status) -> (r: Response)
    ensures
        r@ == bare(status),
{
    let r = Response { status, headers: Vec::new(), body: None };
    assert(r@.headers =~= Seq::<(Seq<u8>, Seq<u8>)>::empty());
    r
}

/// The `text/plain` answer with body `body`, marked as gzip-encoded when
/// `gzipped` holds.
pub fn text_response(body: Vec<u8>, gzipped: bool) -> (r: Response)
    ensures
        r@ == text_model(body@, gzipped),
{
    proof {
        reveal_strlit("Content-Type");
        reveal_strlit("text/plain");
        reveal_strlit("Content-Encoding");
        reveal_strlit("gzip");
    }
    let mut headers: Vec<Header> = Vec::new();
    headers.push(header("Content-Type", "text/plain"));
    if gzipped {
        headers.push(header("Content-Encoding", "gzip"));
    }
    let r = Response { status: Status::Success, headers, body: Some(body) };
    assert(r@.headers =~= text_model(body@, gzipped).headers);
    r
}

/// The answer to a file read: the contents as `application/octet-stream`,
/// or 404 when there was no regular file to read.
pub fn file_response(contents: Option<Vec<u8>>) -> (r: Response)
    ensures
        r@ == match contents {
            Some(c) => file_model(c@),
            None => bare(Status::NotFound),
        },
{
    match contents {
        Some(c) => {
            proof {
                reveal_strlit("Content-Type");
                reveal_strlit("application/octet-stream");
            }
            let mut headers: Vec<Header> = Vec::new();
            headers.push(header("Content-Type", "application/octet-stream"));
            let ghost cv = c@;
            let r = Response { status: Status::Success, headers, body: Some(c) };
            assert(r@.headers =~= file_model(cv).headers);
            r
        },
        None => bare_response(Status::NotFound),
    }
}

/// The answer to a file write: 201 with no body once written, 500 when the
/// write failed.
pub fn store_response(written: bool) -> (r: Response)
    ensures
        r@ == bare(if written {
            Status::Created
        } else {
            Status::InternalServerError
        }),
{
    if written {
        bare_response(Status::Created)
    } else {
        bare_response(Status::InternalServerError)
    }
}

/// The answer to a request that could not be parsed: 400 with no body,
/// whatever the error.
pub fn parse_error_response(e: ParseError) -> (r: Response)
    ensures
        r@ == bare(Status::BadRequest),
{
    bare_response(Status::BadRequest)
}

/// `name` inside directory `dir`.
pub fn join(dir: &[u8], name: &[u8]) -> (r: Vec<u8>)
    ensures
        r@ == join_path(dir@, name@),
{
    let mut p = slice_to_vec(dir);
    if dir.len() > 0 && dir[dir.len() - 1] != 47 {
        p.push(47);
    }
    p.extend_from_slice(name);
    assert(p@ =~= join_path(dir@, name@));
    p
}

fn serve(config: &Config, name: &[u8]) -> (r: Action)
    ensures
        r@ == serve_from(opt_bytes(config.directory), name@),
{
    match &config.directory {
        Some(d) => Action::ServeFile(join(d.as_slice(), name)),
        None => Action::Respond(bare_response(Status::NotFound)),
    }
}

/// Answers a GET request. Its result is `route_get`'s, except that a failed
/// compression for `/echo/` answers 500.
pub fn handle_get(config: &Config, req: &HttpRequest) -> (r: Action)
    ensures
        r@ == route_get(opt_bytes(config.directory), req@) || (compresses(req@) && r@
            == ActionModel::Respond(bare(Status::InternalServerError))),
{
    proof {
        reveal_strlit("/");
        reveal_strlit("index.html");
        reveal_strlit("/echo/");
        reveal_strlit("/user-agent");
        reveal_strlit("User-Agent");
        reveal_strlit("/files/");
    }
    let url = req.url.as_slice();
    let root = str_bytes("/");
    let echo = str_bytes("/echo/");
    let files = str_bytes("/files/");
    if bytes_eq(url, root.as_slice()) {
        let index = str_bytes("index.html");
        serve(config, index.as_slice())
    } else if starts_with(url, echo.as_slice()) {
        let text = slice_subrange(url, echo.len(), url.len());
        if accepts_gzip(req.headers.as_slice()) {
            match gzip(text) {
                Some(z) => Action::Respond(text_response(z, true)),
                None => Action::Respond(bare_response(Status::InternalServerError)),
            }
        } else {
            Action::Respond(text_response(slice_to_vec(text), false))
        }
    } else if starts_with(url, str_bytes("/user-agent").as_slice()) {
        let name = str_bytes("User-Agent");
        match first_header_value(req.headers.as_slice(), name.as_slice()) {
            Some(v) => Action::Respond(text_response(slice_to_vec(v.as_slice()), false)),
            None => Action::Respond(bare_response(Status::BadRequest)),
        }
    } else if starts_with(url, files.as_slice()) {
        serve(config, slice_subrange(url, files.len(), url.len()))
    } else {
        Action::Respond(bare_response(Status::NotFound))
    }
}

/// Answers a POST request.
pub fn handle_post(config: &Config, req: &HttpRequest) -> (r: Action)
    ensures
        r@ == route_post(opt_bytes(config.directory), req@),
{
    proof {
        reveal_strlit("/files/");
    }
    let url = req.url.as_slice();
    let files = str_bytes("/files/");
    if starts_with(url, files.as_slice()) {
        match &config.directory {
            Some(d) => {
                let name = slice_subrange(url, files.len(), url.len());
                let contents = match &req.body {
                    Some(b) => slice_to_vec(b.as_slice()),
                    None => Vec::new(),
                };
                assert(req.body is None ==> contents@ =~= Seq::<u8>::empty());
                Action::StoreFile { path: join(d.as_slice(), name), contents }
            },
            None => Action::Respond(bare_response(Status::NotFound)),
        }
    } else {
        Action::Respond(bare_response(Status::NotFound))
    }
}

/// Answers a request by its method.
pub fn dispatch(config: &Config, req: &HttpRequest) -> (r: Action)
    ensures
        r@ == route(opt_bytes(config.directory), req@) || (req.method == HttpMethod::Get
            && compresses(req@) && r@ == ActionModel::Respond(bare(Status::InternalServerError))),
{
    match req.method {
        HttpMethod::Post => handle_post(config, req),
        HttpMethod::Get => handle_get(config, req),
    }
}

} // verus!
