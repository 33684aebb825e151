//! Properties of the server as a whole, stated over the models of the
//! parser, the dispatcher and the response writer, with the file store
//! modelled as a map from path to contents.
use vstd::prelude::*;

use crate::ascii::{all_digits, ascii, decimal, digits_value, has_prefix, unsigned_part, usize_of};
use crate::encoding::{gzip_accepted, gzip_of};
use crate::request::{content_length_name, header_block, lemma_first_index, line_from, HeadModel, first_value, parse_model, HttpMethod, ParseModel, RequestModel};
use crate::response::{header_lines, status_line, wire, ResponseModel, Status};
use crate::router::{after, bare, file_model, join_path, route, text_model, ActionModel};

verus! {

/// The response to an action, and the store after it, when the file store
/// is `fs`: a read answers the stored contents or 404, a write stores the
/// contents and answers 201.
pub open spec fn run(fs: Map<Seq<u8>, Seq<u8>>, a: ActionModel) -> (Map<Seq<u8>, Seq<u8>>, ResponseModel) {
    match a {
        ActionModel::Respond(r) => (fs, r),
        ActionModel::ServeFile(p) => (fs, if fs.contains_key(p) {
            file_model(fs[p])
        } else {
            bare(Status::NotFound)
        }),
        ActionModel::StoreFile(p, c) => (fs.insert(p, c), bare(Status::Created)),
    }
}

proof fn lemma_prefix_concat(p: Seq<u8>, s: Seq<u8>)
    ensures
        has_prefix(p + s, p),
        after(p + s, p) == s,
{
    assert((p + s).subrange(0, p.len() as int) =~= p);
    assert(after(p + s, p) =~= s);
}

/// A target `/echo/<s>` or `/files/<s>` takes none of the earlier routes.
proof fn lemma_routes_apart(s: Seq<u8>)
    ensures
        ascii("/echo/"@) + s != ascii("/"@),
        ascii("/files/"@) + s != ascii("/"@),
        !has_prefix(ascii("/files/"@) + s, ascii("/echo/"@)),
        !has_prefix(ascii("/files/"@) + s, ascii("/user-agent"@)),
{
    reveal_strlit("/");
    reveal_strlit("/echo/");
    reveal_strlit("/files/");
    reveal_strlit("/user-agent");
    let f = ascii("/files/"@) + s;
    assert((ascii("/echo/"@) + s).len() != ascii("/"@).len());
    assert(f.len() != ascii("/"@).len());
    assert(f[1] == 102u8);
    assert(f.subrange(0, 6)[1] == 102u8);
    assert(ascii("/echo/"@)[1] == 101u8);
    if f.len() >= 11 {
        assert(f.subrange(0, 11)[1] == 102u8);
    }
    assert(ascii("/user-agent"@)[1] == 117u8);
}

/// A GET of `/echo/<s>` answers `text/plain` with body `<s>` exactly when
/// the request does not accept gzip, and with the gzip stream of `<s>`,
/// marked `Content-Encoding: gzip`, when it does.
pub proof fn law_echo(dir: Option<Seq<u8>>, req: RequestModel, s: Seq<u8>)
    requires
        req.method == HttpMethod::Get,
        req.url == ascii("/echo/"@) + s,
    ensures
        gzip_accepted(req.headers) ==> route(dir, req) == ActionModel::Respond(
            text_model(gzip_of(s), true),
        ),
        !gzip_accepted(req.headers) ==> route(dir, req) == ActionModel::Respond(
            text_model(s, false),
        ),
{
    lemma_prefix_concat(ascii("/echo/"@), s);
    lemma_routes_apart(s);
}

proof fn lemma_first_value_single(h: Seq<(Seq<u8>, Seq<u8>)>, name: Seq<u8>, v: Seq<u8>)
    requires
        exists|i: int| 0 <= i < h.len() && #[trigger] h[i].0 == name,
        forall|i: int| 0 <= i < h.len() && #[trigger] h[i].0 == name ==> h[i].1 == v,
    ensures
        first_value(h, name) == Some(v),
    decreases h.len(),
{
    if h[0].0 != name {
        let i = choose|i: int| 0 <= i < h.len() && #[trigger] h[i].0 == name;
        let t = h.drop_first();
        assert(t[i - 1].0 == name);
        assert forall|j: int| 0 <= j < t.len() && #[trigger] t[j].0 == name implies t[j].1 == v by {
            assert(t[j] == h[j + 1]);
        }
        lemma_first_value_single(t, name, v);
    }
}

/// When every `User-Agent` header of a request carries the value `v`, and
/// there is one, a GET of `/user-agent` answers `text/plain` with body `v`.
pub proof fn law_user_agent(dir: Option<Seq<u8>>, req: RequestModel, v: Seq<u8>)
    requires
        req.method == HttpMethod::Get,
        req.url == ascii("/user-agent"@),
        exists|i: int| 0 <= i < req.headers.len() && #[trigger] req.headers[i].0 == ascii("User-Agent"@),
        forall|i: int|
            0 <= i < req.headers.len() && #[trigger] req.headers[i].0 == ascii("User-Agent"@)
                ==> req.headers[i].1 == v,
    ensures
        route(dir, req) == ActionModel::Respond(text_model(v, false)),
{
    reveal_strlit("/");
    reveal_strlit("/echo/");
    reveal_strlit("/user-agent");
    lemma_first_value_single(req.headers, ascii("User-Agent"@), v);
    let u = req.url;
    assert(u.len() != ascii("/"@).len());
    assert(u.subrange(0, 6)[1] == 117u8);
    assert(u.subrange(0, 11) =~= u);
}

/// Storing then fetching: after a POST of body `b` to `/files/<name>`, a GET
/// of `/files/<name>` answers `application/octet-stream` with body `b`,
/// whatever the store held before. An empty `b` travels as no body.
pub proof fn law_store_then_fetch(
    dir: Seq<u8>,
    fs: Map<Seq<u8>, Seq<u8>>,
    name: Seq<u8>,
    b: Seq<u8>,
    post: RequestModel,
    get: RequestModel,
)
    requires
        post.method == HttpMethod::Post,
        post.url == ascii("/files/"@) + name,
        post.body == (if b.len() == 0 {
            None
        } else {
            Some(b)
        }),
        get.method == HttpMethod::Get,
        get.url == ascii("/files/"@) + name,
    ensures
        run(run(fs, route(Some(dir), post)).0, route(Some(dir), get)).1 == file_model(b),
        file_model(b).body == Some(b),
        file_model(b).headers == seq![(ascii("Content-Type"@), ascii("application/octet-stream"@))],
{
    lemma_prefix_concat(ascii("/files/"@), name);
    lemma_routes_apart(name);
    if b.len() == 0 {
        assert(b =~= Seq::<u8>::empty());
    }
}

/// With a directory set, a POST of `/files/<name>` writes its body to that
/// file, creating or truncating it, and answers 201 with no body; a request
/// without a body leaves the file empty.
pub proof fn law_post_stores_body(
    dir: Seq<u8>,
    fs: Map<Seq<u8>, Seq<u8>>,
    name: Seq<u8>,
    post: RequestModel,
)
    requires
        post.method == HttpMethod::Post,
        post.url == ascii("/files/"@) + name,
    ensures
        run(fs, route(Some(dir), post)) == (fs.insert(
            join_path(dir, name),
            match post.body {
                Some(b) => b,
                None => Seq::<u8>::empty(),
            },
        ), bare(Status::Created)),
        post.body is None ==> run(fs, route(Some(dir), post)).0[join_path(dir, name)]
            == Seq::<u8>::empty(),
{
    lemma_prefix_concat(ascii("/files/"@), name);
}

/// A GET of `/files/<name>` when no such file is stored (or no directory
/// is set) answers 404 with no body, sent as the status line and a blank
/// line alone.
pub proof fn law_missing_file(
    dir: Option<Seq<u8>>,
    fs: Map<Seq<u8>, Seq<u8>>,
    name: Seq<u8>,
    req: RequestModel,
)
    requires
        req.method == HttpMethod::Get,
        req.url == ascii("/files/"@) + name,
        dir matches Some(d) ==> !fs.contains_key(join_path(d, name)),
    ensures
        run(fs, route(dir, req)).1 == bare(Status::NotFound),
        wire(bare(Status::NotFound)) == ascii("HTTP/1.1 404 Not Found\r\n\r\n"@),
{
    lemma_prefix_concat(ascii("/files/"@), name);
    lemma_routes_apart(name);
    reveal_strlit("HTTP/1.1 404 Not Found\r\n");
    reveal_strlit("\r\n");
    reveal_strlit("HTTP/1.1 404 Not Found\r\n\r\n");
    assert(header_lines(Seq::empty()) == Seq::<u8>::empty());
    assert(wire(bare(Status::NotFound)) =~= ascii("HTTP/1.1 404 Not Found\r\n\r\n"@));
}

proof fn lemma_decimal_reads_back(n: nat)
    ensures
        decimal(n).len() > 0,
        all_digits(decimal(n)),
        digits_value(decimal(n)) == n,
    decreases n,
{
    let d = decimal(n);
    if n >= 10 {
        lemma_decimal_reads_back(n / 10);
        assert(d.drop_last() =~= decimal(n / 10));
        assert(d.last() == (48 + n % 10) as u8);
        assert(d.last() - 48 == n % 10);
        assert(digits_value(d) == digits_value(d.drop_last()) * 10 + (d.last() - 48) as nat);
        assert((n / 10) * 10 + n % 10 == n) by (nonlinear_arith);
        assert forall|i: int| 0 <= i < d.len() implies crate::ascii::is_digit_spec(#[trigger] d[i]) by {
            if i < d.len() - 1 {
                assert(d[i] == decimal(n / 10)[i]);
            }
        }
    } else {
        assert forall|i: int| 0 <= i < d.len() implies crate::ascii::is_digit_spec(#[trigger] d[i]) by {}
        assert(d.drop_last() =~= Seq::<u8>::empty());
        assert(d.last() == (48 + n) as u8);
        assert(d.last() - 48 == n);
        assert(digits_value(d) == digits_value(d.drop_last()) * 10 + (d.last() - 48) as nat);
    }
}

/// Every response with a body is sent with a `Content-Length` line whose
/// value is the exact byte length of the body that follows, as sent (after
/// any encoding): reading that value back gives that length.
pub proof fn law_content_length(r: ResponseModel)
    requires
        r.body is Some,
        r.body->0.len() <= usize::MAX,
    ensures
        wire(r) == status_line(r.status) + header_lines(r.headers) + ascii("Content-Length: "@)
            + decimal(r.body->0.len()) + ascii("\r\n\r\n"@) + r.body->0,
        usize_of(decimal(r.body->0.len())) == Some(r.body->0.len()),
{
    let b = r.body->0;
    lemma_decimal_reads_back(b.len());
    let d = decimal(b.len());
    assert(d[0] != 43u8);
    assert(unsigned_part(d) == d);
    let head = status_line(r.status) + header_lines(r.headers);
    assert(head + (ascii("Content-Length: "@) + d + ascii("\r\n\r\n"@) + b) =~= head + ascii(
        "Content-Length: "@,
    ) + d + ascii("\r\n\r\n"@) + b);
}

/// The gzip answer to `/echo/<s>` declares the length of the compressed
/// body, not that of `<s>`.
pub proof fn law_echo_length_is_encoded(dir: Option<Seq<u8>>, req: RequestModel, s: Seq<u8>)
    requires
        req.method == HttpMethod::Get,
        req.url == ascii("/echo/"@) + s,
        gzip_accepted(req.headers),
        gzip_of(s).len() <= usize::MAX,
    ensures
        route(dir, req) matches ActionModel::Respond(r) && wire(r) == status_line(r.status)
            + header_lines(r.headers) + ascii("Content-Length: "@) + decimal(gzip_of(s).len())
            + ascii("\r\n\r\n"@) + gzip_of(s),
{
    law_echo(dir, req, s);
    law_content_length(text_model(gzip_of(s), true));
}

proof fn lemma_header_block_end(buf: Seq<u8>, pos: int)
    requires
        0 <= pos,
    ensures
        header_block(buf, pos) matches HeadModel::Done(_, e) ==> pos < e <= buf.len(),
    decreases buf.len() - pos,
{
    lemma_first_index(buf, 10, pos);
    if let Some((line, next)) = line_from(buf, pos) {
        if line.len() != 0 {
            lemma_header_block_end(buf, next);
        }
    }
}

/// A parsed request carries a body only when it declared a non-zero
/// `Content-Length`, and then exactly that many bytes.
pub proof fn law_body_is_declared_length(buf: Seq<u8>)
    requires
        parse_model(buf) is Complete,
    ensures
        ({
            let req = parse_model(buf)->Complete_0;
            match req.body {
                Some(b) => b.len() > 0 && usize_of(first_value(req.headers, content_length_name())->0)
                    == Some(b.len()),
                None => first_value(req.headers, content_length_name()) matches Some(v) ==> usize_of(v)
                    == Some(0nat),
            }
        }),
{
    lemma_first_index(buf, 10, 0);
    let first = line_from(buf, 0)->0;
    let next = first.1;
    lemma_header_block_end(buf, next);
}

} // verus!
