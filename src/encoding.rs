//! Content encoding: whether a request accepts gzip, and the gzip
//! compression itself, which flate2 performs.
use vstd::prelude::*;
use vstd::slice::slice_subrange;

use crate::ascii::{ascii, starts_with, str_bytes};
use crate::request::{first_header_value, first_value, header_pairs, Header};

verus! {

/// The gzip stream that flate2 produces for `data` at the default level.
pub uninterp spec fn gzip_of(data: Seq<u8>) -> Seq<u8>;

/// Relies on flate2's `GzEncoder` (`new`, `write_all`, `finish`) writing
/// into a `Vec<u8>` at `Compression::default()`: the result is the gzip
/// stream of `data`. The header it writes carries no time stamp and a fixed
/// operating-system byte, so the stream depends on `data` alone. An error
/// reported by the encoder gives `None`.
#[verifier::external_body]
pub(crate) fn gzip(data: &[u8]) -> (r: Option<Vec<u8>>)
    ensures
        r matches Some(z) ==> z@ == gzip_of(data@),
{
    let mut e = flate2::write::GzEncoder::new(Vec::new(), flate2::Compression::default());
    match std::io::Write::write_all(&mut e, data) {
        Ok(()) => e.finish().ok(),
        Err(_) => None,
    }
}

/// `, ` stands at position `i` of `v`.
pub open spec fn separator_at(v: Seq<u8>, i: int) -> bool {
    0 <= i && i + 2 <= v.len() && v[i] == 44 && v[i + 1] == 32
}

/// `tok` is one of the pieces of `v` cut at each `, `, and begins at `i`.
pub open spec fn token_at(v: Seq<u8>, tok: Seq<u8>, i: int) -> bool {
    0 <= i && i + tok.len() <= v.len() && v.subrange(i, i + tok.len()) == tok && (i == 0
        || separator_at(v, i - 2)) && (i + tok.len() == v.len() || separator_at(
        v,
        i + tok.len(),
    ))
}

/// The list `v`, cut at each `, `, holds the piece `tok` (for a `tok`
/// without `, ` in it).
pub open spec fn has_token(v: Seq<u8>, tok: Seq<u8>) -> bool {
    exists|i: int| token_at(v, tok, i)
}

/// The first `Accept-Encoding` value lists `gzip`.
pub open spec fn gzip_accepted(h: Seq<(Seq<u8>, Seq<u8>)>) -> bool {
    match first_value(h, ascii("Accept-Encoding"@)) {
        Some(v) => has_token(v, ascii("gzip"@)),
        None => false,
    }
}

fn separator_at_exec(v: &[u8], i: usize) -> (r: bool)
    ensures
        r == separator_at(v@, i as int),
{
    i < v.len() && v.len() - i >= 2 && v[i] == 44 && v[i + 1] == 32
}

fn token_at_exec(v: &[u8], tok: &[u8], i: usize) -> (r: bool)
    requires
        i < v@.len(),
    ensures
        r == token_at(v@, tok@, i as int),
{
    if tok.len() > v.len() - i {
        return false;
    }
    let rest = slice_subrange(v, i, v.len());
    assert(rest@.subrange(0, tok@.len() as int) =~= v@.subrange(i as int, i + tok@.len()));
    if !starts_with(rest, tok) {
        return false;
    }
    let before = i == 0 || (i >= 2 && separator_at_exec(v, i - 2));
    let end = i + tok.len();
    let after = end == v.len() || separator_at_exec(v, end);
    before && after
}

/// Whether the list `v` holds the piece `tok` when cut at each `, `.
pub fn list_has_token(v: &[u8], tok: &[u8]) -> (r: bool)
    requires
        tok@.len() > 0,
    ensures
        r == has_token(v@, tok@),
{
    let mut i: usize = 0;
    while i < v.len()
        invariant
            forall|j: int| 0 <= j < i ==> !token_at(v@, tok@, j),
        decreases v.len() - i,
    {
        if token_at_exec(v, tok, i) {
            return true;
        }
        i = i + 1;
    }
    assert forall|j: int| !token_at(v@, tok@, j) by {
        if 0 <= j < i {
        }
    }
    false
}

/// Whether the request's first `Accept-Encoding` value lists `gzip`.
pub fn accepts_gzip(headers: &[Header]) -> (r: bool)
    ensures
        r == gzip_accepted(header_pairs(headers@)),
{
    proof {
        reveal_strlit("Accept-Encoding");
        reveal_strlit("gzip");
    }
    let name = str_bytes("Accept-Encoding");
    match first_header_value(headers, name.as_slice()) {
        Some(v) => {
            let tok = str_bytes("gzip");
            list_has_token(v.as_slice(), tok.as_slice())
        },
        None => false,
    }
}

} // verus!
