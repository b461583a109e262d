//! Response compression middleware: when the client's accept-encoding
//! header advertises gzip, a response body is compressed in one pass, the
//! content-encoding header is set, and the content-length header is
//! recomputed from the actual compressed byte count — never from the
//! pre-compression length. A response without a body has no body-related
//! headers to adjust and passes through unchanged.

use vstd::prelude::*;
use vstd::string::StringSliceAdditionalSpecFns;
use std::io::Read;
use crate::ascii::{bytes_eq, copy_range, dec_digits, lit_bytes, lower_seq, u64_to_dec};
use crate::server::{Middleware, MiddlewareError, MiddlewareFactory};
use crate::types::{
    spec_get_header, spec_set_header, Request, RequestView, Response, ResponseView,
};

verus! {

broadcast use crate::views::lemma_bytes_deep_view;

/// Error for a request body that cannot be decompressed.
#[derive(Debug)]
pub struct DecompressionError;

/// Index of the first comma-space separator at or after `from`, or the
/// sequence length when there is none.
pub open spec fn find_sep(s: Seq<u8>, from: int) -> int
    decreases s.len() - from,
{
    if from < 0 || from + 2 > s.len() {
        s.len() as int
    } else if s[from] == 44 && s[from + 1] == 32 {
        from
    } else {
        find_sep(s, from + 1)
    }
}

proof fn lemma_find_sep(s: Seq<u8>, from: int)
    requires
        0 <= from <= s.len(),
    ensures
        from <= find_sep(s, from) <= s.len(),
        find_sep(s, from) < s.len() ==> find_sep(s, from) + 2 <= s.len(),
    decreases s.len() - from,
{
    if from + 2 <= s.len() && !(s[from] == 44 && s[from + 1] == 32) {
        lemma_find_sep(s, from + 1);
    }
}

/// The comma-space separated tokens of `s`, starting at `from`.
pub open spec fn spec_split_tokens(s: Seq<u8>, from: int) -> Seq<Seq<u8>>
    decreases s.len() + 1 - from,
    when 0 <= from <= s.len()
    via spec_split_tokens_dec
{
    let i = find_sep(s, from);
    if i >= s.len() {
        seq![s.subrange(from, s.len() as int)]
    } else {
        seq![s.subrange(from, i)] + spec_split_tokens(s, i + 2)
    }
}

#[via_fn]
proof fn spec_split_tokens_dec(s: Seq<u8>, from: int) {
    lemma_find_sep(s, from);
}

/// Whether an accept-encoding value advertises gzip: its comma-space
/// separated tokens contain exactly "gzip".
pub open spec fn spec_accepts_gzip(v: Seq<u8>) -> bool {
    spec_split_tokens(v, 0).contains("gzip".spec_bytes())
}

proof fn lemma_contains_cons(t: Seq<u8>, r: Seq<Seq<u8>>, g: Seq<u8>)
    ensures
        (seq![t] + r).contains(g) <==> (t == g || r.contains(g)),
{
    if (seq![t] + r).contains(g) {
        let i = choose|i: int| 0 <= i < (seq![t] + r).len() && (seq![t] + r)[i] == g;
        if i == 0 {
            assert(t == g);
        } else {
            assert(r[i - 1] == g);
            assert(r.contains(g));
        }
    }
    if t == g {
        assert((seq![t] + r)[0] == g);
        assert((seq![t] + r).contains(g));
    }
    if r.contains(g) {
        let i = choose|i: int| 0 <= i < r.len() && r[i] == g;
        assert((seq![t] + r)[i + 1] == g);
        assert((seq![t] + r).contains(g));
    }
}

/// Scan for the first comma-space separator at or after `from`.
fn scan_sep(s: &[u8], from: usize) -> (r: usize)
    requires
        from <= s@.len(),
    ensures
        r == find_sep(s@, from as int),
{
    let n: usize = s.len();
    let mut i: usize = from;
    while i < n && n - i >= 2
        invariant
            from <= i <= n == s@.len(),
            find_sep(s@, from as int) == find_sep(s@, i as int),
        decreases n - i,
    {
        if s[i] == 44 && s[i + 1] == 32 {
            return i;
        }
        i = i + 1;
    }
    n
}

/// Decide whether an accept-encoding value advertises gzip.
fn accepts_gzip(v: &[u8]) -> (r: bool)
    ensures
        r == spec_accepts_gzip(v@),
{
    let g = lit_bytes("gzip");
    let n: usize = v.len();
    let mut pos: usize = 0;
    loop
        invariant
            0 <= pos <= n == v@.len(),
            g@ == "gzip".spec_bytes(),
            spec_accepts_gzip(v@) == spec_split_tokens(v@, pos as int).contains(g@),
        decreases n - pos,
    {
        let i = scan_sep(v, pos);
        proof {
            lemma_find_sep(v@, pos as int);
        }
        if i >= n {
            let tok = copy_range(v, pos, n);
            let res = bytes_eq(tok.as_slice(), g.as_slice());
            proof {
                assert(spec_split_tokens(v@, pos as int) =~= seq![
                    v@.subrange(pos as int, n as int),
                ]);
                lemma_contains_cons(
                    v@.subrange(pos as int, n as int),
                    Seq::<Seq<u8>>::empty(),
                    g@,
                );
                assert(seq![v@.subrange(pos as int, n as int)] + Seq::<Seq<u8>>::empty() =~= seq![
                    v@.subrange(pos as int, n as int),
                ]);
            }
            return res;
        }
        let tok = copy_range(v, pos, i);
        let hit = bytes_eq(tok.as_slice(), g.as_slice());
        proof {
            assert(spec_split_tokens(v@, pos as int) == seq![v@.subrange(pos as int, i as int)]
                + spec_split_tokens(v@, i + 2));
            lemma_contains_cons(
                v@.subrange(pos as int, i as int),
                spec_split_tokens(v@, i + 2),
                g@,
            );
        }
        if hit {
            return true;
        }
        pos = i + 2;
    }
}

/// The gzip encoding of a byte sequence, as flate2's fast-level encoder
/// produces it. In the locked crate the encoding is a function of the input
/// alone: the header is fixed (mtime 0, level byte from the fixed level,
/// and the OS byte pinned to one value for what its source calls
/// "cross-platform reproducible streams"), and the deflate body comes from
/// the crate's deterministic pure-Rust backend.
pub uninterp spec fn gzip_of(data: Seq<u8>) -> Seq<u8>;

/// Relies on flate2's read-side `GzEncoder` at `Compression::fast`:
/// compresses the bytes as one gzip stream, buffered in full. Reading from
/// an in-memory slice cannot fail, and the stream is reproducible (see
/// `gzip_of`).
#[verifier::external_body]
fn gzip_compress(data: &[u8]) -> (r: Vec<u8>)
    ensures
        r@ == gzip_of(data@),
{
    let mut enc = flate2::read::GzEncoder::new(data, flate2::Compression::fast());
    let mut buf: Vec<u8> = Vec::new();
    match enc.read_to_end(&mut buf) {
        _ => buf,
    }
}

/// Middleware factory for response compression: activates exactly when the
/// request's accept-encoding header advertises gzip.
pub struct CompressionFactory;

impl MiddlewareFactory for CompressionFactory {
    type Mw = Compression;

    open spec fn inv(&self) -> bool {
        true
    }

    open spec fn spec_new(&self, req: RequestView) -> Option<Compression> {
        match spec_get_header(req.headers, "accept-encoding".spec_bytes()) {
            Some(v) => if spec_accepts_gzip(v) {
                Some(Compression)
            } else {
                None
            },
            None => None,
        }
    }

    fn new(&self, req: &Request) -> (r: Option<Compression>) {
        let key = lit_bytes("accept-encoding");
        match req.get_header(key.as_slice()) {
            Some(v) => {
                if accepts_gzip(v.as_slice()) {
                    Some(Compression)
                } else {
                    None
                }
            },
            None => None,
        }
    }
}

/// The compression middleware instance: inert before dispatch; after a
/// successful dispatch it replaces a present body with its gzip encoding
/// and keeps the headers consistent with the new body, and leaves a
/// body-less response untouched.
pub struct Compression;

impl Middleware for Compression {
    open spec fn inv(&self) -> bool {
        true
    }

    open spec fn before_fails(&self, req: RequestView) -> bool {
        false
    }

    open spec fn after_fails(&self, resp: ResponseView) -> bool {
        false
    }

    open spec fn before_ok(&self, old_req: RequestView, new_req: RequestView) -> bool {
        new_req == old_req
    }

    /// With a body present, the after hook replaces it by exactly its gzip
    /// encoding, sets `content-encoding: gzip`, and sets content-length to
    /// the new body's exact length; a response without a body is left
    /// entirely unchanged, so no body-related header appears on it.
    open spec fn after_ok(&self, old_resp: ResponseView, new_resp: ResponseView) -> bool {
        match old_resp.body {
            None => new_resp == old_resp,
            Some(b) => {
                &&& new_resp.status == old_resp.status
                &&& new_resp.body == Some(gzip_of(b))
                &&& new_resp.headers == spec_set_header(
                    spec_set_header(
                        old_resp.headers,
                        "content-encoding".spec_bytes(),
                        "gzip".spec_bytes(),
                    ),
                    "content-length".spec_bytes(),
                    dec_digits(gzip_of(b).len()),
                )
            },
        }
    }

    fn apply_before(&self, req: &mut Request) -> (r: Result<(), MiddlewareError>) {
        Ok(())
    }

    fn apply_after(&self, resp: &mut Response) -> (r: Result<(), MiddlewareError>) {
        if resp.body.is_some() {
            resp.set_header(lit_bytes("content-encoding"), lit_bytes("gzip"));
            let data = match resp.body.take() {
                Some(d) => d,
                None => vstd::pervasive::unreached(),
            };
            let compressed = gzip_compress(data.as_slice());
            let n64: u64 = compressed.len() as u64;
            resp.set_header(lit_bytes("content-length"), u64_to_dec(n64));
            resp.body = Some(compressed);
        }
        Ok(())
    }
}


proof fn lemma_header_keys_distinct()
    ensures
        lower_seq("content-length".spec_bytes()) != lower_seq("content-encoding".spec_bytes()),
{
    reveal_strlit("content-length");
    reveal_strlit("content-encoding");
    assert(vstd::utf8::is_ascii_chars("content-length"@));
    assert(vstd::utf8::is_ascii_chars("content-encoding"@));
    vstd::utf8::is_ascii_chars_encode_utf8("content-length"@);
    vstd::utf8::is_ascii_chars_encode_utf8("content-encoding"@);
    assert("content-length".spec_bytes().len() == 14);
    assert("content-encoding".spec_bytes().len() == 16);
    assert(lower_seq("content-length".spec_bytes()).len() == 14);
    assert(lower_seq("content-encoding".spec_bytes()).len() == 16);
}

/// After the compression hook ran on a response that carried a body, the
/// new body is exactly the gzip encoding of the old one, the response
/// advertises `content-encoding: gzip`, its content-length header holds
/// exactly the new (compressed) body length — never the original one — and
/// the response is well formed.
pub proof fn lemma_compression_headers(c: Compression, o: ResponseView, n: ResponseView)
    requires
        c.after_ok(o, n),
        o.body is Some,
    ensures
        n.body == Some(gzip_of(o.body.unwrap())),
        spec_get_header(n.headers, "content-encoding".spec_bytes()) == Some(
            "gzip".spec_bytes(),
        ),
        spec_get_header(n.headers, "content-length".spec_bytes()) == Some(
            dec_digits(n.body.unwrap().len()),
        ),
        n.wf(),
{
    let ce = "content-encoding".spec_bytes();
    let cl = "content-length".spec_bytes();
    let h1 = spec_set_header(o.headers, ce, "gzip".spec_bytes());
    crate::types::lemma_get_set_header_same(h1, cl, dec_digits(n.body.unwrap().len()));
    lemma_header_keys_distinct();
    crate::types::lemma_get_set_header_other(
        h1,
        cl,
        dec_digits(n.body.unwrap().len()),
        ce,
    );
    crate::types::lemma_get_set_header_same(o.headers, ce, "gzip".spec_bytes());
}


/// A run of compression after-hooks preserves response well-formedness:
/// whatever instances run, the response they leave declares exactly its own
/// body length in its content-length header, so the serialized wire bytes
/// carry a declared length equal to the actual body byte count.
pub proof fn lemma_compression_chain_wf(
    ms: Seq<Compression>,
    from: ResponseView,
    to: ResponseView,
    i: int,
)
    requires
        crate::server::after_chain(ms, from, to, i),
        from.wf(),
    ensures
        to.wf(),
    decreases ms.len() - i,
{
    if 0 <= i < ms.len() {
        let mid = choose|mid: ResponseView|
            ms[i].after_ok(from, mid) && crate::server::after_chain(ms, mid, to, i + 1);
        if from.body is Some {
            lemma_compression_headers(ms[i], from, mid);
        }
        lemma_compression_chain_wf(ms, mid, to, i + 1);
    }
}

} // verus!
