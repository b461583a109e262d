//! Wire codec: parses the head of an inbound request (request line and
//! header lines) into a structured request, and serializes a structured
//! response back into bytes.
//!
//! The grammar is the one the server recognizes on the wire: a request line
//! `"<METHOD> <path> HTTP/1.1"` whose path starts with `/` and contains no
//! space, followed by header lines `"<key>: <value>"` with a space-free,
//! non-empty key and a non-empty value, terminated by an empty line. Lines
//! end at `\n`, and a trailing `\r` is stripped.

use vstd::prelude::*;
use vstd::string::StringSliceAdditionalSpecFns;
use crate::ascii::{append_bytes, bytes_eq, copy_range, find_byte, lemma_find_byte, lit_bytes, scan_byte};
use crate::types::{Method, Request, RequestParsingError, RequestView};

verus! {

broadcast use crate::views::lemma_bytes_deep_view, crate::views::lemma_header_list_deep_view;

/// A line with a trailing carriage return stripped.
pub open spec fn strip_cr(line: Seq<u8>) -> Seq<u8> {
    if line.len() > 0 && line[line.len() - 1] == 13 {
        line.drop_last()
    } else {
        line
    }
}

/// The line starting at `pos`: the bytes up to the next line feed (or the
/// end of input), with a trailing carriage return stripped.
pub open spec fn spec_line_at(s: Seq<u8>, pos: int) -> Seq<u8> {
    strip_cr(s.subrange(pos, find_byte(s, 10, pos)))
}

/// Parse of one request line: `"<METHOD> <path> HTTP/1.1"`, where the method
/// is recognized, and the path starts with `/` and contains no space.
pub open spec fn spec_parse_request_line(line: Seq<u8>) -> Option<(Method, Seq<u8>)> {
    let i = find_byte(line, 32, 0);
    if i >= line.len() {
        None
    } else {
        match Method::spec_from_bytes(line.subrange(0, i)) {
            None => None,
            Some(m) => {
                let rest = line.subrange(i + 1, line.len() as int);
                let j = find_byte(rest, 32, 0);
                if j >= rest.len() {
                    None
                } else {
                    let path = rest.subrange(0, j);
                    let tail = rest.subrange(j + 1, rest.len() as int);
                    if tail == "HTTP/1.1".spec_bytes() && path.len() >= 1 && path[0] == 47 {
                        Some((m, path))
                    } else {
                        None
                    }
                }
            },
        }
    }
}

/// Parse of one header line: `"<key>: <value>"` with a non-empty key that
/// contains no space and a non-empty value.
pub open spec fn spec_parse_header(line: Seq<u8>) -> Option<(Seq<u8>, Seq<u8>)> {
    let i = find_byte(line, 32, 0);
    if 2 <= i && i < line.len() && line[i - 1] == 58 && i + 1 < line.len() {
        Some((line.subrange(0, i - 1), line.subrange(i + 1, line.len() as int)))
    } else {
        None
    }
}

/// Parse of the header lines starting at `pos`: one header per line until an
/// empty line or the end of input; a malformed line fails the parse.
pub open spec fn spec_parse_headers(s: Seq<u8>, pos: int) -> Option<Seq<(Seq<u8>, Seq<u8>)>>
    decreases s.len() + 1 - pos,
    when pos >= 0
    via spec_parse_headers_dec
{
    if pos >= s.len() {
        Some(Seq::empty())
    } else {
        let e = find_byte(s, 10, pos);
        let line = strip_cr(s.subrange(pos, e));
        if line.len() == 0 {
            Some(Seq::empty())
        } else {
            match spec_parse_header(line) {
                None => None,
                Some(kv) => match spec_parse_headers(s, e + 1) {
                    None => None,
                    Some(rest) => Some(seq![kv] + rest),
                },
            }
        }
    }
}

#[via_fn]
proof fn spec_parse_headers_dec(s: Seq<u8>, pos: int) {
    if 0 <= pos <= s.len() {
        lemma_find_byte(s, 10, pos);
    }
}

/// Parse of a whole request head: the request line, then the header lines.
/// The body is not part of the head and stays unread.
pub open spec fn spec_parse_request(s: Seq<u8>) -> Option<RequestView> {
    let e = find_byte(s, 10, 0);
    match spec_parse_request_line(strip_cr(s.subrange(0, e))) {
        None => None,
        Some((m, path)) => match spec_parse_headers(s, e + 1) {
            None => None,
            Some(hs) => Some(
                RequestView { method: m, path, headers: hs, matches: None, body: None },
            ),
        },
    }
}

/// The line starting at `pos` and the index of the line feed that ends it
/// (or the input length if there is none).
fn line_at(s: &[u8], pos: usize) -> (r: (Vec<u8>, usize))
    requires
        pos <= s@.len(),
    ensures
        r.0@ == spec_line_at(s@, pos as int),
        r.1 == find_byte(s@, 10, pos as int),
{
    let e = scan_byte(s, 10, pos);
    proof {
        lemma_find_byte(s@, 10, pos as int);
    }
    if e > pos && s[e - 1] == 13 {
        let line = copy_range(s, pos, e - 1);
        proof {
            assert(s@.subrange(pos as int, e as int).len() == e - pos);
            assert(s@.subrange(pos as int, e as int)[e - pos - 1] == s@[e - 1]);
            assert(s@.subrange(pos as int, e as int).drop_last() =~= s@.subrange(
                pos as int,
                e - 1,
            ));
        }
        (line, e)
    } else {
        let line = copy_range(s, pos, e);
        (line, e)
    }
}

/// Parse one request line.
fn parse_request_line(line: &[u8]) -> (r: Result<(Method, Vec<u8>), RequestParsingError>)
    ensures
        match r {
            Ok(mp) => spec_parse_request_line(line@) == Some((mp.0, mp.1@)),
            Err(_) => spec_parse_request_line(line@) is None,
        },
{
    let i = scan_byte(line, 32, 0);
    if i >= line.len() {
        return Err(RequestParsingError);
    }
    let mb = copy_range(line, 0, i);
    let m = match Method::from_bytes(mb.as_slice()) {
        Ok(m) => m,
        Err(e) => {
            return Err(e);
        },
    };
    let rest = copy_range(line, i + 1, line.len());
    let j = scan_byte(rest.as_slice(), 32, 0);
    if j >= rest.len() {
        return Err(RequestParsingError);
    }
    let path = copy_range(rest.as_slice(), 0, j);
    let tail = copy_range(rest.as_slice(), j + 1, rest.len());
    let http11 = lit_bytes("HTTP/1.1");
    if bytes_eq(tail.as_slice(), http11.as_slice()) && path.len() >= 1 {
        let c: u8 = path[0];
        if c == 47 {
            return Ok((m, path));
        }
    }
    Err(RequestParsingError)
}

/// Parse one header line.
fn parse_header(line: &[u8]) -> (r: Result<(Vec<u8>, Vec<u8>), RequestParsingError>)
    ensures
        match r {
            Ok(kv) => spec_parse_header(line@) == Some((kv.0@, kv.1@)),
            Err(_) => spec_parse_header(line@) is None,
        },
{
    let i = scan_byte(line, 32, 0);
    if i < 2 || i >= line.len() {
        return Err(RequestParsingError);
    }
    let c: u8 = line[i - 1];
    if c != 58 {
        return Err(RequestParsingError);
    }
    if i + 1 >= line.len() {
        return Err(RequestParsingError);
    }
    let key = copy_range(line, 0, i - 1);
    let value = copy_range(line, i + 1, line.len());
    Ok((key, value))
}

/// Parse a request head into a structured request. The parse follows
/// `spec_parse_request` exactly: an `Ok` is returned for precisely the heads
/// the grammar accepts, and a parse error for all others.
pub fn parse_request(input: &[u8]) -> (r: Result<Request, RequestParsingError>)
    requires
        input@.len() < usize::MAX,
    ensures
        match r {
            Ok(req) => spec_parse_request(input@) == Some(req@),
            Err(_) => spec_parse_request(input@) is None,
        },
{
    let ghost s = input@;
    let (line0, e0) = line_at(input, 0);
    proof {
        lemma_find_byte(s, 10, 0);
    }
    let (method, path) = match parse_request_line(line0.as_slice()) {
        Ok(mp) => mp,
        Err(e) => {
            return Err(e);
        },
    };
    let n: usize = input.len();
    let mut headers: Vec<(Vec<u8>, Vec<u8>)> = Vec::new();
    let mut pos: usize = e0 + 1;
    let ghost pos0 = e0 + 1;
    proof {
        assert(headers.deep_view() =~= Seq::<(Seq<u8>, Seq<u8>)>::empty());
    }
    loop
        invariant
            pos0 == find_byte(s, 10, 0) + 1,
            line0@ == strip_cr(s.subrange(0, find_byte(s, 10, 0))),
            spec_parse_request_line(line0@) == Some((method, path@)),
            pos0 >= 0,
            pos <= n + 1,
            n == s.len() < usize::MAX,
            s == input@,
            spec_parse_headers(s, pos0) == match spec_parse_headers(s, pos as int) {
                None => None::<Seq<(Seq<u8>, Seq<u8>)>>,
                Some(rest) => Some(headers.deep_view() + rest),
            },
        ensures
            spec_parse_headers(s, pos0) == Some(headers.deep_view()),
        decreases n + 1 - pos,
    {
        if pos >= n {
            proof {
                assert(spec_parse_headers(s, pos as int) == Some(
                    Seq::<(Seq<u8>, Seq<u8>)>::empty(),
                ));
                assert(headers.deep_view() + Seq::<(Seq<u8>, Seq<u8>)>::empty()
                    =~= headers.deep_view());
            }
            break ;
        }
        let (line, e2) = line_at(input, pos);
        proof {
            lemma_find_byte(s, 10, pos as int);
        }
        if line.len() == 0 {
            proof {
                assert(spec_parse_headers(s, pos as int) == Some(
                    Seq::<(Seq<u8>, Seq<u8>)>::empty(),
                ));
                assert(headers.deep_view() + Seq::<(Seq<u8>, Seq<u8>)>::empty()
                    =~= headers.deep_view());
            }
            break ;
        }
        let kv = match parse_header(line.as_slice()) {
            Ok(kv) => kv,
            Err(e) => {
                proof {
                    assert(spec_parse_headers(s, pos as int) is None);
                    assert(spec_parse_headers(s, pos0) is None);
                    assert(line0@ == strip_cr(s.subrange(0, find_byte(s, 10, 0))));
                    assert(spec_parse_request_line(strip_cr(s.subrange(0, find_byte(s, 10, 0))))
                        == Some((method, path@)));
                    assert(spec_parse_request(s) is None);
                }
                return Err(e);
            },
        };
        let ghost old_deep = headers.deep_view();
        headers.push(kv);
        proof {
            assert(headers.deep_view() =~= old_deep.push((kv.0@, kv.1@)));
            if spec_parse_headers(s, e2 + 1) is Some {
                let rest = spec_parse_headers(s, e2 + 1).unwrap();
                assert(spec_parse_headers(s, pos as int) == Some(seq![(kv.0@, kv.1@)] + rest));
                assert(old_deep + (seq![(kv.0@, kv.1@)] + rest) =~= old_deep.push((kv.0@, kv.1@))
                    + rest);
            }
        }
        pos = e2 + 1;
    }
    let req = Request { method, path, headers, matches: None, body: None };
    proof {
        let parsed = spec_parse_request(s).unwrap();
        assert(parsed.method == req@.method);
        assert(parsed.path == req@.path);
        assert(parsed.headers == req@.headers);
        assert(parsed.matches == req@.matches);
        assert(parsed.body == req@.body);
    }
    Ok(req)
}


/// One serialized header line: `"<key>: <value>\r\n"`.
pub open spec fn spec_header_line(h: (Seq<u8>, Seq<u8>)) -> Seq<u8> {
    h.0 + ": ".spec_bytes() + h.1 + "\r\n".spec_bytes()
}

/// The serialized header block: each header line, in insertion order.
pub open spec fn spec_header_block(hs: Seq<(Seq<u8>, Seq<u8>)>) -> Seq<u8>
    decreases hs.len(),
{
    if hs.len() == 0 {
        Seq::empty()
    } else {
        spec_header_line(hs[0]) + spec_header_block(hs.drop_first())
    }
}

pub proof fn lemma_header_block_push(hs: Seq<(Seq<u8>, Seq<u8>)>, h: (Seq<u8>, Seq<u8>))
    ensures
        spec_header_block(hs.push(h)) == spec_header_block(hs) + spec_header_line(h),
    decreases hs.len(),
{
    if hs.len() == 0 {
        let e = Seq::<(Seq<u8>, Seq<u8>)>::empty();
        assert(hs.push(h)[0] == h);
        assert(hs.push(h).drop_first() =~= e);
        assert(spec_header_block(e) == Seq::<u8>::empty());
        assert(hs =~= e);
        assert(spec_header_block(hs.push(h)) == spec_header_line(h) + Seq::<u8>::empty());
        assert(spec_header_line(h) + Seq::<u8>::empty() =~= spec_header_line(h));
        assert(spec_header_block(hs) + spec_header_line(h) =~= spec_header_line(h));
    } else {
        lemma_header_block_push(hs.drop_first(), h);
        assert(hs.push(h).drop_first() =~= hs.drop_first().push(h));
        assert(hs.push(h)[0] == hs[0]);
        assert(spec_header_line(hs[0]) + (spec_header_block(hs.drop_first())
            + spec_header_line(h)) =~= (spec_header_line(hs[0]) + spec_header_block(
            hs.drop_first(),
        )) + spec_header_line(h));
    }
}

/// The serialized form of a response: status line, header block, blank line,
/// then the body bytes verbatim if a body is present.
pub open spec fn spec_serialize_response(r: crate::types::ResponseView) -> Seq<u8> {
    "HTTP/1.1 ".spec_bytes() + r.status.spec_text() + "\r\n".spec_bytes() + spec_header_block(
        r.headers,
    ) + "\r\n".spec_bytes() + match r.body {
        Some(b) => b,
        None => Seq::empty(),
    }
}

/// The serialized form of a terminal error status: a status line and a blank
/// line, with no headers and no body.
pub open spec fn spec_serialize_error(st: crate::types::HttpStatus) -> Seq<u8> {
    "HTTP/1.1 ".spec_bytes() + st.spec_text() + "\r\n".spec_bytes() + "\r\n".spec_bytes()
}

/// Serialize a response to bytes, per `spec_serialize_response`.
pub fn serialize_response(resp: &crate::types::Response) -> (r: Vec<u8>)
    ensures
        r@ == spec_serialize_response(resp@),
{
    let ghost hs = resp@.headers;
    let mut out = lit_bytes("HTTP/1.1 ");
    let st = resp.status.text();
    append_bytes(&mut out, st.as_slice());
    let crlf = lit_bytes("\r\n");
    let colon_sp = lit_bytes(": ");
    append_bytes(&mut out, crlf.as_slice());
    let ghost head0 = out@;
    let n: usize = resp.headers.len();
    let mut i: usize = 0;
    proof {
        assert(hs.take(0) =~= Seq::<(Seq<u8>, Seq<u8>)>::empty());
        assert(head0 + spec_header_block(hs.take(0)) =~= head0);
    }
    while i < n
        invariant
            0 <= i <= n == resp.headers@.len(),
            hs == resp@.headers,
            crlf@ == "\r\n".spec_bytes(),
            colon_sp@ == ": ".spec_bytes(),
            out@ == head0 + spec_header_block(hs.take(i as int)),
        decreases n - i,
    {
        append_bytes(&mut out, resp.headers[i].0.as_slice());
        append_bytes(&mut out, colon_sp.as_slice());
        append_bytes(&mut out, resp.headers[i].1.as_slice());
        append_bytes(&mut out, crlf.as_slice());
        proof {
            lemma_header_block_push(hs.take(i as int), hs[i as int]);
            assert(hs.take(i + 1) =~= hs.take(i as int).push(hs[i as int]));
            assert(out@ =~= head0 + spec_header_block(hs.take(i + 1)));
        }
        i = i + 1;
    }
    proof {
        assert(hs.take(n as int) =~= hs);
    }
    append_bytes(&mut out, crlf.as_slice());
    match &resp.body {
        Some(b) => {
            append_bytes(&mut out, b.as_slice());
        },
        None => {
            proof {
                assert(out@ + Seq::<u8>::empty() =~= out@);
            }
        },
    }
    proof {
        assert(out@ =~= spec_serialize_response(resp@));
    }
    out
}

/// Serialize a terminal error status, per `spec_serialize_error`.
pub fn serialize_error(st: crate::types::HttpStatus) -> (r: Vec<u8>)
    ensures
        r@ == spec_serialize_error(st),
{
    let mut out = lit_bytes("HTTP/1.1 ");
    let t = st.text();
    append_bytes(&mut out, t.as_slice());
    let crlf = lit_bytes("\r\n");
    append_bytes(&mut out, crlf.as_slice());
    append_bytes(&mut out, crlf.as_slice());
    proof {
        assert(out@ =~= spec_serialize_error(st));
    }
    out
}


/// Round trip of the body length: a well-formed response carrying a body
/// of length L declares a content-length header whose digits denote exactly
/// L, and serializes to its head followed by precisely those L body bytes.
/// The parser, for its part, never attaches a body to a parsed request: the
/// only body-length information a parsed request offers is its explicit
/// content-length header.
pub proof fn lemma_content_length_round_trip(r: crate::types::ResponseView)
    requires
        r.wf(),
        r.body is Some,
    ensures
        crate::types::spec_get_header(r.headers, "content-length".spec_bytes()) == Some(
            crate::ascii::dec_digits(r.body.unwrap().len()),
        ),
        crate::ascii::dec_value(
            crate::types::spec_get_header(r.headers, "content-length".spec_bytes()).unwrap(),
        ) == r.body.unwrap().len(),
        spec_serialize_response(r) == ("HTTP/1.1 ".spec_bytes() + r.status.spec_text()
            + "\r\n".spec_bytes() + spec_header_block(r.headers) + "\r\n".spec_bytes())
            + r.body.unwrap(),
{
    crate::ascii::lemma_dec_digits_value(r.body.unwrap().len());
}

} // verus!
