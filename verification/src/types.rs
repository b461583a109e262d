//! Core data model of the server: request methods, status codes, errors, and
//! the request/response structures exchanged between codec, router and
//! middleware. Requests and responses carry their wire data as bytes; header
//! lookup is ASCII-case-insensitive on keys and keeps insertion order, with
//! the first matching entry winning.

use vstd::prelude::*;
use vstd::string::StringSliceAdditionalSpecFns;
use vstd::pervasive::VecAdditionalExecFns;
use crate::ascii::{bytes_eq, bytes_eq_ignore_case, dec_digits, lit_bytes, lower_seq, u64_to_dec};

verus! {

broadcast use crate::views::lemma_bytes_deep_view, crate::views::lemma_header_list_deep_view, crate::views::lemma_caps_deep_view;

/// Error for a malformed or incomplete request line or header line.
#[derive(Debug, PartialEq, Eq, Structural)]
pub struct RequestParsingError;

/// An HTTP request method. The recognized set is closed.
#[derive(Clone, Copy, Debug, PartialEq, Eq, Structural)]
pub enum Method {
    Get,
    Post,
}

impl Method {
    /// The wire spelling of the method, as bytes.
    pub open spec fn spec_text(self) -> Seq<u8> {
        match self {
            Method::Get => "GET".spec_bytes(),
            Method::Post => "POST".spec_bytes(),
        }
    }

    /// Recognize a method from its wire spelling.
    pub open spec fn spec_from_bytes(b: Seq<u8>) -> Option<Method> {
        if b == "GET".spec_bytes() {
            Some(Method::Get)
        } else if b == "POST".spec_bytes() {
            Some(Method::Post)
        } else {
            None
        }
    }

    /// The wire spelling of the method.
    pub fn text(&self) -> (r: Vec<u8>)
        ensures
            r@ == self.spec_text(),
    {
        match self {
            Method::Get => lit_bytes("GET"),
            Method::Post => lit_bytes("POST"),
        }
    }

    /// Parse a method from its wire spelling; anything outside the
    /// recognized set is a parse error.
    pub fn from_bytes(b: &[u8]) -> (r: Result<Method, RequestParsingError>)
        ensures
            match r {
                Ok(m) => Method::spec_from_bytes(b@) == Some(m),
                Err(_) => Method::spec_from_bytes(b@) is None,
            },
    {
        let get = lit_bytes("GET");
        let post = lit_bytes("POST");
        if bytes_eq(b, get.as_slice()) {
            Ok(Method::Get)
        } else if bytes_eq(b, post.as_slice()) {
            Ok(Method::Post)
        } else {
            Err(RequestParsingError)
        }
    }
}

/// An HTTP response status. The set is closed.
#[derive(Clone, Copy, Debug, PartialEq, Eq, Structural)]
pub enum HttpStatus {
    OK,
    Created,
    NotFound,
    BadRequest,
    ServerError,
}

impl HttpStatus {
    /// The status line text for this status, as written on the wire.
    pub open spec fn spec_text(self) -> Seq<u8> {
        match self {
            HttpStatus::OK => "200 OK".spec_bytes(),
            HttpStatus::Created => "201 Created".spec_bytes(),
            HttpStatus::NotFound => "404 Not Found".spec_bytes(),
            HttpStatus::BadRequest => "400 Bad Request".spec_bytes(),
            HttpStatus::ServerError => "500 Internal Server Error".spec_bytes(),
        }
    }

    /// The status line text for this status.
    pub fn text(&self) -> (r: Vec<u8>)
        ensures
            r@ == self.spec_text(),
    {
        match self {
            HttpStatus::OK => lit_bytes("200 OK"),
            HttpStatus::Created => lit_bytes("201 Created"),
            HttpStatus::NotFound => lit_bytes("404 Not Found"),
            HttpStatus::BadRequest => lit_bytes("400 Bad Request"),
            HttpStatus::ServerError => lit_bytes("500 Internal Server Error"),
        }
    }
}

/// A terminal error status returned by a handler instead of a response.
#[derive(Clone, Copy, Debug, PartialEq, Eq, Structural)]
pub struct HttpError(pub HttpStatus);

impl From<HttpStatus> for HttpError {
    fn from(value: HttpStatus) -> (r: HttpError) {
        HttpError(value)
    }
}

impl vstd::std_specs::convert::FromSpecImpl<HttpStatus> for HttpError {
    open spec fn obeys_from_spec() -> bool {
        true
    }

    open spec fn from_spec(value: HttpStatus) -> HttpError {
        HttpError(value)
    }
}

/// First-match, case-insensitive header lookup over an ordered header list.
pub open spec fn spec_get_header(hs: Seq<(Seq<u8>, Seq<u8>)>, key: Seq<u8>) -> Option<Seq<u8>>
    decreases hs.len(),
{
    if hs.len() == 0 {
        None
    } else if lower_seq(hs[0].0) == lower_seq(key) {
        Some(hs[0].1)
    } else {
        spec_get_header(hs.drop_first(), key)
    }
}

/// Insert-or-overwrite on an ordered header list: the first entry whose key
/// matches case-insensitively is overwritten (its original key casing kept),
/// otherwise the pair is appended.
pub open spec fn spec_set_header(
    hs: Seq<(Seq<u8>, Seq<u8>)>,
    key: Seq<u8>,
    val: Seq<u8>,
) -> Seq<(Seq<u8>, Seq<u8>)>
    decreases hs.len(),
{
    if hs.len() == 0 {
        seq![(key, val)]
    } else if lower_seq(hs[0].0) == lower_seq(key) {
        seq![(hs[0].0, val)] + hs.drop_first()
    } else {
        seq![hs[0]] + spec_set_header(hs.drop_first(), key, val)
    }
}

pub proof fn lemma_get_header_skip(hs: Seq<(Seq<u8>, Seq<u8>)>, key: Seq<u8>, i: int)
    requires
        0 <= i <= hs.len(),
        forall|j: int| 0 <= j < i ==> lower_seq(#[trigger] hs[j].0) != lower_seq(key),
    ensures
        spec_get_header(hs, key) == spec_get_header(hs.skip(i), key),
    decreases i,
{
    if i == 0 {
        assert(hs.skip(0) =~= hs);
    } else {
        lemma_get_header_skip(hs, key, i - 1);
        assert(lower_seq(hs[i - 1].0) != lower_seq(key));
        assert(hs.skip(i - 1).len() > 0);
        assert(hs.skip(i - 1)[0] == hs[i - 1]);
        assert(hs.skip(i - 1).drop_first() =~= hs.skip(i));
        assert(spec_get_header(hs.skip(i - 1), key) == spec_get_header(
            hs.skip(i - 1).drop_first(),
            key,
        ));
    }
}

pub proof fn lemma_set_header_update(
    hs: Seq<(Seq<u8>, Seq<u8>)>,
    key: Seq<u8>,
    val: Seq<u8>,
    i: int,
)
    requires
        0 <= i < hs.len(),
        lower_seq(hs[i].0) == lower_seq(key),
        forall|j: int| 0 <= j < i ==> lower_seq(#[trigger] hs[j].0) != lower_seq(key),
    ensures
        spec_set_header(hs, key, val) =~= hs.update(i, (hs[i].0, val)),
    decreases i,
{
    if i == 0 {
        assert(seq![(hs[0].0, val)] + hs.drop_first() =~= hs.update(0, (hs[0].0, val)));
    } else {
        lemma_set_header_update(hs.drop_first(), key, val, i - 1);
        assert(hs.drop_first().update(i - 1, (hs[i].0, val)) =~= hs.update(
            i,
            (hs[i].0, val),
        ).drop_first());
        assert(seq![hs[0]] + hs.drop_first().update(i - 1, (hs[i].0, val)) =~= hs.update(
            i,
            (hs[i].0, val),
        ));
    }
}

pub proof fn lemma_set_header_append(hs: Seq<(Seq<u8>, Seq<u8>)>, key: Seq<u8>, val: Seq<u8>)
    requires
        forall|j: int| 0 <= j < hs.len() ==> lower_seq(#[trigger] hs[j].0) != lower_seq(key),
    ensures
        spec_set_header(hs, key, val) =~= hs.push((key, val)),
    decreases hs.len(),
{
    if hs.len() > 0 {
        lemma_set_header_append(hs.drop_first(), key, val);
        assert(seq![hs[0]] + hs.drop_first().push((key, val)) =~= hs.push((key, val)));
    }
}

/// Looking up the key just set finds exactly the new value.
pub proof fn lemma_get_set_header_same(hs: Seq<(Seq<u8>, Seq<u8>)>, key: Seq<u8>, val: Seq<u8>)
    ensures
        spec_get_header(spec_set_header(hs, key, val), key) == Some(val),
    decreases hs.len(),
{
    if hs.len() == 0 {
        let s = seq![(key, val)];
        assert(s[0] == (key, val));
    } else if lower_seq(hs[0].0) == lower_seq(key) {
        let s = seq![(hs[0].0, val)] + hs.drop_first();
        assert(s[0] == (hs[0].0, val));
    } else {
        lemma_get_set_header_same(hs.drop_first(), key, val);
        let s = seq![hs[0]] + spec_set_header(hs.drop_first(), key, val);
        assert(s[0] == hs[0]);
        assert(s.drop_first() =~= spec_set_header(hs.drop_first(), key, val));
    }
}

/// Setting one key leaves lookups of any other key unchanged.
pub proof fn lemma_get_set_header_other(
    hs: Seq<(Seq<u8>, Seq<u8>)>,
    key: Seq<u8>,
    val: Seq<u8>,
    other: Seq<u8>,
)
    requires
        lower_seq(other) != lower_seq(key),
    ensures
        spec_get_header(spec_set_header(hs, key, val), other) == spec_get_header(hs, other),
    decreases hs.len(),
{
    if hs.len() == 0 {
        let s = seq![(key, val)];
        assert(s[0] == (key, val));
        assert(s.drop_first() =~= Seq::<(Seq<u8>, Seq<u8>)>::empty());
        assert(spec_get_header(Seq::<(Seq<u8>, Seq<u8>)>::empty(), other) is None);
        assert(spec_get_header(s, other) == spec_get_header(s.drop_first(), other));
    } else if lower_seq(hs[0].0) == lower_seq(key) {
        let s = seq![(hs[0].0, val)] + hs.drop_first();
        assert(s[0] == (hs[0].0, val));
        assert(s.drop_first() =~= hs.drop_first());
    } else {
        lemma_get_set_header_other(hs.drop_first(), key, val, other);
        let s = seq![hs[0]] + spec_set_header(hs.drop_first(), key, val);
        assert(s[0] == hs[0]);
        assert(s.drop_first() =~= spec_set_header(hs.drop_first(), key, val));
    }
}

/// The mathematical model of a request.
#[verifier::ext_equal]
pub struct RequestView {
    pub method: Method,
    pub path: Seq<u8>,
    pub headers: Seq<(Seq<u8>, Seq<u8>)>,
    pub matches: Option<Seq<Option<Seq<u8>>>>,
    pub body: Option<Seq<u8>>,
}

/// One parsed request: method, path (not percent-decoded), ordered header
/// list, route-pattern capture groups attached during routing, and an
/// optional buffered body.
#[derive(Debug)]
pub struct Request {
    pub method: Method,
    pub path: Vec<u8>,
    pub matches: Option<Vec<Option<Vec<u8>>>>,
    pub headers: Vec<(Vec<u8>, Vec<u8>)>,
    pub body: Option<Vec<u8>>,
}

impl View for Request {
    type V = RequestView;

    open spec fn view(&self) -> RequestView {
        RequestView {
            method: self.method,
            path: self.path@,
            headers: self.headers.deep_view(),
            matches: self.matches.deep_view(),
            body: self.body.deep_view(),
        }
    }
}

impl Request {
    /// The same request with capture groups attached.
    pub fn with_matches(self, matches: Vec<Option<Vec<u8>>>) -> (r: Request)
        ensures
            r@ == (RequestView { matches: Some(matches.deep_view()), ..self@ }),
    {
        let mut r = self;
        r.matches = Some(matches);
        r
    }

    /// The same request with a buffered body attached.
    pub fn with_body(self, body: Vec<u8>) -> (r: Request)
        ensures
            r@ == (RequestView { body: Some(body@), ..self@ }),
    {
        let mut r = self;
        r.body = Some(body);
        proof {
            assert(r.body.deep_view() =~= Some(body@));
        }
        r
    }

    /// Case-insensitive lookup of the first header with the given key.
    pub fn get_header(&self, key: &[u8]) -> (r: Option<&Vec<u8>>)
        ensures
            match r {
                Some(v) => spec_get_header(self@.headers, key@) == Some(v@),
                None => spec_get_header(self@.headers, key@) is None,
            },
    {
        header_lookup(&self.headers, key)
    }
}

/// Case-insensitive first-match lookup in an ordered header list.
pub(crate) fn header_lookup<'a>(headers: &'a Vec<(Vec<u8>, Vec<u8>)>, key: &[u8]) -> (r: Option<
    &'a Vec<u8>,
>)
    ensures
        match r {
            Some(v) => spec_get_header(headers.deep_view(), key@) == Some(v@),
            None => spec_get_header(headers.deep_view(), key@) is None,
        },
{
    let ghost hs = headers.deep_view();
    let n: usize = headers.len();
    let mut i: usize = 0;
    while i < n
        invariant
            0 <= i <= n == headers@.len(),
            hs == headers.deep_view(),
            forall|j: int| 0 <= j < i ==> lower_seq(#[trigger] hs[j].0) != lower_seq(key@),
        decreases n - i,
    {
        if bytes_eq_ignore_case(headers[i].0.as_slice(), key) {
            proof {
                lemma_get_header_skip(hs, key@, i as int);
                assert(hs.skip(i as int)[0] == hs[i as int]);
            }
            return Some(&headers[i].1);
        }
        i = i + 1;
    }
    proof {
        lemma_get_header_skip(hs, key@, n as int);
        assert(hs.skip(n as int).len() == 0);
    }
    None
}

/// The mathematical model of a response.
#[verifier::ext_equal]
pub struct ResponseView {
    pub status: HttpStatus,
    pub headers: Seq<(Seq<u8>, Seq<u8>)>,
    pub body: Option<Seq<u8>>,
}

impl ResponseView {
    /// A response is well formed when a present body is announced by a
    /// content-length header that equals the body's exact length. A response
    /// without a body makes no such claim.
    pub open spec fn wf(self) -> bool {
        match self.body {
            Some(b) => spec_get_header(self.headers, "content-length".spec_bytes()) == Some(
                dec_digits(b.len()),
            ),
            None => true,
        }
    }
}

/// A response with the given status and neither headers nor body.
pub open spec fn spec_empty_response(st: HttpStatus) -> ResponseView {
    ResponseView { status: st, headers: Seq::empty(), body: None }
}

/// A 200 response with body `b`, content-length set to the exact body
/// length, and content-type `text/plain`.
pub open spec fn spec_plain_response(b: Seq<u8>) -> ResponseView {
    ResponseView {
        status: HttpStatus::OK,
        headers: seq![
            ("content-length".spec_bytes(), dec_digits(b.len())),
            ("content-type".spec_bytes(), "text/plain".spec_bytes()),
        ],
        body: Some(b),
    }
}

/// A 200 response with body `b`, content-length set to the exact body
/// length, and content-type `application/octet-stream`.
pub open spec fn spec_binary_response(b: Seq<u8>) -> ResponseView {
    ResponseView {
        status: HttpStatus::OK,
        headers: seq![
            ("content-length".spec_bytes(), dec_digits(b.len())),
            ("content-type".spec_bytes(), "application/octet-stream".spec_bytes()),
        ],
        body: Some(b),
    }
}

/// One response: status, ordered header list with insert-or-overwrite
/// semantics, and an optional body with its bytes fully buffered.
#[derive(Debug)]
pub struct Response {
    pub status: HttpStatus,
    pub headers: Vec<(Vec<u8>, Vec<u8>)>,
    pub body: Option<Vec<u8>>,
}

impl View for Response {
    type V = ResponseView;

    open spec fn view(&self) -> ResponseView {
        ResponseView {
            status: self.status,
            headers: self.headers.deep_view(),
            body: self.body.deep_view(),
        }
    }
}

impl Response {
    /// The ordered header list.
    pub fn headers(&self) -> (r: &Vec<(Vec<u8>, Vec<u8>)>)
        ensures
            r.deep_view() == self@.headers,
    {
        &self.headers
    }

    /// Case-insensitive lookup of the first header with the given key.
    pub fn get_header(&self, key: &[u8]) -> (r: Option<&Vec<u8>>)
        ensures
            match r {
                Some(v) => spec_get_header(self@.headers, key@) == Some(v@),
                None => spec_get_header(self@.headers, key@) is None,
            },
    {
        header_lookup(&self.headers, key)
    }

    /// Overwrite the first header whose key matches case-insensitively, or
    /// append the pair if none does.
    pub fn set_header(&mut self, new_k: Vec<u8>, new_v: Vec<u8>)
        ensures
            final(self)@.headers == spec_set_header(old(self)@.headers, new_k@, new_v@),
            final(self)@.status == old(self)@.status,
            final(self)@.body == old(self)@.body,
    {
        let ghost hs = old(self)@.headers;
        let n: usize = self.headers.len();
        let mut i: usize = 0;
        while i < n
            invariant
                0 <= i <= n == self.headers@.len(),
                hs == self.headers.deep_view(),
                self@.status == old(self)@.status,
                self@.body == old(self)@.body,
                self.headers == old(self).headers,
                forall|j: int| 0 <= j < i ==> lower_seq(#[trigger] hs[j].0) != lower_seq(new_k@),
            decreases n - i,
        {
            if bytes_eq_ignore_case(self.headers[i].0.as_slice(), new_k.as_slice()) {
                let k_old = self.headers[i].0.clone();
                proof {
                    assert(k_old@ =~= hs[i as int].0);
                }
                self.headers.set(i, (k_old, new_v));
                proof {
                    lemma_set_header_update(hs, new_k@, new_v@, i as int);
                    assert(self.headers.deep_view() =~= hs.update(
                        i as int,
                        (hs[i as int].0, new_v@),
                    ));
                }
                return ;
            }
            i = i + 1;
        }
        self.headers.push((new_k, new_v));
        proof {
            lemma_set_header_append(hs, new_k@, new_v@);
            assert(self.headers.deep_view() =~= hs.push((new_k@, new_v@)));
        }
    }

    /// An empty 200 response: no headers, no body.
    pub fn empty() -> (r: Response)
        ensures
            r@ == spec_empty_response(HttpStatus::OK),
            r@.wf(),
    {
        let r = Response { status: HttpStatus::OK, body: None, headers: Vec::new() };
        proof {
            assert(r@ =~= spec_empty_response(HttpStatus::OK));
        }
        r
    }

    /// An empty 201 response: no headers, no body.
    pub fn created() -> (r: Response)
        ensures
            r@ == spec_empty_response(HttpStatus::Created),
            r@.wf(),
    {
        let r = Response { status: HttpStatus::Created, body: None, headers: Vec::new() };
        proof {
            assert(r@ =~= spec_empty_response(HttpStatus::Created));
        }
        r
    }

    /// A 200 response carrying `data` as an octet-stream body, with the
    /// content-length header set to the exact body length.
    pub fn binary(data: Vec<u8>) -> (r: Response)
        ensures
            r@ == spec_binary_response(data@),
            r@.wf(),
    {
        let len64: u64 = data.len() as u64;
        let mut headers: Vec<(Vec<u8>, Vec<u8>)> = Vec::new();
        headers.push((lit_bytes("content-length"), u64_to_dec(len64)));
        headers.push((lit_bytes("content-type"), lit_bytes("application/octet-stream")));
        let r = Response { status: HttpStatus::OK, body: Some(data), headers };
        proof {
            assert(r@ =~= spec_binary_response(r@.body.unwrap()));
            assert(spec_get_header(r@.headers, "content-length".spec_bytes()) == Some(
                dec_digits(len64 as nat),
            ));
        }
        r
    }

    /// A 200 response carrying `text` as a plain-text body, with the
    /// content-length header set to the exact body length in bytes.
    pub fn plain_text(text: String) -> (r: Response)
        ensures
            r@ == spec_plain_response(vstd::utf8::encode_utf8(text@)),
            r@.wf(),
    {
        let data = lit_bytes(text.as_str());
        Response::plain_bytes(data)
    }

    /// A 200 response carrying `data` as a plain-text body, with the
    /// content-length header set to the exact body length.
    pub fn plain_bytes(data: Vec<u8>) -> (r: Response)
        ensures
            r@ == spec_plain_response(data@),
            r@.wf(),
    {
        let len64: u64 = data.len() as u64;
        let mut headers: Vec<(Vec<u8>, Vec<u8>)> = Vec::new();
        headers.push((lit_bytes("content-length"), u64_to_dec(len64)));
        headers.push((lit_bytes("content-type"), lit_bytes("text/plain")));
        let r = Response { status: HttpStatus::OK, body: Some(data), headers };
        proof {
            assert(r@ =~= spec_plain_response(r@.body.unwrap()));
            assert(spec_get_header(r@.headers, "content-length".spec_bytes()) == Some(
                dec_digits(len64 as nat),
            ));
        }
        r
    }
}

} // verus!
