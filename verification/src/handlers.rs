//! Handlers and routing: the handler interface, an ordered route table
//! matching (method, path-pattern) pairs against incoming requests, and the
//! built-in demonstration handlers for the pure routes.
//!
//! Routing is first-match: the first registered route whose method equals
//! the request's and whose pattern matches the path wins, and the pattern's
//! capture groups are attached to the request before its handler runs.

use vstd::prelude::*;
use vstd::string::StringExecFns;
use vstd::string::StringSliceAdditionalSpecFns;
use crate::ascii::lit_bytes;
use crate::patterns::{pattern_of, regex_captures, regex_compile, spec_captures, spec_regex_ok};
use crate::types::{
    spec_empty_response, spec_get_header, spec_plain_response, HttpError, HttpStatus, Method,
    Request, RequestView, Response, ResponseView,
};

verus! {

broadcast use crate::views::lemma_bytes_deep_view, crate::views::lemma_caps_deep_view;

/// The environment a handler runs in.
pub struct Context {
    pub working_dir: String,
}

/// A request handler: anything that turns a matched request into a response
/// or a terminal error status. `spec_handle` is the handler's contract;
/// `handle` must return exactly what it describes.
pub trait Handler {
    /// Validity of the handler's own state; what `handle` may assume.
    /// Defaults to true for stateless handlers.
    open spec fn inv(&self) -> bool {
        true
    }

    /// The response the handler computes from context and request. The
    /// default leaves it unspecified; a handler with a proved `handle`
    /// states its own.
    open spec fn spec_handle(&self, ctx: &Context, req: RequestView) -> Result<
        ResponseView,
        HttpError,
    > {
        vstd::pervasive::arbitrary()
    }

    /// Handle one request.
    fn handle(&self, ctx: &Context, req: Request) -> (r: Result<Response, HttpError>)
        requires
            self.inv(),
        ensures
            match r {
                Ok(resp) => self.spec_handle(ctx, req@) == Ok::<ResponseView, HttpError>(resp@),
                Err(e) => self.spec_handle(ctx, req@) == Err::<ResponseView, HttpError>(e),
            },
    ;
}

/// One registered route: a method, a compiled path pattern (kept with its
/// source text), and the handler to run on a match.
pub struct RouteEntry<H: Handler> {
    pub method: Method,
    pub pattern: String,
    pub compiled: regex::bytes::Regex,
    pub handler: H,
}

impl<H: Handler> RouteEntry<H> {
    /// The compiled pattern is the stored pattern text, and the handler is
    /// valid.
    pub open spec fn inv(&self) -> bool {
        &&& pattern_of(self.compiled) == self.pattern@
        &&& self.handler.inv()
    }
}

/// An ordered table of routes. Registration order is significant: dispatch
/// takes the first match, not the best one.
pub struct Router<H: Handler> {
    pub routes: Vec<RouteEntry<H>>,
}

impl<H: Handler> Default for Router<H> {
    /// An empty route table.
    fn default() -> (r: Router<H>)
        ensures
            r.routes@.len() == 0,
            r.wf(),
    {
        Router { routes: Vec::new() }
    }
}

impl<H: Handler> Router<H> {
    /// Every registered route is valid.
    pub open spec fn wf(&self) -> bool {
        forall|i: int| 0 <= i < self.routes@.len() ==> (#[trigger] self.routes@[i]).inv()
    }

    /// Whether route `i` matches the request: same method, and the path
    /// pattern matches the path.
    pub open spec fn spec_matches_at(&self, i: int, method: Method, path: Seq<u8>) -> bool {
        &&& self.routes@[i].method == method
        &&& spec_captures(self.routes@[i].pattern@, path) is Some
    }

    pub open spec fn spec_first_match_from(&self, method: Method, path: Seq<u8>, i: int) -> Option<
        int,
    >
        decreases self.routes@.len() - i,
    {
        if i < 0 || i >= self.routes@.len() {
            None
        } else if self.spec_matches_at(i, method, path) {
            Some(i)
        } else {
            self.spec_first_match_from(method, path, i + 1)
        }
    }

    /// Index of the first registered route that matches, if any.
    pub open spec fn spec_first_match(&self, method: Method, path: Seq<u8>) -> Option<int> {
        self.spec_first_match_from(method, path, 0)
    }

    /// What dispatch returns: the first matching route's handler result on
    /// the request with that pattern's capture groups attached, or NotFound
    /// when no route matches.
    pub open spec fn spec_dispatch(&self, ctx: &Context, req: RequestView) -> Result<
        ResponseView,
        HttpError,
    > {
        match self.spec_first_match(req.method, req.path) {
            None => Err(HttpError(HttpStatus::NotFound)),
            Some(i) => self.routes@[i].handler.spec_handle(
                ctx,
                RequestView {
                    matches: Some(spec_captures(self.routes@[i].pattern@, req.path).unwrap()),
                    ..req
                },
            ),
        }
    }

    /// A first match is stable under skipping a non-matching prefix.
    pub proof fn lemma_first_match_prefix(&self, method: Method, path: Seq<u8>, i: int)
        requires
            0 <= i <= self.routes@.len(),
            forall|j: int| 0 <= j < i ==> !(#[trigger] self.spec_matches_at(j, method, path)),
        ensures
            self.spec_first_match(method, path) == self.spec_first_match_from(method, path, i),
        decreases i,
    {
        if i > 0 {
            self.lemma_first_match_prefix(method, path, i - 1);
            assert(!self.spec_matches_at(i - 1, method, path));
        }
    }

    /// Register a handler for a method and a path pattern. The pattern must
    /// be one the regex engine accepts; `try_route` checks instead.
    pub fn route(self, method: Method, pat: &str, handler: H) -> (r: Router<H>)
        requires
            spec_regex_ok(pat@),
            handler.inv(),
            self.wf(),
        ensures
            r.wf(),
            r.routes@.len() == self.routes@.len() + 1,
            forall|i: int| 0 <= i < self.routes@.len() ==> r.routes@[i] == self.routes@[i],
            r.routes@[self.routes@.len() as int].method == method,
            r.routes@[self.routes@.len() as int].pattern@ == pat@,
            r.routes@[self.routes@.len() as int].handler == handler,
    {
        let compiled = match regex_compile(pat) {
            Some(c) => c,
            None => vstd::pervasive::unreached(),
        };
        let pattern = String::from_str(pat);
        let mut routes = self.routes;
        routes.push(RouteEntry { method, pattern, compiled, handler });
        Router { routes }
    }

    /// Register a handler if the pattern compiles; an invalid pattern
    /// leaves the table unchanged and reports `false`.
    pub fn try_route(self, method: Method, pat: &str, handler: H) -> (r: (Router<H>, bool))
        requires
            handler.inv(),
            self.wf(),
        ensures
            r.0.wf(),
            r.1 == spec_regex_ok(pat@),
            r.1 ==> r.0.routes@.len() == self.routes@.len() + 1 && (forall|i: int|
                0 <= i < self.routes@.len() ==> r.0.routes@[i] == self.routes@[i])
                && r.0.routes@[self.routes@.len() as int].method == method
                && r.0.routes@[self.routes@.len() as int].pattern@ == pat@
                && r.0.routes@[self.routes@.len() as int].handler == handler,
            !r.1 ==> r.0.routes@ == self.routes@,
    {
        match regex_compile(pat) {
            Some(_) => {
                let r = self.route(method, pat, handler);
                (r, true)
            },
            None => (self, false),
        }
    }
}

impl<H: Handler> Handler for Router<H> {
    open spec fn inv(&self) -> bool {
        self.wf()
    }

    open spec fn spec_handle(&self, ctx: &Context, req: RequestView) -> Result<
        ResponseView,
        HttpError,
    > {
        self.spec_dispatch(ctx, req)
    }

    /// Dispatch: find the first matching route, attach its capture groups,
    /// and run its handler; NotFound when no route matches.
    fn handle(&self, ctx: &Context, req: Request) -> (r: Result<Response, HttpError>) {
        let ghost reqv = req@;
        let n: usize = self.routes.len();
        let mut i: usize = 0;
        while i < n
            invariant
                0 <= i <= n == self.routes@.len(),
                self.wf(),
                req@ == reqv,
                forall|j: int|
                    0 <= j < i ==> !(#[trigger] self.spec_matches_at(j, reqv.method, reqv.path)),
            decreases n - i,
        {
            let entry = &self.routes[i];
            if entry.method == req.method {
                match regex_captures(&entry.compiled, req.path.as_slice()) {
                    Some(caps) => {
                        proof {
                            assert(self.routes@[i as int].inv());
                            assert(self.spec_matches_at(i as int, reqv.method, reqv.path));
                            self.lemma_first_match_prefix(reqv.method, reqv.path, i as int);
                            assert(self.spec_first_match(reqv.method, reqv.path) == Some(
                                i as int,
                            ));
                            assert(caps.deep_view() == spec_captures(
                                self.routes@[i as int].pattern@,
                                reqv.path,
                            ).unwrap());
                        }
                        let req2 = req.with_matches(caps);
                        proof {
                            assert(req2@ =~= (RequestView {
                                matches: Some(
                                    spec_captures(
                                        self.routes@[i as int].pattern@,
                                        reqv.path,
                                    ).unwrap(),
                                ),
                                ..reqv
                            }));
                        }
                        return entry.handler.handle(ctx, req2);
                    },
                    None => {
                        proof {
                            assert(self.routes@[i as int].inv());
                            assert(!self.spec_matches_at(i as int, reqv.method, reqv.path));
                        }
                    },
                }
            } else {
                proof {
                    assert(!self.spec_matches_at(i as int, reqv.method, reqv.path));
                }
            }
            i = i + 1;
        }
        proof {
            self.lemma_first_match_prefix(reqv.method, reqv.path, n as int);
            assert(self.spec_first_match(reqv.method, reqv.path) is None);
        }
        Err(HttpError(HttpStatus::NotFound))
    }
}

/// For any route table, context and request: if route `i` is the first one
/// that matches the request's method and path, dispatch returns exactly that
/// handler's result on the request with the pattern's own capture groups
/// attached.
pub proof fn lemma_dispatch_first_match<H: Handler>(
    r: &Router<H>,
    ctx: &Context,
    req: RequestView,
    i: int,
)
    requires
        0 <= i < r.routes@.len(),
        r.spec_matches_at(i, req.method, req.path),
        forall|j: int| 0 <= j < i ==> !(#[trigger] r.spec_matches_at(j, req.method, req.path)),
    ensures
        r.spec_dispatch(ctx, req) == r.routes@[i].handler.spec_handle(
            ctx,
            RequestView {
                matches: Some(spec_captures(r.routes@[i].pattern@, req.path).unwrap()),
                ..req
            },
        ),
{
    r.lemma_first_match_prefix(req.method, req.path, i);
}

/// For any route table, context and request: if no route matches the
/// request's method and path, dispatch returns NotFound.
pub proof fn lemma_dispatch_not_found<H: Handler>(r: &Router<H>, ctx: &Context, req: RequestView)
    requires
        forall|j: int|
            0 <= j < r.routes@.len() ==> !(#[trigger] r.spec_matches_at(
                j,
                req.method,
                req.path,
            )),
    ensures
        r.spec_dispatch(ctx, req) == Err::<ResponseView, HttpError>(
            HttpError(HttpStatus::NotFound),
        ),
{
    r.lemma_first_match_prefix(req.method, req.path, r.routes@.len() as int);
}

/// The built-in demonstration handlers for the routes that are pure
/// computations on the request.
pub enum DemoHandler {
    /// An empty 200 response.
    Root,
    /// Echo the first capture group of the path as plain text.
    Echo,
    /// Echo the user-agent header as plain text; BadRequest without one.
    UserAgent,
    /// Fail with the given terminal status.
    Error(HttpStatus),
}

impl Handler for DemoHandler {
    open spec fn inv(&self) -> bool {
        true
    }

    open spec fn spec_handle(&self, ctx: &Context, req: RequestView) -> Result<
        ResponseView,
        HttpError,
    > {
        match self {
            DemoHandler::Root => Ok(spec_empty_response(HttpStatus::OK)),
            DemoHandler::Echo => match req.matches {
                Some(ms) => if ms.len() > 1 && ms[1] is Some {
                    Ok(spec_plain_response(ms[1].unwrap()))
                } else {
                    Err(HttpError(HttpStatus::ServerError))
                },
                None => Err(HttpError(HttpStatus::ServerError)),
            },
            DemoHandler::UserAgent => match spec_get_header(
                req.headers,
                "user-agent".spec_bytes(),
            ) {
                Some(v) => Ok(spec_plain_response(v)),
                None => Err(HttpError(HttpStatus::BadRequest)),
            },
            DemoHandler::Error(st) => Err(HttpError(*st)),
        }
    }

    fn handle(&self, ctx: &Context, req: Request) -> (r: Result<Response, HttpError>) {
        match self {
            DemoHandler::Root => Ok(Response::empty()),
            DemoHandler::Echo => {
                match req.matches {
                    Some(ms) => {
                        if ms.len() > 1 {
                            match &ms[1] {
                                Some(seg) => {
                                    let data = seg.clone();
                                    proof {
                                        assert(data@ =~= seg@);
                                    }
                                    Ok(Response::plain_bytes(data))
                                },
                                None => Err(HttpError(HttpStatus::ServerError)),
                            }
                        } else {
                            Err(HttpError(HttpStatus::ServerError))
                        }
                    },
                    None => Err(HttpError(HttpStatus::ServerError)),
                }
            },
            DemoHandler::UserAgent => {
                let key = lit_bytes("user-agent");
                match req.get_header(key.as_slice()) {
                    Some(v) => {
                        let data = v.clone();
                        proof {
                            assert(data@ =~= v@);
                        }
                        Ok(Response::plain_bytes(data))
                    },
                    None => Err(HttpError(HttpStatus::BadRequest)),
                }
            },
            DemoHandler::Error(st) => Err(HttpError(*st)),
        }
    }
}

/// The demonstration route table: the pure routes of the bundled server,
/// in registration order. A pattern the engine rejects is skipped; when the
/// engine accepts all five patterns — which it does — the table holds
/// exactly the five routes, in order.
pub fn demo_router() -> (r: Router<DemoHandler>)
    ensures
        r.wf(),
        r.routes@.len() <= 5,
        spec_regex_ok("^/$"@) && spec_regex_ok("^/echo/([^/]+)$"@) && spec_regex_ok(
            "^/user-agent$"@,
        ) && spec_regex_ok("^/test-post"@) ==> {
            &&& r.routes@.len() == 5
            &&& r.routes@[0].method == Method::Get
            &&& r.routes@[0].pattern@ == "^/$"@
            &&& r.routes@[0].handler == DemoHandler::Root
            &&& r.routes@[1].method == Method::Get
            &&& r.routes@[1].pattern@ == "^/echo/([^/]+)$"@
            &&& r.routes@[1].handler == DemoHandler::Echo
            &&& r.routes@[2].method == Method::Get
            &&& r.routes@[2].pattern@ == "^/user-agent$"@
            &&& r.routes@[2].handler == DemoHandler::UserAgent
            &&& r.routes@[3].method == Method::Get
            &&& r.routes@[3].pattern@ == "^/test-post"@
            &&& r.routes@[3].handler == DemoHandler::Error(HttpStatus::BadRequest)
            &&& r.routes@[4].method == Method::Post
            &&& r.routes@[4].pattern@ == "^/test-post"@
            &&& r.routes@[4].handler == DemoHandler::Root
        },
{
    let r = Router::default();
    let (r, _) = r.try_route(Method::Get, "^/$", DemoHandler::Root);
    let (r, _) = r.try_route(Method::Get, "^/echo/([^/]+)$", DemoHandler::Echo);
    let (r, _) = r.try_route(Method::Get, "^/user-agent$", DemoHandler::UserAgent);
    let (r, _) = r.try_route(
        Method::Get,
        "^/test-post",
        DemoHandler::Error(HttpStatus::BadRequest),
    );
    let (r, _) = r.try_route(Method::Post, "^/test-post", DemoHandler::Root);
    r
}

} // verus!
