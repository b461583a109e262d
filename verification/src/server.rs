//! Server core: the middleware interface, the per-connection pipeline from
//! request-head bytes to response bytes, the server configuration, and the
//! lifecycle state machine that the accept loop follows.
//!
//! The pipeline runs in strict order: parse, create middleware instances,
//! before-hooks, dispatch, after-hooks on success, serialize. A malformed
//! head is answered with a Bad Request error response; a failing hook aborts
//! the connection without a response.

use vstd::prelude::*;
use vstd::string::StringExecFns;
use crate::codec::{
    parse_request, serialize_error, serialize_response, spec_parse_request, spec_serialize_error,
    spec_serialize_response,
};
use crate::compression::CompressionFactory;
use crate::handlers::{Context, Handler};
use crate::types::{HttpError, HttpStatus, Request, RequestView, Response, ResponseView};

verus! {

/// Error raised by a failing middleware hook; wraps the cause's message.
#[derive(Debug)]
pub struct MiddlewareError(pub String);

/// A per-request middleware instance: a hook run on the request before
/// dispatch and a hook run on the response after a successful dispatch.
///
/// The hooks' effects are stated as relations: `before_ok` and `after_ok`
/// tie the value a hook was given to the value it leaves behind, and the
/// failure predicates say exactly when a hook reports an error.
pub trait Middleware {
    /// Validity of the instance's own state.
    spec fn inv(&self) -> bool;

    /// Whether the before hook fails on this request.
    spec fn before_fails(&self, req: RequestView) -> bool;

    /// Whether the after hook fails on this response.
    spec fn after_fails(&self, resp: ResponseView) -> bool;

    /// The relation the before hook establishes between the request it was
    /// given and the request it leaves behind.
    spec fn before_ok(&self, old_req: RequestView, new_req: RequestView) -> bool;

    /// The relation the after hook establishes between the response it was
    /// given and the response it leaves behind.
    spec fn after_ok(&self, old_resp: ResponseView, new_resp: ResponseView) -> bool;

    /// Run the before hook on the request. A before hook may adjust the
    /// request's headers and metadata but never touches the body, which it
    /// does not own.
    fn apply_before(&self, req: &mut Request) -> (r: Result<(), MiddlewareError>)
        requires
            self.inv(),
        ensures
            r is Ok <==> !self.before_fails(old(req)@),
            r is Ok ==> self.before_ok(old(req)@, final(req)@),
            final(req)@.body == old(req)@.body,
    ;

    /// Run the after hook on the response.
    fn apply_after(&self, resp: &mut Response) -> (r: Result<(), MiddlewareError>)
        requires
            self.inv(),
        ensures
            r is Ok <==> !self.after_fails(old(resp)@),
            r is Ok ==> self.after_ok(old(resp)@, final(resp)@),
    ;
}

/// A middleware factory: inspects a request and decides whether to create
/// an instance for it. The inspection is pure: which instance (if any) is
/// created is a function of the request alone.
pub trait MiddlewareFactory {
    type Mw: Middleware;

    /// Validity of the factory's own state.
    spec fn inv(&self) -> bool;

    /// The instance this factory creates for a request, if any.
    spec fn spec_new(&self, req: RequestView) -> Option<Self::Mw>;

    /// Inspect a request and create an instance if the factory activates.
    fn new(&self, req: &Request) -> (r: Option<Self::Mw>)
        requires
            self.inv(),
        ensures
            r == self.spec_new(req@),
            r matches Some(mw) ==> mw.inv(),
    ;
}

/// The middleware instances the factories `fs[i..]` create for a request,
/// in factory order.
pub open spec fn spec_create_from<F: MiddlewareFactory>(
    fs: Seq<F>,
    req: RequestView,
    i: int,
) -> Seq<F::Mw>
    decreases fs.len() - i,
{
    if i < 0 || i >= fs.len() {
        Seq::empty()
    } else {
        match fs[i].spec_new(req) {
            Some(m) => seq![m] + spec_create_from(fs, req, i + 1),
            None => spec_create_from(fs, req, i + 1),
        }
    }
}

/// The instances `ms[i..]`, run in order, turn request `from` into request
/// `to` through their before hooks, with every hook along the run
/// succeeding.
pub open spec fn before_chain<M: Middleware>(
    ms: Seq<M>,
    from: RequestView,
    to: RequestView,
    i: int,
) -> bool
    decreases ms.len() - i,
{
    if i < 0 || i >= ms.len() {
        from == to
    } else {
        !ms[i].before_fails(from) && exists|mid: RequestView| #[trigger]
            ms[i].before_ok(from, mid) && before_chain(ms, mid, to, i + 1)
    }
}

/// Some before hook of `ms[i..]`, run in order from request `from`, fails.
pub open spec fn before_chain_fails<M: Middleware>(ms: Seq<M>, from: RequestView, i: int) -> bool
    decreases ms.len() - i,
{
    if i < 0 || i >= ms.len() {
        false
    } else {
        ms[i].before_fails(from) || exists|mid: RequestView| #[trigger]
            ms[i].before_ok(from, mid) && before_chain_fails(ms, mid, i + 1)
    }
}

/// The instances `ms[i..]`, run in order, turn response `from` into
/// response `to` through their after hooks, with every hook along the run
/// succeeding.
pub open spec fn after_chain<M: Middleware>(
    ms: Seq<M>,
    from: ResponseView,
    to: ResponseView,
    i: int,
) -> bool
    decreases ms.len() - i,
{
    if i < 0 || i >= ms.len() {
        from == to
    } else {
        !ms[i].after_fails(from) && exists|mid: ResponseView| #[trigger]
            ms[i].after_ok(from, mid) && after_chain(ms, mid, to, i + 1)
    }
}

/// Some after hook of `ms[i..]`, run in order from response `from`, fails.
pub open spec fn after_chain_fails<M: Middleware>(ms: Seq<M>, from: ResponseView, i: int) -> bool
    decreases ms.len() - i,
{
    if i < 0 || i >= ms.len() {
        false
    } else {
        ms[i].after_fails(from) || exists|mid: ResponseView| #[trigger]
            ms[i].after_ok(from, mid) && after_chain_fails(ms, mid, i + 1)
    }
}

/// Everything one connection needs: the context handed to handlers, the
/// request handler (usually a router), and the middleware factories.
pub struct ConnectionHandler<H: Handler, F: MiddlewareFactory> {
    pub context: Context,
    pub request_handler: H,
    pub middleware: Vec<F>,
}

impl<H: Handler, F: MiddlewareFactory> ConnectionHandler<H, F> {
    /// The handler and every factory are valid.
    pub open spec fn inv(&self) -> bool {
        &&& self.request_handler.inv()
        &&& forall|i: int|
            0 <= i < self.middleware@.len() ==> (#[trigger] self.middleware@[i]).inv()
    }

    pub fn new(context: Context, request_handler: H, middleware: Vec<F>) -> (r: ConnectionHandler<
        H,
        F,
    >)
        requires
            request_handler.inv(),
            forall|i: int| 0 <= i < middleware@.len() ==> (#[trigger] middleware@[i]).inv(),
        ensures
            r.inv(),
            r.request_handler == request_handler,
            r.middleware == middleware,
            r.context == context,
    {
        ConnectionHandler { context, request_handler, middleware }
    }

    /// Run the pipeline on an already-parsed request and produce the bytes
    /// to write back, or nothing when the connection must be closed without
    /// a response.
    ///
    /// The factories create their instances from the request as it arrives;
    /// any answer produced goes through the before-hooks, the handler (with
    /// a terminal error serialized as an error response), and on success the
    /// after-hooks and the serializer. A failing hook aborts the request:
    /// nothing is returned exactly when a hook along the actual run fails,
    /// and when no hook can fail an answer is guaranteed.
    pub fn handle_request(&self, req: Request) -> (r: Option<Vec<u8>>)
        requires
            self.inv(),
        ensures
            ({
                let reqv = req@;
                let ms = spec_create_from(self.middleware@, reqv, 0);
                &&& (r is Some ==> exists|reqv2: RequestView|
                    #[trigger] before_chain(ms, reqv, reqv2, 0)
                        && match self.request_handler.spec_handle(&self.context, reqv2) {
                        Err(e) => r.unwrap()@ == spec_serialize_error(e.0),
                        Ok(respv) => exists|respv2: ResponseView|
                            #[trigger] after_chain(ms, respv, respv2, 0) && r.unwrap()@
                                == spec_serialize_response(respv2),
                    })
                &&& (r is None ==> before_chain_fails(ms, reqv, 0) || exists|reqv2: RequestView|
                    #[trigger] before_chain(ms, reqv, reqv2, 0)
                        && match self.request_handler.spec_handle(&self.context, reqv2) {
                        Err(_) => false,
                        Ok(respv) => after_chain_fails(ms, respv, 0),
                    })
                &&& ((forall|k: int, rv: RequestView|
                    0 <= k < ms.len() ==> !(#[trigger] ms[k].before_fails(rv))) && (forall|
                    k: int,
                    pv: ResponseView,
                |
                    0 <= k < ms.len() ==> !(#[trigger] ms[k].after_fails(pv))) ==> r is Some)
            }),
    {
        let mut req = req;
        let ghost reqv = req@;

        // Create the active middleware instances, in factory order.
        let mut insts: Vec<F::Mw> = Vec::new();
        let nf: usize = self.middleware.len();
        let mut i: usize = 0;
        proof {
            assert(insts@ =~= Seq::<F::Mw>::empty());
        }
        while i < nf
            invariant
                0 <= i <= nf == self.middleware@.len(),
                self.inv(),
                req@ == reqv,
                spec_create_from(self.middleware@, reqv, 0) == insts@ + spec_create_from(
                    self.middleware@,
                    reqv,
                    i as int,
                ),
                forall|k: int| 0 <= k < insts@.len() ==> (#[trigger] insts@[k]).inv(),
            decreases nf - i,
        {
            let ghost old_insts = insts@;
            match self.middleware[i].new(&req) {
                Some(mw) => {
                    insts.push(mw);
                    proof {
                        assert(spec_create_from(self.middleware@, reqv, i as int) == seq![
                            self.middleware@[i as int].spec_new(reqv).unwrap(),
                        ] + spec_create_from(self.middleware@, reqv, i + 1));
                        assert(old_insts + (seq![insts@[old_insts.len() as int]]
                            + spec_create_from(self.middleware@, reqv, i + 1)) =~= insts@
                            + spec_create_from(self.middleware@, reqv, i + 1));
                    }
                },
                None => {
                    proof {
                        assert(spec_create_from(self.middleware@, reqv, i as int)
                            == spec_create_from(self.middleware@, reqv, i + 1));
                    }
                },
            }
            i = i + 1;
        }
        let ghost ms = spec_create_from(self.middleware@, reqv, 0);
        proof {
            assert(spec_create_from(self.middleware@, reqv, nf as int) =~= Seq::<F::Mw>::empty());
            assert(insts@ + Seq::<F::Mw>::empty() =~= insts@);
            assert(ms == insts@);
        }

        // Before-hooks, in order; a failing hook aborts the connection.
        let nm: usize = insts.len();
        let mut j: usize = 0;
        let mut failed = false;
        while j < nm && !failed
            invariant
                0 <= j <= nm == insts@.len(),
                ms == insts@,
                failed ==> exists|k: int, rv: RequestView|
                    0 <= k < ms.len() && (#[trigger] ms[k].before_fails(rv)),
                failed ==> before_chain_fails(ms, reqv, 0),
                self.inv(),
                forall|k: int| 0 <= k < insts@.len() ==> (#[trigger] insts@[k]).inv(),
                !failed ==> forall|to: RequestView|
                    #[trigger] before_chain(ms, req@, to, j as int) ==> before_chain(
                        ms,
                        reqv,
                        to,
                        0,
                    ),
                !failed ==> (before_chain_fails(ms, req@, j as int) ==> before_chain_fails(
                    ms,
                    reqv,
                    0,
                )),
            decreases nm - j,
        {
            let ghost req_before = req@;
            match insts[j].apply_before(&mut req) {
                Ok(_) => {
                    proof {
                        assert(!insts@[j as int].before_fails(req_before));
                        assert(insts@[j as int].before_ok(req_before, req@));
                        assert forall|to: RequestView|
                            #[trigger] before_chain(ms, req@, to, j + 1) implies before_chain(
                            ms,
                            reqv,
                            to,
                            0,
                        ) by {
                            assert(before_chain(ms, req_before, to, j as int));
                        }
                        if before_chain_fails(ms, req@, j + 1) {
                            assert(before_chain_fails(ms, req_before, j as int));
                        }
                    }
                },
                Err(_) => {
                    proof {
                        assert(insts@[j as int].before_fails(req_before));
                        assert(before_chain_fails(ms, req_before, j as int));
                        assert(before_chain_fails(ms, reqv, 0));
                    }
                    failed = true;
                },
            }
            j = j + 1;
        }
        if failed {
            return None;
        }
        let ghost reqv2 = req@;
        proof {
            assert(before_chain(ms, reqv2, reqv2, nm as int));
            assert(before_chain(ms, reqv, reqv2, 0));
        }

        // Dispatch.
        let outcome = self.request_handler.handle(&self.context, req);
        let mut resp = match outcome {
            Err(e) => {
                let HttpError(st) = e;
                return Some(serialize_error(st));
            },
            Ok(resp) => resp,
        };
        let ghost respv = resp@;

        // After-hooks, in order; a failing hook aborts the connection.
        let mut j2: usize = 0;
        while j2 < nm && !failed
            invariant
                0 <= j2 <= nm == insts@.len(),
                ms == insts@,
                failed ==> exists|k: int, pv: ResponseView|
                    0 <= k < ms.len() && (#[trigger] ms[k].after_fails(pv)),
                failed ==> after_chain_fails(ms, respv, 0),
                self.inv(),
                forall|k: int| 0 <= k < insts@.len() ==> (#[trigger] insts@[k]).inv(),
                !failed ==> forall|to: ResponseView|
                    #[trigger] after_chain(ms, resp@, to, j2 as int) ==> after_chain(
                        ms,
                        respv,
                        to,
                        0,
                    ),
                !failed ==> (after_chain_fails(ms, resp@, j2 as int) ==> after_chain_fails(
                    ms,
                    respv,
                    0,
                )),
            decreases nm - j2,
        {
            let ghost resp_before = resp@;
            match insts[j2].apply_after(&mut resp) {
                Ok(_) => {
                    proof {
                        assert(!insts@[j2 as int].after_fails(resp_before));
                        assert(insts@[j2 as int].after_ok(resp_before, resp@));
                        assert forall|to: ResponseView|
                            #[trigger] after_chain(ms, resp@, to, j2 + 1) implies after_chain(
                            ms,
                            respv,
                            to,
                            0,
                        ) by {
                            assert(after_chain(ms, resp_before, to, j2 as int));
                        }
                        if after_chain_fails(ms, resp@, j2 + 1) {
                            assert(after_chain_fails(ms, resp_before, j2 as int));
                        }
                    }
                },
                Err(_) => {
                    proof {
                        assert(insts@[j2 as int].after_fails(resp_before));
                        assert(after_chain_fails(ms, resp_before, j2 as int));
                        assert(after_chain_fails(ms, respv, 0));
                    }
                    failed = true;
                },
            }
            j2 = j2 + 1;
        }
        if failed {
            proof {
                assert(before_chain(ms, reqv, reqv2, 0));
                assert(self.request_handler.spec_handle(&self.context, reqv2)
                    == Ok::<ResponseView, HttpError>(respv));
                assert(after_chain_fails(ms, respv, 0));
            }
            return None;
        }
        proof {
            assert(after_chain(ms, resp@, resp@, nm as int));
            assert(after_chain(ms, respv, resp@, 0));
        }
        Some(serialize_response(&resp))
    }

    /// Handle one request head and produce the bytes to write back, or
    /// nothing when the connection must be closed without a response.
    ///
    /// A head the grammar rejects is answered with a Bad Request error
    /// response; any other head is parsed and run through the pipeline as
    /// `handle_request` describes.
    pub fn handle(&self, head: &[u8]) -> (r: Option<Vec<u8>>)
        requires
            self.inv(),
            head@.len() < usize::MAX,
        ensures
            spec_parse_request(head@) is None ==> r is Some && r.unwrap()@
                == spec_serialize_error(HttpStatus::BadRequest),
            spec_parse_request(head@) matches Some(reqv) ==> {
                let ms = spec_create_from(self.middleware@, reqv, 0);
                &&& (r is Some ==> exists|reqv2: RequestView|
                    #[trigger] before_chain(ms, reqv, reqv2, 0)
                        && match self.request_handler.spec_handle(&self.context, reqv2) {
                        Err(e) => r.unwrap()@ == spec_serialize_error(e.0),
                        Ok(respv) => exists|respv2: ResponseView|
                            #[trigger] after_chain(ms, respv, respv2, 0) && r.unwrap()@
                                == spec_serialize_response(respv2),
                    })
                &&& (r is None ==> before_chain_fails(ms, reqv, 0) || exists|reqv2: RequestView|
                    #[trigger] before_chain(ms, reqv, reqv2, 0)
                        && match self.request_handler.spec_handle(&self.context, reqv2) {
                        Err(_) => false,
                        Ok(respv) => after_chain_fails(ms, respv, 0),
                    })
                &&& ((forall|k: int, rv: RequestView|
                    0 <= k < ms.len() ==> !(#[trigger] ms[k].before_fails(rv))) && (forall|
                    k: int,
                    pv: ResponseView,
                |
                    0 <= k < ms.len() ==> !(#[trigger] ms[k].after_fails(pv))) ==> r is Some)
            },
    {
        let req = match parse_request(head) {
            Ok(rq) => rq,
            Err(_) => {
                return Some(serialize_error(HttpStatus::BadRequest));
            },
        };
        self.handle_request(req)
    }
}

/// The middleware set a server starts with: response compression.
pub fn default_middleware() -> (r: Vec<CompressionFactory>)
    ensures
        r@.len() == 1,
{
    let mut v: Vec<CompressionFactory> = Vec::new();
    v.push(CompressionFactory);
    v
}

/// The run state of a server. Transitions move only along
/// Stopped -> Running -> Stopping -> Stopped; `stop` and `listen` calls
/// outside these transitions are no-ops.
#[derive(Clone, Copy, Debug, PartialEq, Eq, Structural)]
pub enum ServerState {
    Stopped,
    Running,
    Stopping,
}

impl ServerState {
    /// The state a freshly started server is in, before any listening.
    pub open spec fn initial() -> ServerState {
        ServerState::Stopped
    }

    /// The stop transition: Running moves to Stopping, and the accept loop
    /// must be unblocked; any other state is left alone.
    pub open spec fn spec_stop(self) -> (ServerState, bool) {
        match self {
            ServerState::Running => (ServerState::Stopping, true),
            s => (s, false),
        }
    }

    /// Decide a stop request: the next state, and whether the accept loop
    /// must be unblocked.
    pub fn on_stop(self) -> (r: (ServerState, bool))
        ensures
            r == self.spec_stop(),
    {
        match self {
            ServerState::Running => (ServerState::Stopping, true),
            s => (s, false),
        }
    }

    /// The transition when listening begins: only Stopped moves to Running
    /// and proceeds; any other state is left alone and the call is a no-op.
    pub open spec fn spec_begin_listen(self) -> (ServerState, bool) {
        match self {
            ServerState::Stopped => (ServerState::Running, true),
            s => (s, false),
        }
    }

    /// Decide a listen request: the next state, and whether the accept loop
    /// may run.
    pub fn on_begin_listen(self) -> (r: (ServerState, bool))
        ensures
            r == self.spec_begin_listen(),
    {
        match self {
            ServerState::Stopped => (ServerState::Running, true),
            s => (s, false),
        }
    }

    /// Whether the accept loop may handle another connection: a server that
    /// observed a stop request short-circuits before the next connection.
    pub fn accepting(self) -> (r: bool)
        ensures
            r == (self != ServerState::Stopping),
    {
        match self {
            ServerState::Stopping => false,
            _ => true,
        }
    }

    /// The transition when the accept loop exits: back to Stopped.
    pub fn on_finish_listen(self) -> (r: ServerState)
        ensures
            r == ServerState::Stopped,
    {
        ServerState::Stopped
    }
}

/// Stopping a server that is not Running (already Stopped, or already
/// Stopping) changes nothing and unblocks nothing: `stop` is idempotent.
pub proof fn lemma_stop_idempotent(s: ServerState)
    requires
        s != ServerState::Running,
    ensures
        s.spec_stop() == (s, false),
{
}

/// A started server that is stopped before it ever listens stays Stopped:
/// starting leaves the state at its initial value, and `stop` on a Stopped
/// server is a no-op.
pub proof fn lemma_start_then_stop()
    ensures
        ServerState::initial().spec_stop() == (ServerState::initial(), false),
{
}

/// Resolved server configuration, externally supplied.
pub struct Config {
    pub host: String,
    pub port: u16,
    pub write_timeout_ms: u64,
    pub read_timeout_ms: u64,
    pub workers: usize,
    pub directory: String,
}

impl Default for Config {
    /// The bundled defaults: loopback host, an ephemeral port, one-second
    /// timeouts, four workers, the current directory.
    fn default() -> (r: Config)
        ensures
            r.host@ == "127.0.0.1"@,
            r.port == 0,
            r.write_timeout_ms == 1000,
            r.read_timeout_ms == 1000,
            r.workers == 4,
            r.directory@ == "."@,
    {
        Config {
            host: String::from_str("127.0.0.1"),
            port: 0,
            write_timeout_ms: 1000,
            read_timeout_ms: 1000,
            workers: 4,
            directory: String::from_str("."),
        }
    }
}

} // verus!
