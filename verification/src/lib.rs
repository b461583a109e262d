//! A minimal HTTP/1.1 server core: a hand-rolled wire codec for request
//! heads and response framing, a first-match router over regular-expression
//! path patterns, a before/after middleware pipeline with a gzip compression
//! instance, a FIFO worker-queue model, and the server lifecycle state
//! machine — each with verified contracts. The sockets, threads and signals
//! that drive this core live with the embedding program.

pub mod ascii;
pub mod views;
pub mod types;
pub mod codec;
pub mod patterns;
pub mod handlers;
pub mod server;
pub mod compression;
pub mod thread_pool;

pub use codec::{parse_request, serialize_error, serialize_response};
pub use compression::{Compression, CompressionFactory, DecompressionError};
pub use handlers::{demo_router, Context, DemoHandler, Handler, RouteEntry, Router};
pub use server::{
    default_middleware, Config, ConnectionHandler, Middleware, MiddlewareError,
    MiddlewareFactory, ServerState,
};
pub use thread_pool::{worker_step, TaskQueue, WorkerAction};
pub use types::{HttpError, HttpStatus, Method, Request, RequestParsingError, Response};
