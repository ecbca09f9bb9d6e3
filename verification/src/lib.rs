//! An HTTP/1.1 request parser, response builder and request router.
//!
//! `request` reads a request from the text a client sent, `response` builds
//! a response and the text that carries it, `router` decides how a request
//! is answered, and `server` holds the server's settings. `laws` states
//! what holds across these functions.

pub mod headers;
pub mod laws;
pub mod request;
pub mod response;
pub mod router;
pub mod server;
pub mod text;

pub use headers::Headers;
pub use request::{Method, Request, RequestView, Resource, Version};
pub use response::Response;
pub use router::{PageNotFoundHandler, Router, StaticPageHandler, Step, WebServiceHandler};
pub use server::{default_server_thread_pool_size, default_tracing_level, Server};
