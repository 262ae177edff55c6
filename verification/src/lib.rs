//! A small HTTP framework: request parsing, routing, responses, cookies,
//! sessions, shared state, middleware, templates and WebSockets.

pub mod context;
pub mod cookie;
pub mod decimal;
pub mod error;
pub mod middleware;
pub mod multipart;
pub mod request;
pub mod response;
pub mod router;
pub mod server;
pub mod session;
pub mod strmap;
pub mod template;
pub mod text;
pub mod tls;
pub mod url;
pub mod websocket;
