//! A small application-level server core for local stream sockets: an
//! HTTP/1.1-style wire codec, an exact-match router, response construction,
//! and the server lifecycle decisions, all with verified contracts.

pub mod assoc;
pub mod codec;
pub mod decimal;
pub mod headers;
pub mod laws;
pub mod lifecycle;
pub mod request;
pub mod response;
pub mod router;
pub mod method;
pub mod text;

pub use codec::DecodeError;
pub use headers::HeaderMap;
pub use method::Method;
pub use request::Request;
pub use response::Response;
pub use router::{route_request, Router};
