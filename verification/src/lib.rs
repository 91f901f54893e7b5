//! A minimal HTTP client core: a buffered reader over a byte connection and
//! the line-oriented state machine that turns a response stream into a body.

pub mod client;
pub mod connection;
pub mod error;
pub mod exchange;
pub mod laws;
pub mod lines;
pub mod parser;
pub mod response;
pub mod stream;
pub mod text;

pub use client::{Endpoint, SimpleClient, UrlParts};
pub use connection::{Connection, Status};
pub use error::{HttpResponseError, IoFailure, ParseFailure};
pub use exchange::{Exchange, Poll};
pub use lines::{lines, Lines};
pub use parser::{classify_line, LineKind, ParseState, Phase};
pub use response::{HttpBody, HttpResponse};
pub use stream::{HttpStream, DEFAULT_HTTP_BUF_SIZE};
