//! A verified core for a minimal HTTP/1.1 server: a query-string decoder,
//! a request-line parser, a response builder with its status-code table, and
//! the per-connection state machine that frames a request off a byte stream
//! and drives parse, dispatch and respond.
//!
//! Socket handling and the accept loop live outside this library; they feed
//! raw bytes in and write the returned response text out.

pub mod query_string;
pub mod request;
pub mod response;
pub mod server;
pub mod status_code;
pub mod text;
