//! A small HTTP/1.1 server library: a request parser, a route dispatcher,
//! a content encoder and a response writer, all on bytes.
pub mod ascii;
pub mod request;
pub mod response;
pub mod encoding;
pub mod router;
pub mod laws;
