//! The request-handling core of a small form service: which static file a
//! request path names, which submissions are accepted, what is written to the
//! submission log, and which response each request gets.

pub mod text;
pub mod form;
pub mod paths;
pub mod headers;
pub mod response;
pub mod record;
pub mod dispatch;
