//! A verified email message parser: RFC 5322 headers and MIME body
//! structure, decoded from raw bytes into a queryable model, with a field
//! projection to an in-memory JSON value and plain-text/HTML body
//! extraction.

pub mod addr;
pub mod body;
pub mod bytes;
pub mod date;
pub mod decode;
pub mod headers;
pub mod lexer;
pub mod message;
pub mod mime;
pub mod model;
pub mod project;
pub mod strconv;
