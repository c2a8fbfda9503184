//! Incremental tokenizer for HTTP/1.1 message preambles.
//!
//! Given a byte buffer that may hold a complete request or response preamble,
//! a truncated prefix of one, or malformed data, the parser either identifies
//! the method/target/version (or version/status/reason) tokens plus an ordered
//! list of header name/value pairs, reports that the buffer is a valid prefix
//! that needs more bytes, or reports precisely which token failed and why.
//! Tokens are index ranges into the caller's buffer; the parser copies no
//! text, performs no I/O, and keeps no state between calls.

pub mod chars;
pub mod headers;
pub mod lemmas;
pub mod line;
pub mod request;
pub mod response;
pub mod scan;
pub mod types;

pub use chars::{is_digit, is_tchar};
pub use headers::parse_headers;
pub use line::parse_http_version;
pub use request::Request;
pub use response::Response;
pub use scan::{parse_token, position, read_until};
pub use types::{HeaderField, Outcome, ParseError, Token};
