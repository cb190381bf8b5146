//! Verified core of a JSON-rewriting reverse proxy.
//!
//! The library receives an upstream HTTP response (status, headers, body
//! bytes), parses the body as JSON, rewrites every numeric leaf into a
//! human-readable string (thousands-grouped digits, with an optional
//! large-magnitude rescaling policy), re-serializes the document, and
//! produces the outbound response.  Structure, key order and array order of
//! the document are preserved; only Number leaves change, into String
//! leaves.

pub mod assemble;
pub mod decimal;
pub mod digits;
pub mod format;
pub mod json;
pub mod parse;
pub mod ser;
pub mod text;
pub mod uri;

pub use assemble::respond;
pub use assemble::transport_reply;
pub use assemble::Reply;
pub use digits::format_i64;
pub use digits::format_u64;
pub use format::format_float;
pub use format::format_int;
pub use format::format_uint;
pub use format::Policy;
pub use json::transform;
pub use json::JsonNum;
pub use json::JsonValue;
pub use ser::to_json_text;
pub use uri::upstream_uri;
