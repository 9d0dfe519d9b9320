//! Conversion between URL query strings and unordered key-value mappings,
//! with percent-encoding and decoding of the individual components.
//!
//! A query string is the part of a URL after `?` and before `#`: a sequence
//! of `key=value` pairs joined by `&`. Callers strip the `?` and any
//! `#fragment` before parsing, and prepend `?` to the builder's output when
//! assembling a full URL.

pub mod codec;
pub mod params;
pub mod query;
pub mod symbol;

pub use codec::decode_uri_component;
pub use codec::encode_uri_component;
pub use params::SearchParams;
pub use query::build_url_search_params;
pub use query::parse_url_search_params;
pub use symbol::Symbol;
