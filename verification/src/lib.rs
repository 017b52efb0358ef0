//! Decision core of an always-revalidating HTTP proxy with a
//! content-addressed disk cache.

pub mod blobs;
pub mod config;
pub mod config_laws;
pub mod date;
pub mod date_laws;
pub mod digest;
pub mod etag_laws;
pub mod fields;
pub mod header_json;
pub mod headers;
pub mod key_laws;
pub mod keys;
pub mod laws;
mod names;
pub mod numbers;
pub mod paths;
pub mod proxy;
pub mod range;
pub mod range_laws;
pub mod reply_laws;
pub mod request_laws;
pub mod selection;
pub mod size;
pub mod size_laws;
pub mod span_laws;
pub mod spans;
pub mod storage_laws;
pub mod store;
pub mod tables;
pub mod text;
pub mod text_laws;
pub mod validators;
pub mod vary_laws;
