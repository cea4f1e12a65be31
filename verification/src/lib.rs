//! Client-side core for a trading venue's authenticated REST interface:
//! deterministic canonical encoding of nested parameter structures,
//! HMAC-SHA256 request signing, method-aware request construction, and
//! lenient response normalization. Network transport lives outside this
//! library; everything here is pure computation over plain values.

pub mod encode;
pub mod json;
pub mod params;
pub mod request;
pub mod response;
pub mod routes;
pub mod sign;
pub mod text;

pub use params::ParamValue;
pub use params::ParamModel;
