//! Standardized error-detail payloads for RPC-style status responses.
//!
//! Each detail kind is a small value object (the worked example is
//! [`BadRequest`]) that can be serialized into a self-describing, type-tagged
//! binary envelope ([`Any`]) and later recovered from that envelope. The
//! envelope codec is verified: encoding is proved to produce exactly the wire
//! bytes of the detail's schema, and decoding is proved to be the inverse of
//! encoding and to fail (all-or-nothing) on malformed bytes.

pub mod any;
pub mod bad_request;
pub mod error_detail;
pub mod varint;
pub mod wire;

pub use any::Any;
pub use any::DecodeError;
pub use any::EncodeError;
pub use bad_request::BadRequest;
pub use bad_request::FieldViolation;
pub use error_detail::ErrorDetail;
