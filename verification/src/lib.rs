//! A buffered byte-stream decoder.
//!
//! The crate wraps a byte-producing source behind a small capability
//! interface and exposes higher-level read primitives on top of it:
//! fixed-size byte reads and null-terminated UTF-8 string reads, with
//! explicit end-of-stream and encoding-error signaling.

pub mod provider;
pub mod source;
