//! Core logic of a development-time static file server that streams live
//! file-change notifications to clients.
//!
//! The crate holds the verified parts: classifying changed paths as noise,
//! tracking dropped notifications on a bounded channel, encoding and decoding
//! the wire messages, resolving request paths to files under a root, and the
//! lifecycle of the stream that owns the filesystem watch resource.

pub mod channel;
pub mod encoder;
pub mod path_filter;
pub mod resolver;
pub mod response;
pub mod stream_own;
pub mod text;
