//! The core of a language server: framing of base-protocol messages, the
//! method tables and dispatch of JSON-RPC messages, and the store of open
//! text documents with the edits that clients report.

pub mod bytes;
pub mod document;
pub mod framing;
pub mod func;
pub mod json;
pub mod protocol;
pub mod router;
pub mod store;
pub mod structures;
pub mod text;
