//! Capture-record engine for an HTTP(S) traffic-inspection tool.
//!
//! Holds the in-memory representation of one intercepted request/response
//! exchange, tracks its lifecycle as network events arrive, classifies and
//! encodes body payloads, and re-serializes a record into several export
//! formats (structured JSON, HAR 1.2, Markdown, a shell command, and a
//! byte-level hex view).

pub mod body;
pub mod export;
pub mod har;
pub mod headers;
pub mod hexview;
pub mod json;
pub mod outside;
pub mod strbytes;
pub mod traffic;
