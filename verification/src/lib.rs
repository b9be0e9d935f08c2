//! Bridge between a broker's newline-delimited JSON price stream and a local
//! publish/subscribe fan-out.
//!
//! The library holds the verified core of the pipeline: reassembling records
//! from an arbitrarily chunked byte stream (`framing`), decoding the two wire
//! record shapes (`modems`, `parse`), converting broker timestamps
//! (`models`), resolving configuration, and driving the session state machine
//! (`session`).  Network transport and the fan-out socket live outside the
//! library and hand it plain values.

pub mod errors;
pub mod framing;
pub mod text;
pub mod modems;
pub mod parse;
pub mod render;
pub mod models;
pub mod session;
