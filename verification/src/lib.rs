//! A verified pipeline that turns W3C extended access logs into bulk-indexing
//! payloads for a document store.
//!
//! The input is newline-delimited text: `#Fields:` comment lines declare the
//! active schema, other `#` lines are ignored, and data lines are
//! tab-delimited token sequences mapped positionally onto the schema.  Every
//! data line becomes a document with a content-derived identifier, optionally
//! enriched with a campaign tag extracted from its query-string field, and the
//! documents are grouped into fixed-size chunks, each serialized as an
//! alternating action-descriptor / document payload.  A response checker
//! decides whether the sink accepted a chunk.
//!
//! All I/O (reading the input file, talking to the sink) lives outside this
//! crate; the functions here are pure transformations with proved contracts.

pub mod errors;
pub mod ident;
pub mod payload;
pub mod pipeline;
pub mod record;
pub mod response;
pub mod schema;
pub mod text;
