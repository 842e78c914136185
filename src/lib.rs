//! Streaming conversion of raw bson documents to JSON text through a
//! serde_json formatter, without building a document tree.
pub mod escape;
pub mod raw;
pub mod traverse;
pub mod writer;

pub use raw::Value;
pub use traverse::{traverse_document, traverse_value, TraverseError};
pub use writer::JsonWriter;
