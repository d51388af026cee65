//! Typed scene-graph property codec: font descriptors, unique identifiers,
//! a class schema with inheritance, a document event stream, and the
//! document codec (wire-tag dispatch, schema validation, default elision,
//! referent linking).

pub mod font;
pub mod value;
pub mod schema;
pub mod codec;
pub mod document;
pub mod format;
