//! Streaming deserialization of XML parse events into typed records.
//!
//! A schema, a table of [`schema::TypeDescriptor`]s, says for every record
//! type which attributes, child elements and text its fields are read from.
//! [`reader::deserialize`] drives a forward-only [`event::EventCursor`]
//! through one record and returns the assembled [`value::Document`]; its
//! behaviour is the state machine that [`machine`] states as spec functions.
//! [`laws`] proves properties of that machine, and [`writer`] writes records
//! out as events that read back to themselves.

pub mod kind;
pub mod value;
pub mod text;
pub mod event;
pub mod schema;
pub mod machine;
pub mod reader;
pub mod laws;
pub mod writer;
