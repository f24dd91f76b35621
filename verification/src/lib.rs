//! XML binding for document-package font tables.
//!
//! A font table is one XML fragment of an Office-style document package.
//! This crate models such a fragment as a tree of typed records and gives
//! each record type two capabilities: decoding from a stream of XML tokens
//! and encoding to XML text.  The text codec handles entity escaping, the
//! cursor module walks token streams, and the record types live in
//! `font_table`.

pub mod codec;
pub mod cursor;
pub mod error;
pub mod font_table;
pub mod schema;
