//! Builds a nested tree of mappings, sequences and strings from an XML document.
//!
//! Every element becomes a [`Node`]: a mapping whose keys are the element's attribute
//! names, the tag names of its children and the reserved key `#text`. Children that
//! share a tag name are collected, in document order, into one sequence.

pub mod builder;
pub mod document;
pub mod error;
pub mod event;
pub mod laws;
pub mod node;
pub mod parse;
pub mod source;
pub mod text;

pub use builder::{build_document, TreeBuilder};
pub use document::Document;
pub use error::{ErrorKind, ParseError, Stage};
pub use event::XmlEvent;
pub use node::{Node, Value};
pub use parse::{decode_name, parse_string_promise};
