//! Chapter metadata model for a media container.
//!
//! The library models one edition's ordered list of chapter markers: it
//! parses the chapter XML exchange format into a [`chapters::Chapters`]
//! document, lets callers read and append chapters, renders a human-readable
//! summary, and serializes the document back to XML.  The grammar of the
//! exchange format is stated as specification functions in [`xml`], the
//! executable parser and emitter are proved against them, and [`laws`] proves
//! that serializing a parsed document and parsing it again yields the same
//! chapter sequence.

pub mod chapters;
pub mod emit;
pub mod laws;
pub mod parse;
pub mod xml;
