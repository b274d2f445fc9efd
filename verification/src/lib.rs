//! A typed, hierarchical configuration store: a tree of named settings that
//! can be read by dotted path, edited in place and turned to text and back.
//!
//! A [`config::Config`] owns the settings. Callers hold handles
//! ([`reader::OptionReader`], [`writer::OptionWriter`],
//! [`writer::CollectionWriter`]) that name a setting and are looked up anew
//! on every call, so a handle to a setting that was deleted is found out
//! and never read through.
//!
//! Every function states what it does over the model in [`model`]: the
//! settings as a sequence of records, and the tree that they spell out.
//! [`syntax`] says which text a tree is written as and which tree a text
//! reads as; [`laws`] holds what follows for every document, such as that
//! writing a document out and reading it again gives the same document.
//!
//! Floating-point numbers are held as their decimal literals
//! ([`value::Float`]), so that no digit changes between reading and
//! writing.

pub mod chars;
pub mod number;
pub mod value;
pub mod errors;
pub mod model;
pub mod edit;
pub mod config;
pub mod path;
pub mod reader;
pub mod writer;
pub mod document;
pub mod create;
pub mod syntax;
pub mod render;
pub mod lexer;
pub mod parse;
pub mod load;
pub mod roundtrip;
pub mod laws;
