//! The document as callers meet it: its root, lookup by path, and new
//! sections at the top.

use vstd::prelude::*;
use crate::config::Config;
use crate::errors::Errors;
use crate::model::Content;
use crate::reader::{reader_at, OptionReader};
use crate::value::Format;
use crate::writer::OptionWriter;

verus! {

impl Config {
    /// A reader for the root group. After a failed load the document has no
    /// root, and the reader refers to nothing.
    pub fn root(&self) -> (r: OptionReader)
        ensures
            r.element == self@.root,
    {
        OptionReader { element: self.root_index() }
    }

    /// A writer for the root group.
    pub fn root_writer(&self) -> (w: OptionWriter)
        ensures
            w.element == self@.root,
    {
        OptionWriter { element: self.root_index() }
    }

    /// Read value from path.
    pub fn value(&self, path: &str) -> (r: Option<OptionReader>)
        requires
            self.wf(),
        ensures
            r == match self@.root {
                Some(root) => reader_at(self@.resolve(root as int, path@)),
                None => None,
            },
            r matches Some(found) ==> self@.check(found.element) is Ok,
    {
        self.root().value(self, path)
    }

    /// Create new group section.
    pub fn create_section(&mut self, path: &str) -> (r: Result<OptionWriter, Errors>)
        requires
            old(self).wf(),
        ensures
            final(self).wf(),
            match r {
                Ok(w) => {
                    &&& old(self)@.create_error(old(self)@.root, path@) is None
                    &&& w.element == Some(old(self)@.nodes.len() as usize)
                    &&& final(self)@ == old(self)@.attach(
                        old(self)@.root.unwrap() as int,
                        Some(path@),
                        Content::Group,
                        Format::Decimal,
                    )
                },
                Err(e) => old(self)@.create_error(old(self)@.root, path@) == Some(e) && final(self)@ == old(self)@,
            },
    {
        let w = self.root_writer();
        w.create_section(self, path)
    }
}

} // verus!
