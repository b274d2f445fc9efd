//! The ways an operation on a document can fail.

use vstd::prelude::*;

verus! {

/// Why an operation did not go through. Every one of them leaves the
/// document usable.
#[derive(Debug, PartialEq, Eq, Clone, Copy, Structural)]
pub enum Errors {
    /// The text is not a document; `line` is where reading stopped,
    /// counted from one.
    ParseError { line: usize },
    /// The file to load is not there.
    FileNotFound,
    /// The document could not be written out.
    WriteError,
    /// The setting is not a group.
    NotAGroup,
    /// The setting is neither a group, an array nor a list.
    NotAnAggregate,
    /// The group already has a member of that name.
    DuplicateName,
    /// The text cannot name a setting.
    InvalidName,
    /// There is no such setting, or it is the root where the root will not do.
    ElementNotExists,
    /// The setting was deleted, or its document was read anew.
    StaleReference,
    /// The setting could not be taken out of its parent.
    DeleteError,
    /// The value is of another kind than the one asked for.
    TypeMismatch,
}

impl Errors {
    /// The words for each failure.
    pub open spec fn words(self) -> Seq<char> {
        match self {
            Errors::ParseError { .. } => "syntax error"@,
            Errors::FileNotFound => "file not found"@,
            Errors::WriteError => "cannot write the document"@,
            Errors::NotAGroup => "the setting is not a group"@,
            Errors::NotAnAggregate => "the setting is not a group, an array or a list"@,
            Errors::DuplicateName => "the group already has a member of that name"@,
            Errors::InvalidName => "not a valid setting name"@,
            Errors::ElementNotExists => "no such setting"@,
            Errors::StaleReference => "the setting no longer exists"@,
            Errors::DeleteError => "the setting could not be removed"@,
            Errors::TypeMismatch => "the value is of another kind"@,
        }
    }

    /// A short description of the failure.
    pub fn message(&self) -> (r: &'static str)
        ensures
            r@ == self.words(),
    {
        match self {
            Errors::ParseError { .. } => "syntax error",
            Errors::FileNotFound => "file not found",
            Errors::WriteError => "cannot write the document",
            Errors::NotAGroup => "the setting is not a group",
            Errors::NotAnAggregate => "the setting is not a group, an array or a list",
            Errors::DuplicateName => "the group already has a member of that name",
            Errors::InvalidName => "not a valid setting name",
            Errors::ElementNotExists => "no such setting",
            Errors::StaleReference => "the setting no longer exists",
            Errors::DeleteError => "the setting could not be removed",
            Errors::TypeMismatch => "the value is of another kind",
        }
    }
}

} // verus!
