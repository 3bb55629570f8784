//! The ways in which a listing fails.

use vstd::prelude::*;
use vstd::string::*;

verus! {

/// What went wrong. Every kind is fatal: the listing stops at the first one.
#[derive(Clone, Copy, Debug, PartialEq, Eq, Structural)]
pub enum ErrorKind {
    /// The path has no final component to show.
    NameUnreadable,
    /// The name, or the target of a symbolic link, is not text.
    EncodingError,
    /// The entry's own metadata could not be read, or cannot be rendered.
    MetadataUnavailable,
    /// No account is known under the entry's owner or group id.
    IdentityUnresolvable,
    /// The directory's children could not be read.
    DirectoryUnreadable,
    /// The width of the terminal is not known.
    TerminalGeometryUnavailable,
}

/// A failure, with the path at which it arose. The path is empty where the
/// failure belongs to no path.
#[derive(Debug)]
pub struct ListError {
    pub kind: ErrorKind,
    pub path: String,
}

/// A failure as a plain value.
pub struct ListErrorView {
    pub kind: ErrorKind,
    pub path: Seq<char>,
}

impl View for ListError {
    type V = ListErrorView;

    open spec fn view(&self) -> ListErrorView {
        ListErrorView { kind: self.kind, path: self.path@ }
    }
}

/// The words that name a kind of failure in a diagnostic.
pub open spec fn kind_text(kind: ErrorKind) -> Seq<char> {
    match kind {
        ErrorKind::NameUnreadable => "cannot read the file name"@,
        ErrorKind::EncodingError => "name is not valid text"@,
        ErrorKind::MetadataUnavailable => "cannot read the metadata"@,
        ErrorKind::IdentityUnresolvable => "no such user or group"@,
        ErrorKind::DirectoryUnreadable => "cannot read the directory"@,
        ErrorKind::TerminalGeometryUnavailable => "cannot get the terminal size"@,
    }
}

/// The diagnostic for a failure: the kind in words, then the path.
pub open spec fn diagnostic(e: ListErrorView) -> Seq<char> {
    kind_text(e.kind) + ": "@ + e.path
}

impl ListError {
    /// A failure of the given kind at `path`.
    pub fn new(kind: ErrorKind, path: &str) -> (e: ListError)
        ensures
            e@ == (ListErrorView { kind, path: path@ }),
    {
        ListError { kind, path: String::from_str(path) }
    }

    /// The diagnostic that names the kind of failure and the failing path.
    pub fn message(&self) -> (text: String)
        ensures
            text@ == diagnostic(self@),
    {
        let words = match self.kind {
            ErrorKind::NameUnreadable => "cannot read the file name",
            ErrorKind::EncodingError => "name is not valid text",
            ErrorKind::MetadataUnavailable => "cannot read the metadata",
            ErrorKind::IdentityUnresolvable => "no such user or group",
            ErrorKind::DirectoryUnreadable => "cannot read the directory",
            ErrorKind::TerminalGeometryUnavailable => "cannot get the terminal size",
        };
        let mut text = String::from_str(words);
        text.append(": ");
        text.append(self.path.as_str());
        text
    }
}

} // verus!
