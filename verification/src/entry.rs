//! What the file system reports of a path, as plain values.

use vstd::prelude::*;
use vstd::string::*;

use crate::order::Pathed;

verus! {

/// A piece of text that the operating system may lack, or hold in a form that
/// is not text.
#[derive(Debug)]
pub enum OsText {
    /// There is none: a path without a final component, a file that is no link.
    Absent,
    /// There is one, and it is not valid text.
    Undecodable,
    /// The text.
    Text(String),
}

/// An [`OsText`] as a plain value.
pub enum OsTextView {
    Absent,
    Undecodable,
    Text(Seq<char>),
}

impl View for OsText {
    type V = OsTextView;

    open spec fn view(&self) -> OsTextView {
        match self {
            OsText::Absent => OsTextView::Absent,
            OsText::Undecodable => OsTextView::Undecodable,
            OsText::Text(s) => OsTextView::Text(s@),
        }
    }
}

/// An entry's own metadata: for a symbolic link that of the link, not of what
/// it points to. So of an entry that has a link's target, `is_dir` says
/// nothing: a link is a link, whatever it points to.
#[derive(Clone, Copy, Debug)]
pub struct Stat {
    /// Whether the entry is a directory.
    pub is_dir: bool,
    /// The mode bits; the low nine are the permissions.
    pub mode: u32,
    /// The owner's numeric id.
    pub uid: u32,
    /// The group's numeric id.
    pub gid: u32,
    /// The length in bytes.
    pub len: u64,
    /// The modification instant: whole seconds since the Unix epoch, negative
    /// before it.
    pub modified_secs: i64,
    /// The modification instant: nanoseconds after the whole second.
    pub modified_nanos: u32,
}

/// One path and what was read of it.
#[derive(Debug)]
pub struct Entry {
    /// The path as it was given.
    pub path: String,
    /// The final component of the path.
    pub name: OsText,
    /// The target, where the path is a symbolic link.
    pub link: OsText,
    /// The metadata; `None` where the system refused to give it.
    pub stat: Option<Stat>,
}

/// An [`Entry`] as a plain value.
pub struct EntryView {
    pub path: Seq<char>,
    pub name: OsTextView,
    pub link: OsTextView,
    pub stat: Option<Stat>,
}

impl View for Entry {
    type V = EntryView;

    open spec fn view(&self) -> EntryView {
        EntryView { path: self.path@, name: self.name@, link: self.link@, stat: self.stat }
    }
}

impl DeepView for Entry {
    type V = EntryView;

    open spec fn deep_view(&self) -> EntryView {
        self@
    }
}

impl Pathed for Entry {
    open spec fn key(view: EntryView) -> Seq<char> {
        view.path
    }

    fn path_text(&self) -> (path: &str) {
        self.path.as_str()
    }
}

/// One path argument of a listing.
#[derive(Debug)]
pub enum Target {
    /// Anything that is not a directory, listed as itself.
    File(Entry),
    /// A directory, listed by its immediate children. `children` is `None`
    /// where the directory could not be read.
    Directory { path: String, children: Option<Vec<Entry>> },
}

/// A [`Target`] as a plain value.
pub enum TargetView {
    File(EntryView),
    Directory { path: Seq<char>, children: Option<Seq<EntryView>> },
}

impl View for Target {
    type V = TargetView;

    open spec fn view(&self) -> TargetView {
        match self {
            Target::File(e) => TargetView::File(e@),
            Target::Directory { path, children } => TargetView::Directory {
                path: path@,
                children: match children {
                    Some(c) => Some(c.deep_view()),
                    None => None,
                },
            },
        }
    }
}

impl DeepView for Target {
    type V = TargetView;

    open spec fn deep_view(&self) -> TargetView {
        self@
    }
}

} // verus!
