//! The plain values that planning functions take and return.

use vstd::prelude::*;

verus! {

/// What was found at a path when the caller looked.
#[derive(Clone, Copy, Debug, PartialEq, Eq, Structural)]
pub enum EntryKind {
    /// Nothing is there.
    Missing,
    /// A regular file.
    File,
    /// A directory.
    Directory,
    /// Something that is neither a regular file nor a directory.
    Other,
}

impl EntryKind {
    /// Whether anything is there.
    pub fn is_present(self) -> (r: bool)
        ensures
            r == !(self is Missing),
    {
        match self {
            EntryKind::Missing => false,
            _ => true,
        }
    }

    /// Whether a directory is there.
    pub fn is_dir(self) -> (r: bool)
        ensures
            r == (self is Directory),
    {
        match self {
            EntryKind::Directory => true,
            _ => false,
        }
    }
}

/// A path together with what was found there.
#[derive(Clone, Debug, PartialEq, Eq)]
pub struct ProbedPath {
    pub path: String,
    pub kind: EntryKind,
}

/// The model of a `ProbedPath`.
pub struct ProbedPathView {
    pub path: Seq<char>,
    pub kind: EntryKind,
}

impl View for ProbedPath {
    type V = ProbedPathView;

    open spec fn view(&self) -> ProbedPathView {
        ProbedPathView { path: self.path@, kind: self.kind }
    }
}

/// Where an entry ends up after a rename or a move.
#[derive(Clone, Debug, PartialEq, Eq)]
pub enum Relocation {
    /// Nothing has to be done; the entry stays at `path`.
    Unchanged { path: String },
    /// The entry at `from` has to be renamed to `to`, which was found free.
    Rename { from: String, to: String },
}

/// The model of a `Relocation`.
pub enum RelocationView {
    Unchanged { path: Seq<char> },
    Rename { from: Seq<char>, to: Seq<char> },
}

impl View for Relocation {
    type V = RelocationView;

    open spec fn view(&self) -> RelocationView {
        match *self {
            Relocation::Unchanged { path } => RelocationView::Unchanged { path: path@ },
            Relocation::Rename { from, to } => RelocationView::Rename { from: from@, to: to@ },
        }
    }
}

impl Relocation {
    /// The path at which the entry is found once the plan is carried out.
    pub fn final_path(&self) -> (r: &String)
        ensures
            r@ == match self@ {
                RelocationView::Unchanged { path } => path,
                RelocationView::Rename { from, to } => to,
            },
    {
        match self {
            Relocation::Unchanged { path } => path,
            Relocation::Rename { from, to } => to,
        }
    }
}

/// How an entry has to be removed.
#[derive(Clone, Debug, PartialEq, Eq)]
pub enum Removal {
    /// Remove the single entry at `path`.
    File { path: String },
    /// Remove the directory at `path` with everything below it.
    Tree { path: String },
}

/// The model of a `Removal`.
pub enum RemovalView {
    File { path: Seq<char> },
    Tree { path: Seq<char> },
}

impl View for Removal {
    type V = RemovalView;

    open spec fn view(&self) -> RemovalView {
        match *self {
            Removal::File { path } => RemovalView::File { path: path@ },
            Removal::Tree { path } => RemovalView::Tree { path: path@ },
        }
    }
}

/// A file that has to be written.
#[derive(Clone, Debug, PartialEq, Eq)]
pub struct FileWrite {
    pub path: String,
    pub content: String,
}

/// The model of a `FileWrite`.
pub struct FileWriteView {
    pub path: Seq<char>,
    pub content: Seq<char>,
}

impl View for FileWrite {
    type V = FileWriteView;

    open spec fn view(&self) -> FileWriteView {
        FileWriteView { path: self.path@, content: self.content@ }
    }
}

/// One copy of a batch: the entry at `from` goes to `to`, as a directory tree
/// when `is_dir` is set and as a single file otherwise.
#[derive(Clone, Debug, PartialEq, Eq)]
pub struct CopyStep {
    pub from: String,
    pub to: String,
    pub is_dir: bool,
}

/// The model of a `CopyStep`.
pub struct CopyStepView {
    pub from: Seq<char>,
    pub to: Seq<char>,
    pub is_dir: bool,
}

impl View for CopyStep {
    type V = CopyStepView;

    open spec fn view(&self) -> CopyStepView {
        CopyStepView { from: self.from@, to: self.to@, is_dir: self.is_dir }
    }
}

} // verus!
