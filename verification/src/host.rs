//! The conversation between the engine and whoever runs it.
//!
//! The engine asks for one thing at a time with a [`Request`]; the host does
//! it and answers with a [`Reply`]. Nothing else passes between them.

use crate::error::{IoFailure, IoFailureView};
use vstd::prelude::*;

verus! {

/// Where one of a subprocess's output streams goes.
#[derive(Debug, Clone, Copy, PartialEq, Eq, Structural)]
pub enum Stream {
    /// The stream of the engine's own process.
    Inherit,
    /// Nowhere.
    Null,
    /// Into the [`Output`] that is handed back.
    Capture,
}

/// A subprocess to spawn and wait for.
#[derive(Debug, PartialEq, Eq)]
pub struct Invocation {
    pub program: String,
    pub args: Vec<String>,
    pub stdout: Stream,
    pub stderr: Stream,
}

pub ghost struct InvocationView {
    pub program: Seq<char>,
    pub args: Seq<Seq<char>>,
    pub stdout: Stream,
    pub stderr: Stream,
}

impl View for Invocation {
    type V = InvocationView;

    open spec fn view(&self) -> InvocationView {
        InvocationView {
            program: self.program@,
            args: self.args.deep_view(),
            stdout: self.stdout,
            stderr: self.stderr,
        }
    }
}

/// What a subprocess left behind.
#[derive(Debug, PartialEq, Eq)]
pub struct Output {
    /// Whether it exited with status zero.
    pub success: bool,
    /// Its exit code, if it exited by itself.
    pub code: Option<i32>,
    /// What it wrote to a captured standard output.
    pub stdout: Vec<u8>,
    /// What it wrote to a captured standard error.
    pub stderr: Vec<u8>,
}

pub ghost struct OutputView {
    pub success: bool,
    pub code: Option<i32>,
    pub stdout: Seq<u8>,
    pub stderr: Seq<u8>,
}

impl View for Output {
    type V = OutputView;

    open spec fn view(&self) -> OutputView {
        OutputView {
            success: self.success,
            code: self.code,
            stdout: self.stdout@,
            stderr: self.stderr@,
        }
    }
}

/// One child of a directory that was listed.
#[derive(Debug, PartialEq, Eq)]
pub struct Entry {
    /// The child's full path.
    pub path: String,
    /// The last component of that path, if it has one.
    pub name: Option<String>,
}

pub ghost struct EntryView {
    pub path: Seq<char>,
    pub name: Option<Seq<char>>,
}

impl View for Entry {
    type V = EntryView;

    open spec fn view(&self) -> EntryView {
        EntryView { path: self.path@, name: self.name.deep_view() }
    }
}

impl DeepView for Entry {
    type V = EntryView;

    open spec fn deep_view(&self) -> EntryView {
        self@
    }
}

/// One thing the engine asks its host to do.
#[derive(Debug, PartialEq, Eq)]
pub enum Request {
    /// Does this path lead to anything? A link that leads nowhere does not.
    /// Answered by [`Reply::Flag`].
    Exists(String),
    /// Is anything at this path, be it a link that leads nowhere? Answered
    /// by [`Reply::Flag`].
    Present(String),
    /// Is this path a directory? Answered by [`Reply::Flag`].
    IsDir(String),
    /// List the children of this directory. Answered by [`Reply::Entries`].
    ReadDir(String),
    /// Remove this file. Answered by [`Reply::Done`].
    RemoveFile(String),
    /// Create this directory and every missing ancestor. Answered by [`Reply::Done`].
    CreateDirAll(String),
    /// Create this one directory. Answered by [`Reply::Done`].
    CreateDir(String),
    /// Create a symbolic link at `dst` that points to `src`. Answered by [`Reply::Done`].
    Symlink { src: String, dst: String },
    /// Spawn this subprocess and wait for it. Answered by [`Reply::Exited`].
    Spawn(Invocation),
}

pub ghost enum RequestView {
    Exists(Seq<char>),
    Present(Seq<char>),
    IsDir(Seq<char>),
    ReadDir(Seq<char>),
    RemoveFile(Seq<char>),
    CreateDirAll(Seq<char>),
    CreateDir(Seq<char>),
    Symlink { src: Seq<char>, dst: Seq<char> },
    Spawn(InvocationView),
}

impl View for Request {
    type V = RequestView;

    open spec fn view(&self) -> RequestView {
        match self {
            Request::Exists(p) => RequestView::Exists(p@),
            Request::Present(p) => RequestView::Present(p@),
            Request::IsDir(p) => RequestView::IsDir(p@),
            Request::ReadDir(p) => RequestView::ReadDir(p@),
            Request::RemoveFile(p) => RequestView::RemoveFile(p@),
            Request::CreateDirAll(p) => RequestView::CreateDirAll(p@),
            Request::CreateDir(p) => RequestView::CreateDir(p@),
            Request::Symlink { src, dst } => RequestView::Symlink { src: src@, dst: dst@ },
            Request::Spawn(i) => RequestView::Spawn(i@),
        }
    }
}

impl RequestView {
    /// The path that the request is about: for a link, where it is made;
    /// for a subprocess, its program.
    pub open spec fn path(self) -> Seq<char> {
        match self {
            RequestView::Exists(path) => path,
            RequestView::Present(path) => path,
            RequestView::IsDir(path) => path,
            RequestView::ReadDir(path) => path,
            RequestView::RemoveFile(path) => path,
            RequestView::CreateDirAll(path) => path,
            RequestView::CreateDir(path) => path,
            RequestView::Symlink { src, dst } => dst,
            RequestView::Spawn(command) => command.program,
        }
    }

    /// A request that changes the filesystem.
    pub open spec fn changes_files(self) -> bool {
        self is RemoveFile || self is CreateDirAll || self is CreateDir || self is Symlink
    }
}

/// What the host answers to a [`Request`].
#[derive(Debug, PartialEq, Eq)]
pub enum Reply {
    /// The answer to a yes-or-no question.
    Flag(bool),
    /// The children of a directory, in the order the system listed them.
    Entries(Vec<Entry>),
    /// The change was made.
    Done,
    /// The subprocess ran and exited, with whatever status.
    Exited(Output),
    /// The operation, or the spawn, failed.
    Failed(IoFailure),
}

pub ghost enum ReplyView {
    Flag(bool),
    Entries(Seq<EntryView>),
    Done,
    Exited(OutputView),
    Failed(IoFailureView),
}

impl View for Reply {
    type V = ReplyView;

    open spec fn view(&self) -> ReplyView {
        match self {
            Reply::Flag(b) => ReplyView::Flag(*b),
            Reply::Entries(entries) => ReplyView::Entries(entries.deep_view()),
            Reply::Done => ReplyView::Done,
            Reply::Exited(output) => ReplyView::Exited(output@),
            Reply::Failed(failure) => ReplyView::Failed(failure@),
        }
    }
}

} // verus!
