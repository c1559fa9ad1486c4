//! Errors that cross module boundaries, and the plain-value form of an
//! operating-system error.

use vstd::prelude::*;
use vstd::string::StringExecFns;

verus! {

/// The kinds of operating-system error the engine tells apart.
#[derive(Debug, Clone, Copy, PartialEq, Eq, Structural)]
pub enum IoKind {
    NotFound,
    PermissionDenied,
    AlreadyExists,
    Other,
}

/// An operating-system error as plain values: its kind and its message.
#[derive(Debug, PartialEq, Eq)]
pub struct IoFailure {
    pub kind: IoKind,
    pub message: String,
}

pub ghost struct IoFailureView {
    pub kind: IoKind,
    pub message: Seq<char>,
}

impl View for IoFailure {
    type V = IoFailureView;

    open spec fn view(&self) -> IoFailureView {
        IoFailureView { kind: self.kind, message: self.message@ }
    }
}

impl DeepView for IoFailure {
    type V = IoFailureView;

    open spec fn deep_view(&self) -> IoFailureView {
        self@
    }
}

impl Clone for IoFailure {
    fn clone(&self) -> (copy: IoFailure)
        ensures
            copy@ == self@,
    {
        IoFailure { kind: self.kind, message: self.message.clone() }
    }
}

/// A variable that could not be looked up while a path was expanded.
#[derive(Debug, PartialEq, Eq)]
pub struct LookupFailure {
    /// The variable's name as it stands in the path.
    pub var_name: String,
    /// Why the lookup failed.
    pub cause: String,
}

pub ghost struct LookupFailureView {
    pub var_name: Seq<char>,
    pub cause: Seq<char>,
}

impl View for LookupFailure {
    type V = LookupFailureView;

    open spec fn view(&self) -> LookupFailureView {
        LookupFailureView { var_name: self.var_name@, cause: self.cause@ }
    }
}

/// Everything that can go wrong while a link is made.
#[derive(Debug, PartialEq, Eq)]
pub enum IpaError {
    /// A filesystem operation failed on `path`.
    Io { path: String, cause: IoFailure },
    /// A path could not be expanded.
    InvalidPath(LookupFailure),
    /// The source of a link does not exist.
    SourceNotFound(String),
    /// The host answered something other than what it was asked.
    UnexpectedReply,
}

pub ghost enum IpaErrorView {
    Io { path: Seq<char>, cause: IoFailureView },
    InvalidPath(LookupFailureView),
    SourceNotFound(Seq<char>),
    UnexpectedReply,
}

impl View for IpaError {
    type V = IpaErrorView;

    open spec fn view(&self) -> IpaErrorView {
        match self {
            IpaError::Io { path, cause } => IpaErrorView::Io { path: path@, cause: cause@ },
            IpaError::InvalidPath(e) => IpaErrorView::InvalidPath(e@),
            IpaError::SourceNotFound(p) => IpaErrorView::SourceNotFound(p@),
            IpaError::UnexpectedReply => IpaErrorView::UnexpectedReply,
        }
    }
}

impl IpaErrorView {
    /// The text shown to the user for this error.
    pub open spec fn message(self) -> Seq<char> {
        match self {
            IpaErrorView::Io { path, cause } => path + ": "@ + cause.message,
            IpaErrorView::InvalidPath(e) => "Invalid path: error looking key '"@ + e.var_name
                + "' up: "@ + e.cause,
            IpaErrorView::SourceNotFound(p) => "source file of link does not exists: "@ + p,
            IpaErrorView::UnexpectedReply => "Unexpected reply from the host"@,
        }
    }
}

impl IpaError {
    /// The text shown to the user for this error.
    pub fn message(&self) -> (text: String)
        ensures
            text@ == self@.message(),
    {
        match self {
            IpaError::Io { path, cause } => path.clone().concat(": ").concat(
                cause.message.as_str(),
            ),
            IpaError::InvalidPath(e) => String::from_str("Invalid path: error looking key '").concat(
                e.var_name.as_str(),
            ).concat("' up: ").concat(e.cause.as_str()),
            IpaError::SourceNotFound(p) => String::from_str(
                "source file of link does not exists: ",
            ).concat(p.as_str()),
            IpaError::UnexpectedReply => String::from_str("Unexpected reply from the host"),
        }
    }
}

} // verus!
