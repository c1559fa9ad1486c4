//! Packages and the capability that installs them.

use crate::error::{IoFailure, IoFailureView};
use vstd::prelude::*;
use vstd::string::StringExecFns;

pub mod apt;
pub mod archlinux;

verus! {

/// A package to install, by name.
#[derive(Debug, PartialEq)]
pub struct Package {
    pub name: String,
}

pub ghost struct PackageView {
    pub name: Seq<char>,
}

impl View for Package {
    type V = PackageView;

    open spec fn view(&self) -> PackageView {
        PackageView { name: self.name@ }
    }
}

impl DeepView for Package {
    type V = PackageView;

    open spec fn deep_view(&self) -> PackageView {
        self@
    }
}

impl Clone for Package {
    fn clone(&self) -> (copy: Package)
        ensures
            copy@ == self@,
    {
        Package { name: self.name.clone() }
    }
}

impl Package {
    pub fn new(name: &str) -> (package: Package)
        ensures
            package@.name == name@,
    {
        Package { name: name.to_owned() }
    }
}

/// Why a package was not installed.
#[derive(Debug, PartialEq)]
pub enum Error {
    /// The installer ran and reported failure for this package.
    PacmanSync(String),
    /// The package manager could not be run at all.
    Io(IoFailure),
    /// The package has no name.
    EmptyName,
    /// The host answered something other than what it was asked.
    UnexpectedReply,
}

pub ghost enum ErrorView {
    PacmanSync(Seq<char>),
    Io(IoFailureView),
    EmptyName,
    UnexpectedReply,
}

impl View for Error {
    type V = ErrorView;

    open spec fn view(&self) -> ErrorView {
        match self {
            Error::PacmanSync(name) => ErrorView::PacmanSync(name@),
            Error::Io(failure) => ErrorView::Io(failure@),
            Error::EmptyName => ErrorView::EmptyName,
            Error::UnexpectedReply => ErrorView::UnexpectedReply,
        }
    }
}

impl ErrorView {
    /// The text shown to the user for this error.
    pub open spec fn message(self) -> Seq<char> {
        match self {
            ErrorView::PacmanSync(name) => "Unable to install package "@ + name,
            ErrorView::Io(failure) => failure.message,
            ErrorView::EmptyName => "Empty package name"@,
            ErrorView::UnexpectedReply => "Unexpected reply from the host"@,
        }
    }
}

impl Error {
    /// The text shown to the user for this error.
    pub fn message(&self) -> (text: String)
        ensures
            text@ == self@.message(),
    {
        match self {
            Error::PacmanSync(name) => String::from_str("Unable to install package ").concat(
                name.as_str(),
            ),
            Error::Io(failure) => failure.message.clone(),
            Error::EmptyName => String::from_str("Empty package name"),
            Error::UnexpectedReply => String::from_str("Unexpected reply from the host"),
        }
    }
}

/// The capability to install a package. The engine is handed one and calls
/// nothing else of the package manager; what an implementation does is its
/// own affair, so nothing is promised here about the result.
pub trait PackageManagement {
    fn install(&self, package: &Package) -> Result<(), Error>;
}

} // verus!
