//! A declarative provisioning engine: a descriptor lists named groups of
//! bundles, and each bundle may install a package, make a link and run a
//! command, in that order.
//!
//! The library decides; it never touches the machine. Whatever needs the
//! filesystem or a subprocess is handed to the caller as a request, and the
//! caller hands back what happened.

pub mod cli;
pub mod config;
pub mod error;
pub mod host;
pub mod pacman;
pub mod path;
pub mod procedure;
pub mod runner;
pub mod shell;
pub mod symlink;
pub mod traces;
pub mod yaml;

pub use crate::pacman::PackageManagement;
