//! A backend that takes every package as installed.

use crate::pacman::{Error, Package, PackageManagement};
use vstd::prelude::*;

verus! {

pub struct Apt;

impl Apt {
    pub fn new() -> Apt {
        Apt
    }
}

impl PackageManagement for Apt {
    fn install(&self, _package: &Package) -> (r: Result<(), Error>)
        ensures
            r is Ok,
    {
        Ok(())
    }
}

} // verus!
