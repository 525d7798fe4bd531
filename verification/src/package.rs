//! Package roots.

use vstd::prelude::*;
use crate::path::{has_parent, ProjectPath};

verus! {

/// The name of the configuration document of an addon.
pub const ADDON_DOCUMENT: &'static str = "config.cpp";

/// The name of the configuration document of a mission.
pub const MISSION_DOCUMENT: &'static str = "description.ext";

/// The root of a package: its directory, and the name of the configuration
/// document found there.
#[derive(Debug, PartialEq, Eq)]
pub struct PackageRoot {
    pub directory: ProjectPath,
    pub document: String,
}

/// A package root as contracts speak of it.
pub struct PackageRootView {
    pub directory: Seq<Seq<char>>,
    pub document: Seq<char>,
}

impl PackageRootView {
    /// The path of the configuration document.
    pub open spec fn document_path(self) -> Seq<Seq<char>> {
        self.directory.push(self.document)
    }

    /// The directory that holds the package and its siblings: the parent of
    /// the package's directory. A package whose directory has no parent has
    /// nothing above it and stands for its own container.
    pub open spec fn container(self) -> Seq<Seq<char>> {
        if has_parent(self.directory) {
            self.directory.drop_last()
        } else {
            self.directory
        }
    }
}

impl View for PackageRoot {
    type V = PackageRootView;

    open spec fn view(&self) -> PackageRootView {
        PackageRootView { directory: self.directory@, document: self.document@ }
    }
}

impl Clone for PackageRoot {
    fn clone(&self) -> (copy: PackageRoot)
        ensures
            copy@ == self@,
    {
        PackageRoot { directory: self.directory.clone(), document: self.document.clone() }
    }
}

impl PackageRoot {
    /// The path of the configuration document.
    pub fn document_path(&self) -> (path: ProjectPath)
        ensures
            path@ == self@.document_path(),
    {
        self.directory.join(self.document.as_str())
    }

    /// The directory that holds the package and its siblings.
    pub fn container(&self) -> (path: ProjectPath)
        ensures
            path@ == self@.container(),
    {
        let mut path = self.directory.clone();
        let _ = path.pop();
        path
    }
}

} // verus!
