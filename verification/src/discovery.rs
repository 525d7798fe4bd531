//! Discovery: from a file to the package that owns it, and from one package
//! to its siblings.
//!
//! Discovery does not look at the disk. It reads a snapshot: what was found
//! at each configuration document that was tried, and which directories each
//! listed directory holds.

use vstd::prelude::*;
use crate::package::{PackageRoot, PackageRootView, ADDON_DOCUMENT, MISSION_DOCUMENT};
use crate::path::{has_parent, ProjectPath};
use crate::path_map::PathMap;
use crate::table::{DeclarationView, FunctionTable};
use tower_lsp::lsp_types::Url;

verus! {

/// How many components a path must keep for a search to look into it: the
/// search never tries a directory of fewer components than the floor.
pub const DEFAULT_FLOOR: usize = 3;

/// What was found at the path of a configuration document.
#[derive(Debug)]
pub enum Probe {
    /// No document is there.
    Missing,
    /// A document is there, and it does not parse.
    Malformed,
    /// A document is there, with this function table.
    Parsed(FunctionTable),
}

/// What was seen on disk.
pub struct Snapshot {
    /// By the path of a configuration document, what was found there.
    pub documents: PathMap<Probe>,
    /// By the path of a directory, the directories directly in it.
    pub directories: PathMap<Vec<ProjectPath>>,
}

/// A snapshot as contracts speak of it.
pub struct SnapshotView {
    pub documents: Map<Seq<Seq<char>>, Probe>,
    pub directories: Map<Seq<Seq<char>>, Vec<ProjectPath>>,
}

impl View for Snapshot {
    type V = SnapshotView;

    open spec fn view(&self) -> SnapshotView {
        SnapshotView { documents: self.documents@, directories: self.directories@ }
    }
}

impl SnapshotView {
    /// What was found at `document`. A path that was not tried counts as
    /// missing.
    pub open spec fn probe_at(self, document: Seq<Seq<char>>) -> Probe {
        if self.documents.contains_key(document) {
            self.documents[document]
        } else {
            Probe::Missing
        }
    }

    /// The directories in `directory`. A directory that was not listed counts
    /// as empty.
    pub open spec fn listing_at(self, directory: Seq<Seq<char>>) -> Seq<ProjectPath> {
        if self.directories.contains_key(directory) {
            self.directories[directory]@
        } else {
            Seq::empty()
        }
    }
}

impl Snapshot {
    /// The snapshot of a disk of which nothing was seen.
    pub fn new() -> (snapshot: Snapshot)
        ensures
            snapshot@.documents == Map::<Seq<Seq<char>>, Probe>::empty(),
            snapshot@.directories == Map::<Seq<Seq<char>>, Vec<ProjectPath>>::empty(),
    {
        Snapshot { documents: PathMap::new(), directories: PathMap::new() }
    }

    /// Records what was found at `document`.
    pub fn record_probe(&mut self, document: ProjectPath, probe: Probe)
        ensures
            final(self)@.documents == old(self)@.documents.insert(document@, probe),
            final(self)@.directories == old(self)@.directories,
    {
        let _ = self.documents.insert(document, probe);
    }

    /// Records the directories that `directory` holds.
    pub fn record_listing(&mut self, directory: ProjectPath, found: Vec<ProjectPath>)
        ensures
            final(self)@.documents == old(self)@.documents,
            final(self)@.directories == old(self)@.directories.insert(directory@, found),
    {
        let _ = self.directories.insert(directory, found);
    }
}

/// A package as discovery reports it: its root, and its function table.
pub type Found = (PackageRootView, Seq<DeclarationView>);

/// The view of a search result.
pub open spec fn found_view(found: Option<(PackageRoot, FunctionTable)>) -> Option<Found> {
    match found {
        Some((root, table)) => Some((root@, table@)),
        None => None,
    }
}

/// The view of a path that may be absent.
pub open spec fn path_view(path: Option<ProjectPath>) -> Option<Seq<Seq<char>>> {
    match path {
        Some(path) => Some(path@),
        None => None,
    }
}

/// The views of a list of packages, in order.
pub open spec fn roots_view(roots: Seq<(PackageRoot, FunctionTable)>) -> Seq<Found> {
    roots.map_values(|r: (PackageRoot, FunctionTable)| (r.0@, r.1@))
}

/// The upward search from `start` for a document called `name`.
///
/// The search goes from `start` to its parent, and so on, as long as the path
/// it leaves has more components than `floor` and has a parent: the search
/// does not go above the root. At each directory it looks at
/// the document `name` in it. A document that parses ends the search with
/// that directory as the root. A document that does not parse ends it with
/// nothing: the search does not go past a broken document. Where no document
/// is, the search goes on.
pub open spec fn search(snapshot: SnapshotView, start: Seq<Seq<char>>, name: Seq<char>, floor: nat) -> Option<
    Found,
>
    decreases start.len(),
{
    if start.len() <= floor || !has_parent(start) {
        None
    } else {
        let directory = start.drop_last();
        match snapshot.probe_at(directory.push(name)) {
            Probe::Parsed(table) => Some((PackageRootView { directory, document: name }, table@)),
            Probe::Malformed => None,
            Probe::Missing => search(snapshot, directory, name, floor),
        }
    }
}

/// The package that owns `file`: the addon found by searching for
/// `config.cpp`, or else the mission found by searching for `description.ext`.
pub open spec fn identified(snapshot: SnapshotView, file: Seq<Seq<char>>, floor: nat) -> Option<Found> {
    match search(snapshot, file, ADDON_DOCUMENT@, floor) {
        Some(found) => Some(found),
        None => search(snapshot, file, MISSION_DOCUMENT@, floor),
    }
}

/// The packages that the given directories are, in the directories' order: a
/// directory whose own document called `name` parses is a package, with that
/// directory as its root and that document's table. A directory without such
/// a document, or with one that does not parse, is passed over, and nothing
/// stands in its place.
pub open spec fn roots_from(snapshot: SnapshotView, directories: Seq<ProjectPath>, name: Seq<char>) -> Seq<
    Found,
>
    decreases directories.len(),
{
    if directories.len() == 0 {
        Seq::empty()
    } else {
        let front = roots_from(snapshot, directories.drop_last(), name);
        let directory = directories.last()@;
        match snapshot.probe_at(directory.push(name)) {
            Probe::Parsed(table) => front.push(
                (PackageRootView { directory, document: name }, table@),
            ),
            _ => front,
        }
    }
}

/// The packages of the workspace around `start`: where the search from
/// `start` finds a package, the packages among the directories that the
/// package's container holds. Where it finds none, there are none.
pub open spec fn siblings(snapshot: SnapshotView, start: Seq<Seq<char>>, name: Seq<char>, floor: nat) -> Seq<
    Found,
> {
    match search(snapshot, start, name, floor) {
        Some((first, _)) => roots_from(snapshot, snapshot.listing_at(first.container()), name),
        None => Seq::empty(),
    }
}

/// The addons and then the missions of the workspace around `start`. Without
/// a path to start from there are none.
pub open spec fn workspace(snapshot: SnapshotView, start: Option<Seq<Seq<char>>>, floor: nat) -> Seq<
    Found,
> {
    match start {
        Some(path) => siblings(snapshot, path, ADDON_DOCUMENT@, floor) + siblings(
            snapshot,
            path,
            MISSION_DOCUMENT@,
            floor,
        ),
        None => Seq::empty(),
    }
}

/// Searches upward from `addon_path` for the nearest directory with a
/// document called `name`.
pub fn identify_(addon_path: ProjectPath, name: &str, floor: usize, snapshot: &Snapshot) -> (found:
    Option<(PackageRoot, FunctionTable)>)
    ensures
        found_view(found) == search(snapshot@, addon_path@, name@, floor as nat),
{
    let ghost start = addon_path@;
    let mut directory = addon_path;
    loop
        invariant
            start == addon_path@,
            search(snapshot@, directory@, name@, floor as nat) == search(
                snapshot@,
                start,
                name@,
                floor as nat,
            ),
        decreases directory@.len(),
    {
        let ghost from = directory@;
        if directory.depth() <= floor {
            return None;
        }
        if !directory.pop() {
            return None;
        }
        let document = directory.join(name);
        assert(document@ == from.drop_last().push(name@));
        match snapshot.documents.get(&document) {
            Some(Probe::Parsed(table)) => {
                let root = PackageRoot { directory, document: String::from_str(name) };
                return Some((root, table.clone()));
            },
            Some(Probe::Malformed) => {
                return None;
            },
            Some(Probe::Missing) => {},
            None => {},
        }
    }
}

/// Finds the package that owns the file at `file_path`: an addon if there is
/// one above the file, else a mission.
pub fn identify(file_path: ProjectPath, floor: usize, snapshot: &Snapshot) -> (found: Option<
    (PackageRoot, FunctionTable),
>)
    ensures
        found_view(found) == identified(snapshot@, file_path@, floor as nat),
{
    match identify_(file_path.clone(), ADDON_DOCUMENT, floor, snapshot) {
        Some(found) => Some(found),
        None => identify_(file_path, MISSION_DOCUMENT, floor, snapshot),
    }
}

/// Finds the packages of the workspace around `addon_path` whose document is
/// called `name`.
pub fn find_(addon_path: ProjectPath, name: &str, floor: usize, snapshot: &Snapshot) -> (roots: Vec<
    (PackageRoot, FunctionTable),
>)
    ensures
        roots_view(roots@) == siblings(snapshot@, addon_path@, name@, floor as nat),
{
    let mut roots: Vec<(PackageRoot, FunctionTable)> = Vec::new();
    let first = match identify_(addon_path, name, floor, snapshot) {
        Some((first, _)) => first,
        None => {
            assert(roots_view(roots@) =~= Seq::<Found>::empty());
            return roots;
        },
    };
    let container = first.container();
    let listed = match snapshot.directories.get(&container) {
        Some(listed) => listed,
        None => {
            assert(roots_view(roots@) =~= Seq::<Found>::empty());
            return roots;
        },
    };
    let mut i: usize = 0;
    assert(listed@.take(0) =~= Seq::<ProjectPath>::empty());
    assert(roots_view(roots@) =~= Seq::<Found>::empty());
    while i < listed.len()
        invariant
            i <= listed.len(),
            roots_view(roots@) == roots_from(snapshot@, listed@.take(i as int), name@),
        decreases listed.len() - i,
    {
        let ghost before = roots_view(roots@);
        proof {
            assert(listed@.take(i + 1).drop_last() =~= listed@.take(i as int));
            assert(listed@.take(i + 1).last() == listed@[i as int]);
        }
        match snapshot.documents.get(&listed[i].join(name)) {
            Some(Probe::Parsed(table)) => {
                let root = PackageRoot {
                    directory: listed[i].clone(),
                    document: String::from_str(name),
                };
                let found = (root, table.clone());
                roots.push(found);
                assert(roots_view(roots@) =~= before.push((found.0@, found.1@)));
            },
            _ => {},
        }
        i += 1;
    }
    assert(listed@.take(listed@.len() as int) =~= listed@);
    roots
}

/// Finds the addons and the missions of the workspace around `start`.
pub fn find_from(start: Option<ProjectPath>, floor: usize, snapshot: &Snapshot) -> (roots: Vec<
    (PackageRoot, FunctionTable),
>)
    ensures
        roots_view(roots@) == workspace(snapshot@, path_view(start), floor as nat),
{
    match start {
        Some(path) => {
            let mut roots = find_(path.clone(), ADDON_DOCUMENT, floor, snapshot);
            let mut missions = find_(path, MISSION_DOCUMENT, floor, snapshot);
            let ghost addons = roots_view(roots@);
            let ghost others = roots_view(missions@);
            roots.append(&mut missions);
            assert(roots_view(roots@) =~= addons + others);
            roots
        },
        None => {
            let roots: Vec<(PackageRoot, FunctionTable)> = Vec::new();
            assert(roots_view(roots@) =~= Seq::<Found>::empty());
            roots
        },
    }
}

/// `url::Url`, which `tower_lsp` hands on as `lsp_types::Url`. Nothing is
/// known here of what a value of it holds.
#[verifier::external_type_specification]
#[verifier::external_body]
pub struct ExUrl(Url);

/// What `Url::to_file_path` of the crate `url` returns for a URL: the local
/// path that the URL stands for, taken by its components, or nothing where
/// the URL stands for no local path. The call reads the URL and nothing else.
pub uninterp spec fn url_file_path(url: Url) -> Option<Seq<Seq<char>>>;

/// `Url::to_file_path` of the crate `url`, which `tower_lsp` hands on. The
/// result is the path that the call returns, turned into its components.
/// Which path that is for which URL is not said here: it has the name
/// `url_file_path`.
#[verifier::external_body]
pub(crate) fn file_path(url: &Url) -> (path: Option<ProjectPath>)
    ensures
        path_view(path) == url_file_path(*url),
{
    match url.to_file_path() {
        Ok(path) => {
            let mut components: Vec<String> = Vec::new();
            for component in path.components() {
                components.push(component.as_os_str().to_string_lossy().into_owned());
            }
            Some(ProjectPath { components })
        },
        Err(_) => None,
    }
}

/// Finds the addons and the missions of the workspace around the file that
/// `url` names: what `find_` finds for `config.cpp` from the path of the URL,
/// followed by what it finds for `description.ext`. A URL that stands for no
/// local path gives none.
pub fn find(url: &Url, floor: usize, snapshot: &Snapshot) -> (roots: Vec<(PackageRoot, FunctionTable)>)
    ensures
        roots_view(roots@) == workspace(snapshot@, url_file_path(*url), floor as nat),
{
    find_from(file_path(url), floor, snapshot)
}

} // verus!
