//! Surveying: what a discovery still has to see of the disk before its answer
//! stands.
//!
//! A caller with a disk at hand starts from an empty snapshot, asks what is
//! needed, looks, records what it saw, and asks again. When nothing more is
//! needed, the answer that discovery reads off the snapshot is final.

use vstd::prelude::*;
use crate::discovery::{file_path, path_view, search, url_file_path, Probe, Snapshot, SnapshotView};
use crate::package::{ADDON_DOCUMENT, MISSION_DOCUMENT};
use crate::path::{has_parent, ProjectPath};
use tower_lsp::lsp_types::Url;

verus! {

/// One look at the disk.
#[derive(Debug, PartialEq, Eq)]
pub enum Request {
    /// Try to read and parse the configuration document at this path.
    Probe(ProjectPath),
    /// List the directories that the directory at this path holds.
    List(ProjectPath),
}

/// A request as contracts speak of it.
pub enum RequestView {
    Probe(Seq<Seq<char>>),
    List(Seq<Seq<char>>),
}

impl View for Request {
    type V = RequestView;

    open spec fn view(&self) -> RequestView {
        match *self {
            Request::Probe(document) => RequestView::Probe(document@),
            Request::List(directory) => RequestView::List(directory@),
        }
    }
}

/// The view of a request that may be absent.
pub open spec fn request_view(request: Option<Request>) -> Option<RequestView> {
    match request {
        Some(request) => Some(request@),
        None => None,
    }
}

/// The request to probe a document, where there is one to probe.
pub open spec fn probe_of(document: Option<Seq<Seq<char>>>) -> Option<RequestView> {
    match document {
        Some(document) => Some(RequestView::Probe(document)),
        None => None,
    }
}

/// Whether the snapshot says nothing yet of what `request` asks for.
pub open spec fn unseen(snapshot: SnapshotView, request: RequestView) -> bool {
    match request {
        RequestView::Probe(document) => !snapshot.documents.contains_key(document),
        RequestView::List(directory) => !snapshot.directories.contains_key(directory),
    }
}

/// Whether `later` says all that `earlier` says: it may have seen more of the
/// disk, and has seen nothing differently.
pub open spec fn extends(later: SnapshotView, earlier: SnapshotView) -> bool {
    &&& forall|document: Seq<Seq<char>>| #[trigger]
        earlier.documents.contains_key(document) ==> later.documents.contains_key(document)
            && later.documents[document] == earlier.documents[document]
    &&& forall|directory: Seq<Seq<char>>| #[trigger]
        earlier.directories.contains_key(directory) ==> later.directories.contains_key(directory)
            && later.directories[directory] == earlier.directories[directory]
}

/// The document that the search from `start` has to see next: the nearest
/// one above `start` that the snapshot says nothing of, unless a nearer one
/// ends the search. None when the search needs no more.
pub open spec fn search_request(
    snapshot: SnapshotView,
    start: Seq<Seq<char>>,
    name: Seq<char>,
    floor: nat,
) -> Option<Seq<Seq<char>>>
    decreases start.len(),
{
    if start.len() <= floor || !has_parent(start) {
        None
    } else {
        let document = start.drop_last().push(name);
        if !snapshot.documents.contains_key(document) {
            Some(document)
        } else {
            match snapshot.documents[document] {
                Probe::Missing => search_request(snapshot, start.drop_last(), name, floor),
                _ => None,
            }
        }
    }
}

/// What finding the owner of `file` has to see next: what the search for an
/// addon needs, and once that search has ended without a package, what the
/// search for a mission needs.
pub open spec fn identify_request(snapshot: SnapshotView, file: Seq<Seq<char>>, floor: nat) -> Option<
    RequestView,
> {
    match search_request(snapshot, file, ADDON_DOCUMENT@, floor) {
        Some(document) => Some(RequestView::Probe(document)),
        None => if search(snapshot, file, ADDON_DOCUMENT@, floor) is Some {
            None
        } else {
            probe_of(search_request(snapshot, file, MISSION_DOCUMENT@, floor))
        },
    }
}

/// The document that has to be seen next to tell which of the given
/// directories are packages: the own document of the first directory of whose
/// document the snapshot says nothing.
pub open spec fn directories_request(
    snapshot: SnapshotView,
    directories: Seq<ProjectPath>,
    name: Seq<char>,
) -> Option<Seq<Seq<char>>>
    decreases directories.len(),
{
    if directories.len() == 0 {
        None
    } else {
        let document = directories.first()@.push(name);
        if !snapshot.documents.contains_key(document) {
            Some(document)
        } else {
            directories_request(snapshot, directories.drop_first(), name)
        }
    }
}

/// What finding the siblings around `start` has to see next: first what the
/// search from `start` needs; then, if that search found a package, the
/// listing of the package's container; then the own document of each listed
/// directory.
pub open spec fn siblings_request(
    snapshot: SnapshotView,
    start: Seq<Seq<char>>,
    name: Seq<char>,
    floor: nat,
) -> Option<RequestView> {
    match search_request(snapshot, start, name, floor) {
        Some(document) => Some(RequestView::Probe(document)),
        None => match search(snapshot, start, name, floor) {
            Some((first, _)) => if !snapshot.directories.contains_key(first.container()) {
                Some(RequestView::List(first.container()))
            } else {
                probe_of(
                    directories_request(snapshot, snapshot.directories[first.container()]@, name),
                )
            },
            None => None,
        },
    }
}

/// What finding the workspace around `start` has to see next: what finding
/// the addons needs, then what finding the missions needs.
pub open spec fn workspace_request(
    snapshot: SnapshotView,
    start: Option<Seq<Seq<char>>>,
    floor: nat,
) -> Option<RequestView> {
    match start {
        Some(path) => match siblings_request(snapshot, path, ADDON_DOCUMENT@, floor) {
            Some(request) => Some(request),
            None => siblings_request(snapshot, path, MISSION_DOCUMENT@, floor),
        },
        None => None,
    }
}

/// Says which document `identify_` has to see next, if any.
pub fn search_needs(start: &ProjectPath, name: &str, floor: usize, snapshot: &Snapshot) -> (document:
    Option<ProjectPath>)
    ensures
        path_view(document) == search_request(snapshot@, start@, name@, floor as nat),
{
    let mut directory = start.clone();
    loop
        invariant
            search_request(snapshot@, directory@, name@, floor as nat) == search_request(
                snapshot@,
                start@,
                name@,
                floor as nat,
            ),
        decreases directory@.len(),
    {
        let ghost from = directory@;
        if directory.depth() <= floor {
            return None;
        }
        if !directory.pop() {
            return None;
        }
        let document = directory.join(name);
        assert(document@ == from.drop_last().push(name@));
        match snapshot.documents.get(&document) {
            None => {
                return Some(document);
            },
            Some(Probe::Missing) => {},
            Some(_) => {
                return None;
            },
        }
    }
}

/// Says what `identify` has to see next, if anything.
pub fn identify_needs(file_path: &ProjectPath, floor: usize, snapshot: &Snapshot) -> (request:
    Option<Request>)
    ensures
        request_view(request) == identify_request(snapshot@, file_path@, floor as nat),
{
    match search_needs(file_path, ADDON_DOCUMENT, floor, snapshot) {
        Some(document) => Some(Request::Probe(document)),
        None => {
            match crate::discovery::identify_(file_path.clone(), ADDON_DOCUMENT, floor, snapshot) {
                Some(_) => None,
                None => match search_needs(file_path, MISSION_DOCUMENT, floor, snapshot) {
                    Some(document) => Some(Request::Probe(document)),
                    None => None,
                },
            }
        },
    }
}

/// Says what `find_` has to see next, if anything.
#[verifier::loop_isolation(false)]
pub fn siblings_need(start: &ProjectPath, name: &str, floor: usize, snapshot: &Snapshot) -> (request:
    Option<Request>)
    ensures
        request_view(request) == siblings_request(snapshot@, start@, name@, floor as nat),
{
    match search_needs(start, name, floor, snapshot) {
        Some(document) => {
            return Some(Request::Probe(document));
        },
        None => {},
    }
    let first = match crate::discovery::identify_(start.clone(), name, floor, snapshot) {
        Some((first, _)) => first,
        None => {
            return None;
        },
    };
    let container = first.container();
    let listed = match snapshot.directories.get(&container) {
        Some(listed) => listed,
        None => {
            return Some(Request::List(container));
        },
    };
    let mut i: usize = 0;
    assert(listed@.skip(0) =~= listed@);
    while i < listed.len()
        invariant
            i <= listed.len(),
            directories_request(snapshot@, listed@.skip(i as int), name@) == directories_request(
                snapshot@,
                listed@,
                name@,
            ),
        decreases listed.len() - i,
    {
        proof {
            assert(listed@.skip(i as int).first() == listed@[i as int]);
            assert(listed@.skip(i as int).drop_first() =~= listed@.skip(i + 1));
        }
        let document = listed[i].join(name);
        if !snapshot.documents.contains(&document) {
            return Some(Request::Probe(document));
        }
        i += 1;
    }
    None
}

/// Says what `find_from` has to see next for the workspace around `start`,
/// if anything.
pub fn workspace_needs(start: Option<&ProjectPath>, floor: usize, snapshot: &Snapshot) -> (request:
    Option<Request>)
    ensures
        request_view(request) == workspace_request(
            snapshot@,
            match start {
                Some(path) => Some(path@),
                None => None,
            },
            floor as nat,
        ),
{
    match start {
        Some(path) => match siblings_need(path, ADDON_DOCUMENT, floor, snapshot) {
            Some(request) => Some(request),
            None => siblings_need(path, MISSION_DOCUMENT, floor, snapshot),
        },
        None => None,
    }
}

/// Says what `find` has to see next for the workspace around the file that
/// `url` names, if anything.
pub fn find_needs(url: &Url, floor: usize, snapshot: &Snapshot) -> (request: Option<Request>)
    ensures
        request_view(request) == workspace_request(snapshot@, url_file_path(*url), floor as nat),
{
    match file_path(url) {
        Some(start) => workspace_needs(Some(&start), floor, snapshot),
        None => workspace_needs(None, floor, snapshot),
    }
}

} // verus!
