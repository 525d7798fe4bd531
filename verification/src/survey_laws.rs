//! What holds of every survey.

use vstd::prelude::*;
use crate::discovery::{identified, roots_from, search, siblings, workspace, SnapshotView};
use crate::package::{ADDON_DOCUMENT, MISSION_DOCUMENT};
use crate::path::{has_parent, ProjectPath};
use crate::survey::{
    directories_request, extends, identify_request, search_request, siblings_request, unseen,
    workspace_request,
};

verus! {

/// A search asks only for a document that the snapshot says nothing of.
pub proof fn lemma_search_asks_for_the_unseen(
    snapshot: SnapshotView,
    start: Seq<Seq<char>>,
    name: Seq<char>,
    floor: nat,
)
    ensures
        search_request(snapshot, start, name, floor) matches Some(document)
            ==> !snapshot.documents.contains_key(document),
    decreases start.len(),
{
    if start.len() > floor && has_parent(start) {
        lemma_search_asks_for_the_unseen(snapshot, start.drop_last(), name, floor);
    }
}

/// Once a search needs no more, its answer stands: whatever else is seen of
/// the disk, the search finds the same.
pub proof fn lemma_search_settled(
    earlier: SnapshotView,
    later: SnapshotView,
    start: Seq<Seq<char>>,
    name: Seq<char>,
    floor: nat,
)
    requires
        search_request(earlier, start, name, floor) is None,
        extends(later, earlier),
    ensures
        search(later, start, name, floor) == search(earlier, start, name, floor),
        search_request(later, start, name, floor) is None,
    decreases start.len(),
{
    if start.len() > floor && has_parent(start) {
        let document = start.drop_last().push(name);
        assert(earlier.documents.contains_key(document));
        if earlier.documents[document] is Missing {
            lemma_search_settled(earlier, later, start.drop_last(), name, floor);
        }
    }
}

/// Finding the owner of a file asks only for what the snapshot says nothing
/// of, and once it needs no more, its answer stands.
pub proof fn lemma_identify_settled(
    earlier: SnapshotView,
    later: SnapshotView,
    file: Seq<Seq<char>>,
    floor: nat,
)
    requires
        extends(later, earlier),
    ensures
        identify_request(earlier, file, floor) matches Some(request) ==> unseen(earlier, request),
        identify_request(earlier, file, floor) is None ==> identified(later, file, floor)
            == identified(earlier, file, floor),
{
    lemma_search_asks_for_the_unseen(earlier, file, ADDON_DOCUMENT@, floor);
    lemma_search_asks_for_the_unseen(earlier, file, MISSION_DOCUMENT@, floor);
    if identify_request(earlier, file, floor) is None {
        lemma_search_settled(earlier, later, file, ADDON_DOCUMENT@, floor);
        if search(earlier, file, ADDON_DOCUMENT@, floor) is None {
            lemma_search_settled(earlier, later, file, MISSION_DOCUMENT@, floor);
        }
    }
}

proof fn lemma_directories_ask_for_the_unseen(
    snapshot: SnapshotView,
    directories: Seq<ProjectPath>,
    name: Seq<char>,
)
    ensures
        directories_request(snapshot, directories, name) matches Some(document)
            ==> !snapshot.documents.contains_key(document),
        directories_request(snapshot, directories, name) is None ==> forall|i: int|
            0 <= i < directories.len() ==> snapshot.documents.contains_key(
                (#[trigger] directories[i])@.push(name),
            ),
    decreases directories.len(),
{
    if directories.len() > 0 {
        lemma_directories_ask_for_the_unseen(snapshot, directories.drop_first(), name);
        if directories_request(snapshot, directories, name) is None {
            assert forall|i: int| 0 <= i < directories.len() implies snapshot.documents.contains_key(
                (#[trigger] directories[i])@.push(name),
            ) by {
                if i > 0 {
                    assert(directories.drop_first()[i - 1] == directories[i]);
                }
            }
        }
    }
}

proof fn lemma_roots_settled(
    earlier: SnapshotView,
    later: SnapshotView,
    directories: Seq<ProjectPath>,
    name: Seq<char>,
)
    requires
        extends(later, earlier),
        forall|i: int|
            0 <= i < directories.len() ==> earlier.documents.contains_key(
                (#[trigger] directories[i])@.push(name),
            ),
    ensures
        roots_from(later, directories, name) == roots_from(earlier, directories, name),
    decreases directories.len(),
{
    if directories.len() > 0 {
        let front = directories.drop_last();
        assert forall|i: int| 0 <= i < front.len() implies earlier.documents.contains_key(
            (#[trigger] front[i])@.push(name),
        ) by {
            assert(front[i] == directories[i]);
        }
        lemma_roots_settled(earlier, later, front, name);
        assert(directories.last() == directories[directories.len() - 1]);
        assert(earlier.documents.contains_key(directories.last()@.push(name)));
    }
}

/// Finding the siblings of a package asks only for what the snapshot says
/// nothing of, and once it needs no more, its answer stands.
pub proof fn lemma_siblings_settled(
    earlier: SnapshotView,
    later: SnapshotView,
    start: Seq<Seq<char>>,
    name: Seq<char>,
    floor: nat,
)
    requires
        extends(later, earlier),
    ensures
        siblings_request(earlier, start, name, floor) matches Some(request) ==> unseen(
            earlier,
            request,
        ),
        siblings_request(earlier, start, name, floor) is None ==> siblings(
            later,
            start,
            name,
            floor,
        ) == siblings(earlier, start, name, floor),
{
    lemma_search_asks_for_the_unseen(earlier, start, name, floor);
    if search_request(earlier, start, name, floor) is None {
        lemma_search_settled(earlier, later, start, name, floor);
        match search(earlier, start, name, floor) {
            Some((first, _)) => {
                let container = first.container();
                if earlier.directories.contains_key(container) {
                    let listed = earlier.directories[container]@;
                    lemma_directories_ask_for_the_unseen(earlier, listed, name);
                    if siblings_request(earlier, start, name, floor) is None {
                        assert(later.directories.contains_key(container));
                        assert(later.listing_at(container) == listed);
                        lemma_roots_settled(earlier, later, listed, name);
                    }
                }
            },
            None => {},
        }
    }
}

/// Finding a workspace asks only for what the snapshot says nothing of, and
/// once it needs no more, its answer stands.
pub proof fn lemma_workspace_settled(
    earlier: SnapshotView,
    later: SnapshotView,
    start: Option<Seq<Seq<char>>>,
    floor: nat,
)
    requires
        extends(later, earlier),
    ensures
        workspace_request(earlier, start, floor) matches Some(request) ==> unseen(earlier, request),
        workspace_request(earlier, start, floor) is None ==> workspace(later, start, floor)
            == workspace(earlier, start, floor),
{
    match start {
        Some(path) => {
            lemma_siblings_settled(earlier, later, path, ADDON_DOCUMENT@, floor);
            lemma_siblings_settled(earlier, later, path, MISSION_DOCUMENT@, floor);
        },
        None => {},
    }
}

} // verus!
