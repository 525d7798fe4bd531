//! What holds of every search.

use vstd::prelude::*;
use crate::discovery::{identified, roots_from, search, Found, Probe, SnapshotView};
use crate::package::PackageRootView;
use crate::path::{has_parent, ProjectPath};
use crate::table::DeclarationView;

verus! {

/// The document called `name` in the ancestor of `start` that has `depth`
/// components.
pub open spec fn document_at(start: Seq<Seq<char>>, name: Seq<char>, depth: int) -> Seq<Seq<char>> {
    start.take(depth).push(name)
}

/// Whether the search from `start` may look into the ancestor of `depth`
/// components: it is a proper ancestor of `start`, it has no fewer components
/// than the floor, and it is not above the root.
pub open spec fn in_reach(start: Seq<Seq<char>>, floor: nat, depth: int) -> bool {
    floor <= depth < start.len() && has_parent(start.take(depth + 1))
}

/// Whether the search from `start` ends at the ancestor of `depth`
/// components: the search may look there, a document is there, and none is in
/// any ancestor nearer to `start`.
pub open spec fn ends_at(
    snapshot: SnapshotView,
    start: Seq<Seq<char>>,
    name: Seq<char>,
    floor: nat,
    depth: int,
) -> bool {
    &&& in_reach(start, floor, depth)
    &&& !(snapshot.probe_at(document_at(start, name, depth)) is Missing)
    &&& forall|nearer: int|
        depth < nearer < start.len() ==> snapshot.probe_at(
            #[trigger] document_at(start, name, nearer),
        ) is Missing
}

/// Whether the document at `document` parses, with `table` as its table.
pub open spec fn parsed_at(
    snapshot: SnapshotView,
    document: Seq<Seq<char>>,
    table: Seq<DeclarationView>,
) -> bool {
    match snapshot.probe_at(document) {
        Probe::Parsed(found) => found@ == table,
        _ => false,
    }
}

/// A search finds the nearest ancestor with a document, or nothing.
///
/// Where it finds a package, the package's directory is the nearest ancestor
/// of the start that holds a document of the name, that document parses, and
/// the table is the document's. Where it finds nothing, either no ancestor
/// down to the floor holds a document, or the nearest document does not parse.
pub proof fn lemma_search_finds_nearest(
    snapshot: SnapshotView,
    start: Seq<Seq<char>>,
    name: Seq<char>,
    floor: nat,
)
    ensures
        match search(snapshot, start, name, floor) {
            Some((root, table)) => exists|depth: int| #[trigger]
                ends_at(snapshot, start, name, floor, depth) && root == (PackageRootView {
                    directory: start.take(depth),
                    document: name,
                }) && parsed_at(snapshot, document_at(start, name, depth), table),
            None => (forall|depth: int|
                in_reach(start, floor, depth) ==> snapshot.probe_at(
                    #[trigger] document_at(start, name, depth),
                ) is Missing) || (exists|depth: int| #[trigger]
                ends_at(snapshot, start, name, floor, depth) && snapshot.probe_at(
                    document_at(start, name, depth),
                ) is Malformed),
        },
    decreases start.len(),
{
    if start.len() > floor && has_parent(start) {
        let parent = start.drop_last();
        let here = start.len() - 1;
        assert(parent =~= start.take(here));
        assert(document_at(start, name, here) == parent.push(name));
        match snapshot.probe_at(parent.push(name)) {
            Probe::Parsed(table) => {
                assert(ends_at(snapshot, start, name, floor, here));
            },
            Probe::Malformed => {
                assert(ends_at(snapshot, start, name, floor, here));
            },
            Probe::Missing => {
                lemma_search_finds_nearest(snapshot, parent, name, floor);
                assert forall|depth: int| 0 <= depth <= here implies #[trigger] document_at(
                    parent,
                    name,
                    depth,
                ) == document_at(start, name, depth) by {
                    assert(parent.take(depth) =~= start.take(depth));
                }
                match search(snapshot, parent, name, floor) {
                    Some((root, table)) => {
                        let depth = choose|depth: int| #[trigger]
                            ends_at(snapshot, parent, name, floor, depth) && root == (
                            PackageRootView { directory: parent.take(depth), document: name })
                                && parsed_at(
                                snapshot,
                                document_at(parent, name, depth),
                                table,
                            );
                        lemma_ends_further(snapshot, start, name, floor, depth);
                        assert(parent.take(depth) =~= start.take(depth));
                    },
                    None => {
                        if exists|depth: int| #[trigger]
                            ends_at(snapshot, parent, name, floor, depth) && snapshot.probe_at(
                                document_at(parent, name, depth),
                            ) is Malformed {
                            let depth = choose|depth: int| #[trigger]
                                ends_at(snapshot, parent, name, floor, depth) && snapshot.probe_at(
                                    document_at(parent, name, depth),
                                ) is Malformed;
                            lemma_ends_further(snapshot, start, name, floor, depth);
                        } else {
                            assert forall|depth: int|
                                in_reach(start, floor, depth) implies snapshot.probe_at(
                                #[trigger] document_at(start, name, depth),
                            ) is Missing by {
                                if depth < here {
                                    assert(document_at(parent, name, depth) == document_at(
                                        start,
                                        name,
                                        depth,
                                    ));
                                }
                            }
                        }
                    },
                }
            },
        }
    }
}

proof fn lemma_ends_further(
    snapshot: SnapshotView,
    start: Seq<Seq<char>>,
    name: Seq<char>,
    floor: nat,
    depth: int,
)
    requires
        start.len() > 0,
        ends_at(snapshot, start.drop_last(), name, floor, depth),
        snapshot.probe_at(start.drop_last().push(name)) is Missing,
    ensures
        ends_at(snapshot, start, name, floor, depth),
        document_at(start, name, depth) == document_at(start.drop_last(), name, depth),
{
    let parent = start.drop_last();
    let here = start.len() - 1;
    assert(parent =~= start.take(here));
    assert(parent.take(depth) =~= start.take(depth));
    assert forall|nearer: int| depth < nearer < start.len() implies snapshot.probe_at(
        #[trigger] document_at(start, name, nearer),
    ) is Missing by {
        if nearer < here {
            assert(parent.take(nearer) =~= start.take(nearer));
            assert(document_at(parent, name, nearer) == document_at(start, name, nearer));
        }
    }
}

/// Where no ancestor of a file holds a configuration document, the file has
/// no package.
pub proof fn lemma_nothing_without_documents(
    snapshot: SnapshotView,
    file: Seq<Seq<char>>,
    floor: nat,
)
    requires
        forall|document: Seq<Seq<char>>| #[trigger] snapshot.probe_at(document) is Missing,
    ensures
        identified(snapshot, file, floor) is None,
{
    lemma_search_without_documents(snapshot, file, crate::package::ADDON_DOCUMENT@, floor);
    lemma_search_without_documents(snapshot, file, crate::package::MISSION_DOCUMENT@, floor);
}

proof fn lemma_search_without_documents(
    snapshot: SnapshotView,
    start: Seq<Seq<char>>,
    name: Seq<char>,
    floor: nat,
)
    requires
        forall|document: Seq<Seq<char>>| #[trigger] snapshot.probe_at(document) is Missing,
    ensures
        search(snapshot, start, name, floor) is None,
    decreases start.len(),
{
    if start.len() > floor && has_parent(start) {
        assert(snapshot.probe_at(start.drop_last().push(name)) is Missing);
        lemma_search_without_documents(snapshot, start.drop_last(), name, floor);
    }
}

/// Whether `directory` is a package: its own document called `name` parses,
/// with `table` as its table.
pub open spec fn is_package(
    snapshot: SnapshotView,
    directory: ProjectPath,
    name: Seq<char>,
    table: Seq<DeclarationView>,
) -> bool {
    parsed_at(snapshot, directory@.push(name), table)
}

/// The package that `directory` is, with `table` as its table.
pub open spec fn package_of(directory: ProjectPath, name: Seq<char>, table: Seq<DeclarationView>) -> Found {
    (PackageRootView { directory: directory@, document: name }, table)
}

/// Every listed directory that is a package is among the packages found.
pub proof fn lemma_sibling_is_found(
    snapshot: SnapshotView,
    directories: Seq<ProjectPath>,
    name: Seq<char>,
    table: Seq<DeclarationView>,
    i: int,
)
    requires
        0 <= i < directories.len(),
        is_package(snapshot, directories[i], name, table),
    ensures
        roots_from(snapshot, directories, name).contains(package_of(directories[i], name, table)),
    decreases directories.len(),
{
    let all = roots_from(snapshot, directories, name);
    let front = roots_from(snapshot, directories.drop_last(), name);
    let found = package_of(directories[i], name, table);
    if i == directories.len() - 1 {
        assert(all[all.len() - 1] == found);
    } else {
        lemma_sibling_is_found(snapshot, directories.drop_last(), name, table, i);
        let k = choose|k: int| 0 <= k < front.len() && front[k] == found;
        assert(all[k] == found);
    }
}

/// Every package found is one of the listed directories, with the table of
/// that directory's own document: a directory that is no package adds
/// nothing, and nothing stands in its place.
pub proof fn lemma_root_is_sibling(
    snapshot: SnapshotView,
    directories: Seq<ProjectPath>,
    name: Seq<char>,
    k: int,
)
    requires
        0 <= k < roots_from(snapshot, directories, name).len(),
    ensures
        exists|i: int|
            0 <= i < directories.len() && is_package(
                snapshot,
                #[trigger] directories[i],
                name,
                roots_from(snapshot, directories, name)[k].1,
            ) && roots_from(snapshot, directories, name)[k] == package_of(
                directories[i],
                name,
                roots_from(snapshot, directories, name)[k].1,
            ),
    decreases directories.len(),
{
    if directories.len() > 0 {
        let all = roots_from(snapshot, directories, name);
        let front = roots_from(snapshot, directories.drop_last(), name);
        let last = directories.len() - 1;
        if k < front.len() {
            lemma_root_is_sibling(snapshot, directories.drop_last(), name, k);
            let i = choose|i: int|
                0 <= i < directories.drop_last().len() && is_package(
                    snapshot,
                    #[trigger] directories.drop_last()[i],
                    name,
                    front[k].1,
                ) && front[k] == package_of(directories.drop_last()[i], name, front[k].1);
            assert(directories.drop_last()[i] == directories[i]);
            assert(is_package(snapshot, directories[i], name, all[k].1));
        } else {
            assert(is_package(snapshot, directories[last], name, all[k].1));
        }
    }
}

/// The directories among the given ones that are packages.
pub open spec fn packages_among(
    snapshot: SnapshotView,
    directories: Seq<ProjectPath>,
    name: Seq<char>,
) -> Seq<ProjectPath> {
    directories.filter(|d: ProjectPath| snapshot.probe_at(d@.push(name)) is Parsed)
}

/// There are as many packages found as there are listed directories that are
/// packages, and the packages found are those directories, in their order.
pub proof fn lemma_one_root_for_each_package(
    snapshot: SnapshotView,
    directories: Seq<ProjectPath>,
    name: Seq<char>,
)
    ensures
        roots_from(snapshot, directories, name).len() == packages_among(
            snapshot,
            directories,
            name,
        ).len(),
        forall|k: int|
            0 <= k < roots_from(snapshot, directories, name).len() ==> (#[trigger] roots_from(
                snapshot,
                directories,
                name,
            )[k]).0.directory == packages_among(snapshot, directories, name)[k]@,
    decreases directories.len(),
{
    reveal(Seq::filter);
    if directories.len() > 0 {
        lemma_one_root_for_each_package(snapshot, directories.drop_last(), name);
    }
}

} // verus!
