//! The project index: what the analysis found, by file.

use vstd::prelude::*;
use crate::path::ProjectPath;
use crate::path_map::PathMap;

verus! {

/// What the index holds for one file: the function that the file was declared
/// for, if it was declared, and what the analyzer made of the file.
#[derive(Debug)]
pub struct IndexEntry<A> {
    pub name: Option<String>,
    pub analysis: A,
}

/// An index entry as contracts speak of it.
pub struct IndexEntryView<A> {
    pub name: Option<Seq<char>>,
    pub analysis: A,
}

/// The view of a name that may be absent.
pub open spec fn name_view(name: Option<String>) -> Option<Seq<char>> {
    match name {
        Some(name) => Some(name@),
        None => None,
    }
}

impl<A> View for IndexEntry<A> {
    type V = IndexEntryView<A>;

    open spec fn view(&self) -> IndexEntryView<A> {
        IndexEntryView { name: name_view(self.name), analysis: self.analysis }
    }
}

/// The index of one aggregation pass, keyed by the path of the analyzed file.
pub struct ProjectIndex<A> {
    files: PathMap<IndexEntry<A>>,
}

impl<A> View for ProjectIndex<A> {
    type V = Map<Seq<Seq<char>>, IndexEntryView<A>>;

    closed spec fn view(&self) -> Map<Seq<Seq<char>>, IndexEntryView<A>> {
        self.files@.map_values(|e: IndexEntry<A>| e@)
    }
}

impl<A> ProjectIndex<A> {
    /// The paths of the index in the order in which they were first written.
    pub closed spec fn keys(self) -> Seq<Seq<Seq<char>>> {
        self.files.keys()
    }

    /// The empty index.
    pub fn new() -> (index: ProjectIndex<A>)
        ensures
            index@ == Map::<Seq<Seq<char>>, IndexEntryView<A>>::empty(),
            index.keys() == Seq::<Seq<Seq<char>>>::empty(),
    {
        let index = ProjectIndex { files: PathMap::new() };
        assert(index@ =~= Map::<Seq<Seq<char>>, IndexEntryView<A>>::empty());
        index
    }

    /// The number of files in the index.
    pub fn len(&self) -> (n: usize)
        ensures
            n == self.keys().len(),
            n == self@.dom().len(),
    {
        let n = self.files.len();
        assert(self@.dom() =~= self.files@.dom());
        n
    }

    /// The path at index `i`, in the order of first writing.
    pub fn key(&self, i: usize) -> (key: &ProjectPath)
        requires
            i < self.keys().len(),
        ensures
            key@ == self.keys()[i as int],
            self@.contains_key(key@),
    {
        self.files.key(i)
    }

    /// Whether the index holds the file at `path`.
    pub fn contains(&self, path: &ProjectPath) -> (present: bool)
        ensures
            present == self@.contains_key(path@),
    {
        self.files.contains(path)
    }

    /// The entry of the file at `path`, if the index holds it.
    pub fn get(&self, path: &ProjectPath) -> (entry: Option<&IndexEntry<A>>)
        ensures
            entry is Some == self@.contains_key(path@),
            entry matches Some(e) ==> e@ == self@[path@],
    {
        self.files.get(path)
    }

    /// Writes the entry of the file at `path`, in place of an earlier one.
    pub fn insert(&mut self, path: ProjectPath, entry: IndexEntry<A>)
        ensures
            final(self)@ == old(self)@.insert(path@, entry@),
            final(self).keys() == if old(self)@.contains_key(path@) {
                old(self).keys()
            } else {
                old(self).keys().push(path@)
            },
    {
        let _ = self.files.insert(path, entry);
        assert(self@ =~= old(self)@.insert(path@, entry@));
    }

    /// The entries of the index, in the order of first writing.
    pub fn into_entries(self) -> (entries: Vec<(ProjectPath, IndexEntry<A>)>)
        ensures
            entries@.len() == self.keys().len(),
            forall|i: int|
                0 <= i < entries@.len() ==> (#[trigger] entries@[i]).0@ == self.keys()[i]
                    && self@.contains_key(entries@[i].0@) && self@[entries@[i].0@]
                    == entries@[i].1@,
    {
        let ghost view = self@;
        let ghost files = self.files@;
        let entries = self.files.into_entries();
        proof {
            assert forall|i: int| 0 <= i < entries@.len() implies (#[trigger] entries@[i]).0@
                == self.keys()[i] && view.contains_key(entries@[i].0@) && view[entries@[i].0@]
                == entries@[i].1@ by {
                crate::path_map::lemma_entry_is_mapped(entries@, i);
            }
        }
        entries
    }
}

} // verus!
