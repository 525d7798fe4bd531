//! Paths as sequences of components.

use vstd::prelude::*;

verus! {

/// A filesystem path held as its components, outermost first. The root of an
/// absolute path is the component `/`, so the depth of `/a/b` is three.
#[derive(Debug, PartialEq, Eq)]
pub struct ProjectPath {
    pub components: Vec<String>,
}

impl View for ProjectPath {
    type V = Seq<Seq<char>>;

    open spec fn view(&self) -> Seq<Seq<char>> {
        self.components@.map_values(|c: String| c@)
    }
}

/// Whether a path has a parent. The empty path has none, and neither has the
/// root: nothing lies above it.
pub open spec fn has_parent(path: Seq<Seq<char>>) -> bool {
    path.len() > 0 && !(path.len() == 1 && path[0] == "/"@)
}

/// The text of a path: its components joined by `/`, with no separator after a
/// leading root component.
pub open spec fn rendered(path: Seq<Seq<char>>) -> Seq<char>
    decreases path.len(),
{
    if path.len() == 0 {
        Seq::empty()
    } else if path.len() == 1 {
        path[0]
    } else if path.len() == 2 && path[0] == "/"@ {
        path[0] + path[1]
    } else {
        rendered(path.drop_last()) + "/"@ + path.last()
    }
}

impl ProjectPath {
    /// The empty path.
    pub fn new() -> (path: ProjectPath)
        ensures
            path@ == Seq::<Seq<char>>::empty(),
    {
        let path = ProjectPath { components: Vec::new() };
        assert(path@ =~= Seq::<Seq<char>>::empty());
        path
    }

    /// The number of components.
    pub fn depth(&self) -> (depth: usize)
        ensures
            depth == self@.len(),
    {
        self.components.len()
    }

    /// Goes to the parent: removes the last component. Returns false, and
    /// changes nothing, where the path has no parent.
    pub fn pop(&mut self) -> (popped: bool)
        ensures
            popped == has_parent(old(self)@),
            popped ==> final(self)@ == old(self)@.drop_last(),
            !popped ==> final(self)@ == old(self)@,
    {
        if self.components.len() == 1 {
            let root = String::from_str("/");
            if self.components[0] == root {
                assert(self@[0] == "/"@);
                return false;
            }
            assert(self@[0] != "/"@);
        }
        match self.components.pop() {
            Some(_) => {
                assert(self@ =~= old(self)@.drop_last());
                true
            },
            None => false,
        }
    }

    /// Appends one component.
    pub fn push(&mut self, name: &str)
        ensures
            final(self)@ == old(self)@.push(name@),
    {
        self.components.push(String::from_str(name));
        assert(self@ =~= old(self)@.push(name@));
    }

    /// This path with one more component.
    pub fn join(&self, name: &str) -> (joined: ProjectPath)
        ensures
            joined@ == self@.push(name@),
    {
        let mut joined = self.clone();
        joined.push(name);
        joined
    }

    /// This path followed by all of `relative`.
    pub fn join_path(&self, relative: &ProjectPath) -> (joined: ProjectPath)
        ensures
            joined@ == self@ + relative@,
    {
        let mut joined = self.clone();
        let mut i: usize = 0;
        while i < relative.components.len()
            invariant
                i <= relative.components.len(),
                joined@ == self@ + relative@.take(i as int),
            decreases relative.components.len() - i,
        {
            let ghost before = joined@;
            joined.components.push(relative.components[i].clone());
            assert(joined@ =~= before.push(relative@[i as int]));
            assert(relative@.take(i + 1) =~= relative@.take(i as int).push(relative@[i as int]));
            assert(joined@ =~= self@ + relative@.take(i + 1));
            i += 1;
        }
        assert(relative@.take(i as int) =~= relative@);
        joined
    }

    /// Whether two paths have the same components.
    pub fn equals(&self, other: &ProjectPath) -> (same: bool)
        ensures
            same == (self@ == other@),
    {
        if self.components.len() != other.components.len() {
            assert(self@.len() != other@.len());
            return false;
        }
        let mut i: usize = 0;
        while i < self.components.len()
            invariant
                i <= self.components.len(),
                self.components.len() == other.components.len(),
                forall|j: int| 0 <= j < i ==> self@[j] == other@[j],
            decreases self.components.len() - i,
        {
            if self.components[i] != other.components[i] {
                assert(self@[i as int] != other@[i as int]);
                return false;
            }
            i += 1;
        }
        assert(self@ =~= other@);
        true
    }

    /// The path as text.
    pub fn display(&self) -> (text: String)
        ensures
            text@ == rendered(self@),
    {
        let mut text = String::new();
        let root = String::from_str("/");
        let mut i: usize = 0;
        while i < self.components.len()
            invariant
                i <= self.components.len(),
                root@ == "/"@,
                text@ == rendered(self@.take(i as int)),
            decreases self.components.len() - i,
        {
            let separate = i >= 2 || (i == 1 && self.components[0] != root);
            if separate {
                text.append("/");
            }
            text.append(self.components[i].as_str());
            proof {
                let before = self@.take(i as int);
                let after = self@.take(i + 1);
                assert(after.drop_last() =~= before);
                assert(after.last() == self@[i as int]);
                if i == 1 {
                    assert(before[0] == self@[0]);
                    assert(rendered(before) == self@[0]);
                }
            }
            i += 1;
        }
        assert(self@.take(i as int) =~= self@);
        text
    }
}

impl Clone for ProjectPath {
    fn clone(&self) -> (copy: ProjectPath)
        ensures
            copy@ == self@,
    {
        let mut components: Vec<String> = Vec::new();
        let mut i: usize = 0;
        while i < self.components.len()
            invariant
                i <= self.components.len(),
                components@.len() == i,
                forall|j: int| 0 <= j < i ==> components@[j]@ == self.components@[j]@,
            decreases self.components.len() - i,
        {
            components.push(self.components[i].clone());
            i += 1;
        }
        let copy = ProjectPath { components };
        assert(copy@ =~= self@);
        copy
    }
}

} // verus!
