//! Go to definition: from an offset in a file to where the symbol under it
//! was defined.

use vstd::prelude::*;
use crate::path::ProjectPath;
use crate::span::{covers, in_span, Span};

verus! {

/// Where a symbol was defined: the file, and the span in it when that is known.
#[derive(Debug, PartialEq, Eq)]
pub struct Origin {
    pub path: ProjectPath,
    pub span: Option<Span>,
}

/// An origin as contracts speak of it.
pub struct OriginView {
    pub path: Seq<Seq<char>>,
    pub span: Option<Span>,
}

impl View for Origin {
    type V = OriginView;

    open spec fn view(&self) -> OriginView {
        OriginView { path: self.path@, span: self.span }
    }
}

impl Clone for Origin {
    fn clone(&self) -> (copy: Origin)
        ensures
            copy@ == self@,
    {
        Origin { path: self.path.clone(), span: self.span }
    }
}

/// What go-to-definition reads of an analyzer's state: for each span of the
/// analyzed file that uses a symbol, the origin of that symbol.
#[derive(Debug)]
pub struct State {
    pub origins: Vec<(Span, Origin)>,
}

/// Whether entry `i` is the first whose span covers `offset`.
pub open spec fn defines(origins: Seq<(Span, Origin)>, offset: usize, i: int) -> bool {
    &&& 0 <= i < origins.len()
    &&& covers(origins[i].0, offset)
    &&& forall|j: int| 0 <= j < i ==> !covers(#[trigger] origins[j].0, offset)
}

/// The origin of the symbol at `offset`: that of the first entry whose span
/// covers the offset. None when no span covers it.
pub fn get_definition(state: &State, offset: usize) -> (origin: Option<Origin>)
    ensures
        match origin {
            Some(o) => exists|i: int|
                defines(state.origins@, offset, i) && o@ == (#[trigger] state.origins@[i]).1@,
            None => forall|i: int|
                0 <= i < state.origins@.len() ==> !covers(#[trigger] state.origins@[i].0, offset),
        },
{
    let mut i: usize = 0;
    while i < state.origins.len()
        invariant
            i <= state.origins.len(),
            forall|j: int| 0 <= j < i ==> !covers(#[trigger] state.origins@[j].0, offset),
        decreases state.origins.len() - i,
    {
        if in_span(state.origins[i].0, offset) {
            let found = state.origins[i].1.clone();
            assert(defines(state.origins@, offset, i as int));
            return Some(found);
        }
        i += 1;
    }
    None
}

/// Whether two spans share no offset.
pub open spec fn apart(one: Span, other: Span) -> bool {
    one.1 <= other.0 || other.1 <= one.0
}

/// Where no two spans share an offset, the order of the entries does not
/// matter: an entry whose span covers the offset is the only one that does,
/// and so it is the one that gives the definition.
pub proof fn lemma_one_definition(origins: Seq<(Span, Origin)>, offset: usize, i: int)
    requires
        0 <= i < origins.len(),
        covers(origins[i].0, offset),
        forall|a: int, b: int|
            0 <= a < b < origins.len() ==> apart((#[trigger] origins[a]).0, (#[trigger] origins[b]).0),
    ensures
        defines(origins, offset, i),
        forall|j: int| defines(origins, offset, j) ==> j == i,
{
    assert forall|j: int| 0 <= j < origins.len() && j != i implies !covers(
        #[trigger] origins[j].0,
        offset,
    ) by {
        if j < i {
            assert(apart(origins[j].0, origins[i].0));
        } else {
            assert(apart(origins[i].0, origins[j].0));
        }
    }
}

} // verus!
