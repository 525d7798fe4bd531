//! Cross-file stubs: what one file's analysis is told about the functions
//! that the other files of the package define.

use vstd::prelude::*;
use crate::aggregate::resolution_at;
use crate::definition::{Origin, OriginView};
use crate::path::ProjectPath;
use crate::table::{DeclarationView, FunctionTable};

verus! {

/// The kind of value that a stub stands for. A function table says which files
/// are functions and no more, so a stub is always code.
#[derive(Debug, Clone, Copy, PartialEq, Eq, Structural)]
pub enum ValueKind {
    Code,
}

/// A declared function as the analysis of another file sees it: its name, the
/// file that defines it, and the kind of value it is.
#[derive(Debug, PartialEq, Eq)]
pub struct CrossFileStub {
    pub name: String,
    pub origin: Origin,
    pub kind: ValueKind,
}

/// A stub as contracts speak of it.
pub struct CrossFileStubView {
    pub name: Seq<char>,
    pub origin: OriginView,
    pub kind: ValueKind,
}

impl View for CrossFileStub {
    type V = CrossFileStubView;

    open spec fn view(&self) -> CrossFileStubView {
        CrossFileStubView { name: self.name@, origin: self.origin@, kind: self.kind }
    }
}

/// The stub of a declaration whose path resolved to `path`: code that
/// originates in that file, at no particular span.
pub open spec fn stub_of(declaration: DeclarationView, path: Seq<Seq<char>>) -> CrossFileStubView {
    CrossFileStubView {
        name: declaration.name,
        origin: OriginView { path, span: None },
        kind: ValueKind::Code,
    }
}

/// The stubs of a table, in the table's order: one for each declaration whose
/// path resolved. A declaration whose path did not resolve has none.
pub open spec fn stubs_of(table: Seq<DeclarationView>, resolved: Seq<Option<ProjectPath>>) -> Seq<
    CrossFileStubView,
>
    decreases table.len(),
{
    if table.len() == 0 {
        Seq::empty()
    } else {
        let front = stubs_of(table.drop_last(), resolved);
        match resolution_at(resolved, table.len() - 1) {
            Some(path) => front.push(stub_of(table.last(), path)),
            None => front,
        }
    }
}

/// The views of a list of stubs, in order.
pub open spec fn stubs_view(stubs: Seq<CrossFileStub>) -> Seq<CrossFileStubView> {
    stubs.map_values(|s: CrossFileStub| s@)
}

/// Builds the stubs that every file of the package is analyzed with, from the
/// table and what the resolver found for each of its declarations.
pub fn stub_environment(functions: &FunctionTable, resolved: &Vec<Option<ProjectPath>>) -> (stubs:
    Vec<CrossFileStub>)
    ensures
        stubs_view(stubs@) == stubs_of(functions@, resolved@),
{
    let mut stubs: Vec<CrossFileStub> = Vec::new();
    let declared = functions.len();
    let mut i: usize = 0;
    assert(functions@.take(0) =~= Seq::<DeclarationView>::empty());
    assert(stubs_view(stubs@) =~= Seq::<CrossFileStubView>::empty());
    while i < declared
        invariant
            i <= declared,
            declared == functions@.len(),
            stubs_view(stubs@) == stubs_of(functions@.take(i as int), resolved@),
        decreases declared - i,
    {
        let ghost before = stubs_view(stubs@);
        proof {
            assert(functions@.take(i + 1).drop_last() =~= functions@.take(i as int));
            assert(functions@.take(i + 1).last() == functions@[i as int]);
        }
        if i < resolved.len() {
            match &resolved[i] {
                Some(path) => {
                    let stub = CrossFileStub {
                        name: functions.entry(i).name.clone(),
                        origin: Origin { path: path.clone(), span: None },
                        kind: ValueKind::Code,
                    };
                    stubs.push(stub);
                    assert(stubs_view(stubs@) =~= before.push(stub@));
                },
                None => {},
            }
        }
        i += 1;
    }
    assert(functions@.take(declared as int) =~= functions@);
    stubs
}

/// Every declaration whose path resolved has its stub.
pub proof fn lemma_resolved_has_stub(
    table: Seq<DeclarationView>,
    resolved: Seq<Option<ProjectPath>>,
    i: int,
)
    requires
        0 <= i < table.len(),
        resolution_at(resolved, i) is Some,
    ensures
        stubs_of(table, resolved).contains(stub_of(table[i], resolution_at(resolved, i)->0)),
    decreases table.len(),
{
    let all = stubs_of(table, resolved);
    let front = stubs_of(table.drop_last(), resolved);
    let stub = stub_of(table[i], resolution_at(resolved, i)->0);
    if i == table.len() - 1 {
        assert(all[all.len() - 1] == stub);
    } else {
        lemma_resolved_has_stub(table.drop_last(), resolved, i);
        let k = choose|k: int| 0 <= k < front.len() && front[k] == stub;
        assert(all[k] == stub);
    }
}

/// Every stub is that of a declaration whose path resolved.
pub proof fn lemma_stub_is_resolved(
    table: Seq<DeclarationView>,
    resolved: Seq<Option<ProjectPath>>,
    k: int,
)
    requires
        0 <= k < stubs_of(table, resolved).len(),
    ensures
        exists|i: int|
            0 <= i < table.len() && resolution_at(resolved, i) is Some && stubs_of(
                table,
                resolved,
            )[k] == stub_of(#[trigger] table[i], resolution_at(resolved, i)->0),
    decreases table.len(),
{
    if table.len() > 0 {
        let front = stubs_of(table.drop_last(), resolved);
        let last = table.len() - 1;
        if k < front.len() {
            lemma_stub_is_resolved(table.drop_last(), resolved, k);
            let i = choose|i: int|
                0 <= i < table.drop_last().len() && resolution_at(resolved, i) is Some && front[k]
                    == stub_of(#[trigger] table.drop_last()[i], resolution_at(resolved, i)->0);
            assert(table.drop_last()[i] == table[i]);
        } else {
            assert(stubs_of(table, resolved)[k] == stub_of(
                table[last],
                resolution_at(resolved, last)->0,
            ));
        }
    }
}

} // verus!
