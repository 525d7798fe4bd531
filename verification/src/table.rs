//! The function table of a package: which file each exported function lives in.

use vstd::prelude::*;
use crate::span::Span;
use crate::symbol::{same_symbol, symbol_eq};

verus! {

/// One line of a function table: a function's name, the path its configuration
/// document declares for it, and where in that document the declaration stands.
#[derive(Debug, PartialEq, Eq)]
pub struct Declaration {
    pub name: String,
    pub path: String,
    pub span: Span,
}

/// A declaration as contracts speak of it.
pub struct DeclarationView {
    pub name: Seq<char>,
    pub path: Seq<char>,
    pub span: Span,
}

impl View for Declaration {
    type V = DeclarationView;

    open spec fn view(&self) -> DeclarationView {
        DeclarationView { name: self.name@, path: self.path@, span: self.span }
    }
}

impl Clone for Declaration {
    fn clone(&self) -> (copy: Declaration)
        ensures
            copy@ == self@,
    {
        Declaration { name: self.name.clone(), path: self.path.clone(), span: self.span }
    }
}

/// No two declarations name the same symbol.
pub open spec fn distinct_names(table: Seq<DeclarationView>) -> bool {
    forall|i: int, j: int|
        0 <= i < j < table.len() ==> !same_symbol(#[trigger] table[i].name, #[trigger] table[j].name)
}

/// Whether `table` declares the symbol `name` at index `i`.
pub open spec fn declares_at(table: Seq<DeclarationView>, name: Seq<char>, i: int) -> bool {
    0 <= i < table.len() && same_symbol(table[i].name, name)
}

/// Whether `table` declares the symbol `name`.
pub open spec fn declares(table: Seq<DeclarationView>, name: Seq<char>) -> bool {
    exists|i: int| declares_at(table, name, i)
}

/// Where `table` declares the symbol `name`.
pub open spec fn position_of(table: Seq<DeclarationView>, name: Seq<char>) -> int {
    choose|i: int| declares_at(table, name, i)
}

/// The table after one more declaration. A symbol that is declared already
/// keeps its place and its first spelling; its path and span are replaced.
pub open spec fn declared(
    table: Seq<DeclarationView>,
    name: Seq<char>,
    path: Seq<char>,
    span: Span,
) -> Seq<DeclarationView> {
    if declares(table, name) {
        let i = position_of(table, name);
        table.update(i, DeclarationView { name: table[i].name, path, span })
    } else {
        table.push(DeclarationView { name, path, span })
    }
}

/// Declaring keeps the names of a table distinct.
pub proof fn lemma_declared_distinct(
    table: Seq<DeclarationView>,
    name: Seq<char>,
    path: Seq<char>,
    span: Span,
)
    requires
        distinct_names(table),
    ensures
        distinct_names(declared(table, name, path, span)),
{
    let after = declared(table, name, path, span);
    if declares(table, name) {
        let i = position_of(table, name);
        assert forall|a: int, b: int| 0 <= a < b < after.len() implies !same_symbol(
            #[trigger] after[a].name,
            #[trigger] after[b].name,
        ) by {
            assert(after[a].name == table[a].name);
            assert(after[b].name == table[b].name);
        }
    } else {
        assert forall|a: int, b: int| 0 <= a < b < after.len() implies !same_symbol(
            #[trigger] after[a].name,
            #[trigger] after[b].name,
        ) by {
            if b == table.len() {
                assert(after[a].name == table[a].name);
                assert(!declares_at(table, name, a));
            } else {
                assert(after[a].name == table[a].name);
                assert(after[b].name == table[b].name);
            }
        }
    }
}

/// A declaration is read back: after a symbol is declared, the table declares
/// it, with the path and the span that were given last.
pub proof fn lemma_declared_is_read_back(
    table: Seq<DeclarationView>,
    name: Seq<char>,
    path: Seq<char>,
    span: Span,
)
    requires
        distinct_names(table),
    ensures
        declares(declared(table, name, path, span), name),
        declared(table, name, path, span)[position_of(declared(table, name, path, span), name)].path
            == path,
        declared(table, name, path, span)[position_of(declared(table, name, path, span), name)].span
            == span,
{
    let after = declared(table, name, path, span);
    lemma_declared_distinct(table, name, path, span);
    if declares(table, name) {
        let i = position_of(table, name);
        assert(declares_at(table, name, i));
        assert(declares_at(after, name, i));
        lemma_position_unique(after, name, i);
    } else {
        let i = table.len() as int;
        assert(declares_at(after, name, i));
        lemma_position_unique(after, name, i);
    }
}

/// Declaring one symbol leaves the others as they are: another symbol is
/// declared after exactly if it was before, with the same path and span.
pub proof fn lemma_declared_keeps_others(
    table: Seq<DeclarationView>,
    name: Seq<char>,
    path: Seq<char>,
    span: Span,
    other: Seq<char>,
)
    requires
        distinct_names(table),
        !same_symbol(other, name),
    ensures
        declares(declared(table, name, path, span), other) == declares(table, other),
        declares(table, other) ==> declared(table, name, path, span)[position_of(
            declared(table, name, path, span),
            other,
        )] == table[position_of(table, other)],
{
    let after = declared(table, name, path, span);
    lemma_declared_distinct(table, name, path, span);
    if declares(table, other) {
        let k = position_of(table, other);
        assert(declares_at(table, other, k));
        if declares(table, name) {
            let i = position_of(table, name);
            assert(declares_at(table, name, i));
            assert(k != i);
        }
        assert(after[k] == table[k]);
        assert(declares_at(after, other, k));
        lemma_position_unique(after, other, k);
    }
    if declares(after, other) {
        let k = position_of(after, other);
        assert(declares_at(after, other, k));
        if declares(table, name) {
            let i = position_of(table, name);
            assert(declares_at(table, name, i));
            assert(after[i].name == table[i].name);
            assert(k != i);
            assert(declares_at(table, other, k));
        } else {
            assert(k != table.len());
            assert(declares_at(table, other, k));
        }
    }
}

/// The function table of one package, in the order of first declaration.
#[derive(Debug)]
pub struct FunctionTable {
    entries: Vec<Declaration>,
}

impl View for FunctionTable {
    type V = Seq<DeclarationView>;

    closed spec fn view(&self) -> Seq<DeclarationView> {
        self.entries@.map_values(|d: Declaration| d@)
    }
}

impl FunctionTable {
    #[verifier::type_invariant]
    spec fn names_distinct(self) -> bool {
        distinct_names(self@)
    }

    /// The table without declarations.
    pub fn new() -> (table: FunctionTable)
        ensures
            table@ == Seq::<DeclarationView>::empty(),
    {
        let table = FunctionTable { entries: Vec::new() };
        assert(table@ =~= Seq::<DeclarationView>::empty());
        table
    }

    /// The number of declarations.
    pub fn len(&self) -> (n: usize)
        ensures
            n == self@.len(),
            distinct_names(self@),
    {
        proof {
            use_type_invariant(self);
        }
        self.entries.len()
    }

    /// The declaration at index `i`.
    pub fn entry(&self, i: usize) -> (declaration: &Declaration)
        requires
            i < self@.len(),
        ensures
            declaration@ == self@[i as int],
    {
        &self.entries[i]
    }

    fn position(&self, name: &str) -> (found: Option<usize>)
        ensures
            match found {
                Some(i) => declares_at(self@, name@, i as int),
                None => !declares(self@, name@),
            },
    {
        let mut i: usize = 0;
        while i < self.entries.len()
            invariant
                i <= self.entries.len(),
                forall|j: int| 0 <= j < i ==> !declares_at(self@, name@, j),
            decreases self.entries.len() - i,
        {
            if symbol_eq(self.entries[i].name.as_str(), name) {
                return Some(i);
            }
            i += 1;
        }
        None
    }

    /// The declaration of the symbol `name`, if the table has one.
    pub fn get(&self, name: &str) -> (declaration: Option<&Declaration>)
        ensures
            declaration is Some == declares(self@, name@),
            declaration matches Some(d) ==> d@ == self@[position_of(self@, name@)],
    {
        proof {
            use_type_invariant(self);
        }
        match self.position(name) {
            Some(i) => {
                proof {
                    lemma_position_unique(self@, name@, i as int);
                }
                Some(&self.entries[i])
            },
            None => None,
        }
    }

    /// Declares a function. A later declaration of a symbol replaces the path
    /// and span of the earlier one.
    pub fn insert(&mut self, name: String, path: String, span: Span)
        ensures
            final(self)@ == declared(old(self)@, name@, path@, span),
            distinct_names(final(self)@),
    {
        proof {
            use_type_invariant(&*self);
            lemma_declared_distinct(self@, name@, path@, span);
        }
        let found = self.position(name.as_str());
        let mut entries: Vec<Declaration> = Vec::new();
        assert(entries@.map_values(|d: Declaration| d@) =~= Seq::<DeclarationView>::empty());
        core::mem::swap(&mut self.entries, &mut entries);
        match found {
            Some(i) => {
                proof {
                    lemma_position_unique(old(self)@, name@, i as int);
                }
                let first = entries[i].name.clone();
                entries.set(i, Declaration { name: first, path, span });
            },
            None => {
                entries.push(Declaration { name, path, span });
            },
        }
        assert(entries@.map_values(|d: Declaration| d@) =~= declared(
            old(self)@,
            name@,
            path@,
            span,
        ));
        self.entries = entries;
    }
}

impl Clone for FunctionTable {
    fn clone(&self) -> (copy: FunctionTable)
        ensures
            copy@ == self@,
    {
        proof {
            use_type_invariant(self);
        }
        let mut entries: Vec<Declaration> = Vec::new();
        let mut i: usize = 0;
        while i < self.entries.len()
            invariant
                i <= self.entries.len(),
                entries@.len() == i,
                forall|j: int| 0 <= j < i ==> entries@[j]@ == self.entries@[j]@,
            decreases self.entries.len() - i,
        {
            entries.push(self.entries[i].clone());
            i += 1;
        }
        assert(entries@.map_values(|d: Declaration| d@) =~= self@);
        FunctionTable { entries }
    }
}

/// In a table with distinct names a symbol is declared at one index only.
pub proof fn lemma_position_unique(table: Seq<DeclarationView>, name: Seq<char>, i: int)
    requires
        distinct_names(table),
        declares_at(table, name, i),
    ensures
        declares(table, name),
        position_of(table, name) == i,
{
    let j = position_of(table, name);
    assert(declares_at(table, name, j));
    if j < i {
        assert(!same_symbol(table[j].name, table[i].name));
    } else if i < j {
        assert(!same_symbol(table[i].name, table[j].name));
    }
}

} // verus!
