//! Aggregation: from a package's function table to the project index and the
//! diagnostics of one pass.

use vstd::prelude::*;
use crate::diagnostic::{diagnostics_view, Diagnostic, DiagnosticView};
use crate::index::{IndexEntry, IndexEntryView, ProjectIndex};
use crate::package::{PackageRoot, PackageRootView};
use crate::path::ProjectPath;
use crate::table::{DeclarationView, FunctionTable};
use crate::unit::{process_unit, unit_record, Fetched, FetchedView, Record, RecordView, Unit, UnitView};

verus! {

/// What the resolver found for the declaration at index `i`. A declaration
/// without an answer counts as unresolved.
pub open spec fn resolution_at(resolved: Seq<Option<ProjectPath>>, i: int) -> Option<
    Seq<Seq<char>>,
> {
    if 0 <= i < resolved.len() {
        match resolved[i] {
            Some(path) => Some(path@),
            None => None,
        }
    } else {
        None
    }
}

/// What came of the file of the unit at index `i`. A unit without an answer
/// counts as unreadable.
pub open spec fn fetched_at<A>(fetched: Seq<Fetched<A>>, i: int) -> FetchedView<A> {
    if 0 <= i < fetched.len() {
        fetched[i]@
    } else {
        FetchedView::Unreadable
    }
}

/// The unit of a declaration, given what its path resolved to.
pub open spec fn declared_unit(declaration: DeclarationView, resolution: Option<Seq<Seq<char>>>) -> UnitView {
    match resolution {
        Some(path) => UnitView::Declared { name: declaration.name, span: declaration.span, path },
        None => UnitView::Unresolved {
            name: declaration.name,
            span: declaration.span,
            declared: declaration.path,
        },
    }
}

/// The units of one pass: one for each declaration of the table, in the
/// table's order, then one for each default script, placed in the package's
/// directory.
pub open spec fn units_of(
    root: PackageRootView,
    table: Seq<DeclarationView>,
    resolved: Seq<Option<ProjectPath>>,
    defaults: Seq<ProjectPath>,
) -> Seq<UnitView> {
    Seq::new(table.len(), |i: int| declared_unit(table[i], resolution_at(resolved, i))) + Seq::new(
        defaults.len(),
        |i: int| UnitView::Default { path: root.directory + defaults[i]@ },
    )
}

/// The records of the units, in the units' order. The unit at index `i` goes
/// with what was fetched at index `i`.
pub open spec fn records<A>(
    document: Seq<Seq<char>>,
    units: Seq<UnitView>,
    fetched: Seq<Fetched<A>>,
) -> Seq<RecordView<A>>
    decreases units.len(),
{
    if units.len() == 0 {
        Seq::empty()
    } else {
        let front = records(document, units.drop_last(), fetched);
        match unit_record(document, units.last(), fetched_at(fetched, units.len() - 1)) {
            Some(record) => front.push(record),
            None => front,
        }
    }
}

/// The index and the diagnostics after one more record. A record with an
/// analysis is written to the index at its path, in place of what was there.
/// Its diagnostics go behind those that are there.
pub open spec fn absorbed<A>(
    so_far: (Map<Seq<Seq<char>>, IndexEntryView<A>>, Seq<DiagnosticView>),
    record: RecordView<A>,
) -> (Map<Seq<Seq<char>>, IndexEntryView<A>>, Seq<DiagnosticView>) {
    (
        match record.analysis {
            Some(analysis) => so_far.0.insert(
                record.path,
                IndexEntryView { name: record.name, analysis },
            ),
            None => so_far.0,
        },
        so_far.1 + record.diagnostics,
    )
}

/// The index and the diagnostics of a list of records, absorbed in order.
pub open spec fn merged<A>(records: Seq<RecordView<A>>) -> (
    Map<Seq<Seq<char>>, IndexEntryView<A>>,
    Seq<DiagnosticView>,
)
    decreases records.len(),
{
    if records.len() == 0 {
        (Map::empty(), Seq::empty())
    } else {
        absorbed(merged(records.drop_last()), records.last())
    }
}

/// The index and the diagnostics of one pass over a package.
pub open spec fn processed<A>(
    root: PackageRootView,
    table: Seq<DeclarationView>,
    resolved: Seq<Option<ProjectPath>>,
    defaults: Seq<ProjectPath>,
    fetched: Seq<Fetched<A>>,
) -> (Map<Seq<Seq<char>>, IndexEntryView<A>>, Seq<DiagnosticView>) {
    merged(records(root.document_path(), units_of(root, table, resolved, defaults), fetched))
}

/// The views of a list of records, in order.
pub open spec fn records_view<A>(records: Seq<Record<A>>) -> Seq<RecordView<A>> {
    records.map_values(|r: Record<A>| r@)
}

/// The views of a list of units, in order.
pub open spec fn units_view(units: Seq<Unit>) -> Seq<UnitView> {
    units.map_values(|u: Unit| u@)
}

/// Lays out the units of one pass over the package at `root`: its declared
/// functions, each with what the resolver found for its path, then its
/// default scripts, given relative to the package's directory.
pub fn work_units(
    root: &PackageRoot,
    functions: &FunctionTable,
    resolved: &Vec<Option<ProjectPath>>,
    defaults: &Vec<ProjectPath>,
) -> (units: Vec<Unit>)
    ensures
        units_view(units@) == units_of(root@, functions@, resolved@, defaults@),
{
    let mut units: Vec<Unit> = Vec::new();
    let declared = functions.len();
    let mut i: usize = 0;
    while i < declared
        invariant
            i <= declared,
            declared == functions@.len(),
            units@.len() == i,
            forall|j: int|
                0 <= j < i ==> (#[trigger] units@[j])@ == declared_unit(
                    functions@[j],
                    resolution_at(resolved@, j),
                ),
        decreases declared - i,
    {
        let declaration = functions.entry(i);
        let name = declaration.name.clone();
        let span = declaration.span;
        let unit = if i < resolved.len() {
            match &resolved[i] {
                Some(path) => Unit::Declared { name, span, path: path.clone() },
                None => Unit::Unresolved { name, span, declared: declaration.path.clone() },
            }
        } else {
            Unit::Unresolved { name, span, declared: declaration.path.clone() }
        };
        units.push(unit);
        i += 1;
    }
    let mut k: usize = 0;
    while k < defaults.len()
        invariant
            k <= defaults.len(),
            declared == functions@.len(),
            units@.len() == declared + k,
            forall|j: int|
                0 <= j < declared ==> (#[trigger] units@[j])@ == declared_unit(
                    functions@[j],
                    resolution_at(resolved@, j),
                ),
            forall|j: int|
                declared <= j < declared + k ==> (#[trigger] units@[j])@ == (UnitView::Default {
                    path: root@.directory + defaults@[j - declared]@,
                }),
        decreases defaults.len() - k,
    {
        units.push(Unit::Default { path: root.directory.join_path(&defaults[k]) });
        k += 1;
    }
    assert(units_view(units@) =~= units_of(root@, functions@, resolved@, defaults@));
    units
}

/// Absorbs the records, in order, into an index and a list of diagnostics.
/// Of two records with an analysis for one path, the later one stays in the
/// index. Every diagnostic stays, in the order of the records.
pub fn merge<A>(records: Vec<Record<A>>) -> (result: (ProjectIndex<A>, Vec<Diagnostic>))
    ensures
        result.0@ == merged(records_view(records@)).0,
        diagnostics_view(result.1@) == merged(records_view(records@)).1,
{
    let ghost all = records_view(records@);
    let ghost given = records@;
    let mut index: ProjectIndex<A> = ProjectIndex::new();
    let mut diagnostics: Vec<Diagnostic> = Vec::new();
    assert(diagnostics_view(diagnostics@) =~= Seq::<DiagnosticView>::empty());
    assert(all.take(0) =~= Seq::<RecordView<A>>::empty());
    for record in it: records
        invariant
            it.seq() == given,
            all == records_view(given),
            index@ == merged(all.take(it.index())).0,
            diagnostics_view(diagnostics@) == merged(all.take(it.index())).1,
    {
        let ghost at = it.index();
        let ghost before = diagnostics_view(diagnostics@);
        let Record { path, name, diagnostics: mut found, analysis } = record;
        proof {
            assert(all.take(at + 1).drop_last() =~= all.take(at));
            assert(all.take(at + 1).last() == record@);
        }
        match analysis {
            Some(analysis) => {
                index.insert(path, IndexEntry { name, analysis });
            },
            None => {},
        }
        diagnostics.append(&mut found);
        assert(diagnostics_view(diagnostics@) =~= before + record@.diagnostics);
    }
    assert(all.take(all.len() as int) =~= all);
    (index, diagnostics)
}

fn reversed<T>(items: Vec<T>) -> (turned: Vec<T>)
    ensures
        turned@.len() == items@.len(),
        forall|i: int| 0 <= i < items@.len() ==> turned@[i] == items@[items@.len() - 1 - i],
{
    let ghost all = items@;
    let mut items = items;
    let mut turned: Vec<T> = Vec::new();
    while items.len() > 0
        invariant
            items@.len() + turned@.len() == all.len(),
            items@ == all.take(items@.len() as int),
            forall|i: int| 0 <= i < turned@.len() ==> turned@[i] == all[all.len() - 1 - i],
        decreases items@.len(),
    {
        match items.pop() {
            Some(item) => turned.push(item),
            None => {},
        }
    }
    turned
}

/// One pass over the package at `root`.
///
/// `resolved` holds, for each declaration of `functions`, what the resolver
/// found for its path. `defaults` are the package's default scripts, relative
/// to its directory. `fetched` holds, for each unit that `work_units` lays
/// out, what came of its file. The result is the index of the files that were
/// analyzed and the diagnostics of all units.
pub fn process<A>(
    root: &PackageRoot,
    functions: &FunctionTable,
    resolved: &Vec<Option<ProjectPath>>,
    defaults: &Vec<ProjectPath>,
    fetched: Vec<Fetched<A>>,
) -> (result: (ProjectIndex<A>, Vec<Diagnostic>))
    ensures
        result.0@ == processed(root@, functions@, resolved@, defaults@, fetched@).0,
        diagnostics_view(result.1@) == processed(
            root@,
            functions@,
            resolved@,
            defaults@,
            fetched@,
        ).1,
{
    let document = root.document_path();
    let units = work_units(root, functions, resolved, defaults);
    let ghost all = units_view(units@);
    let total = units.len();
    let mut units = reversed(units);
    let mut rest = reversed(fetched);
    let mut kept: Vec<Record<A>> = Vec::new();
    let mut done: usize = 0;
    assert(records_view(kept@) =~= records(document@, all.take(0), fetched@));
    while done < total
        invariant
            done <= total,
            total == all.len(),
            units@.len() == total - done,
            forall|i: int| 0 <= i < units@.len() ==> (#[trigger] units@[i])@ == all[total - 1 - i],
            rest@.len() == if done <= fetched@.len() {
                fetched@.len() - done
            } else {
                0
            },
            forall|i: int|
                0 <= i < rest@.len() ==> #[trigger] rest@[i] == fetched@[fetched@.len() - 1 - i],
            records_view(kept@) == records(document@, all.take(done as int), fetched@),
        decreases total - done,
    {
        let ghost before = records_view(kept@);
        let unit = units.pop().unwrap();
        let came = match rest.pop() {
            Some(came) => came,
            None => Fetched::Unreadable,
        };
        proof {
            assert(unit@ == all[done as int]);
            assert(came@ == fetched_at(fetched@, done as int));
            assert(all.take(done + 1).drop_last() =~= all.take(done as int));
            assert(all.take(done + 1).last() == all[done as int]);
        }
        match process_unit(&document, unit, came) {
            Some(record) => {
                kept.push(record);
                assert(records_view(kept@) =~= before.push(record@));
            },
            None => {},
        }
        done += 1;
    }
    assert(all.take(total as int) =~= all);
    merge(kept)
}

} // verus!
