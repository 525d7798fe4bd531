//! What holds of every aggregation pass.

use vstd::prelude::*;
use vstd::multiset::Multiset;
use vstd::seq_lib::{lemma_fold_left_permutation, lemma_multiset_commutative};
use crate::aggregate::{
    declared_unit, fetched_at, merged, processed, records, resolution_at, units_of,
};
use crate::diagnostic::{unreadable_message, unresolved_message, DiagnosticView};
use crate::index::IndexEntryView;
use crate::package::PackageRootView;
use crate::path::ProjectPath;
use crate::symbol::same_symbol;
use crate::table::{distinct_names, DeclarationView};
use crate::unit::{unit_record, Fetched, FetchedView, RecordView, UnitView};

verus! {

/// Whether `record` writes to the index at `path`: it is filed under that
/// path and has an analysis.
pub open spec fn writes<A>(record: RecordView<A>, path: Seq<Seq<char>>) -> bool {
    record.path == path && record.analysis is Some
}

/// The index entry that a record with an analysis writes.
pub open spec fn entry_of<A>(record: RecordView<A>) -> IndexEntryView<A> {
    IndexEntryView { name: record.name, analysis: record.analysis->0 }
}

/// The diagnostics of each record, in the records' order.
pub open spec fn diagnostics_of<A>(records: Seq<RecordView<A>>) -> Seq<Seq<DiagnosticView>> {
    records.map_values(|r: RecordView<A>| r.diagnostics)
}

/// The index holds a path exactly if some record writes to it.
pub proof fn lemma_index_keys<A>(records: Seq<RecordView<A>>, path: Seq<Seq<char>>)
    ensures
        merged(records).0.contains_key(path) <==> exists|k: int|
            0 <= k < records.len() && writes(#[trigger] records[k], path),
    decreases records.len(),
{
    if records.len() > 0 {
        let front = records.drop_last();
        lemma_index_keys(front, path);
        if merged(front).0.contains_key(path) {
            let k = choose|k: int| 0 <= k < front.len() && writes(#[trigger] front[k], path);
            assert(writes(records[k], path));
        }
        if writes(records.last(), path) {
            assert(writes(records[records.len() - 1], path));
        }
        if exists|k: int| 0 <= k < records.len() && writes(#[trigger] records[k], path) {
            let k = choose|k: int| 0 <= k < records.len() && writes(#[trigger] records[k], path);
            if k < front.len() {
                assert(writes(front[k], path));
            }
        }
    }
}

/// The last write to a path wins: where a record writes to a path and none
/// after it does, the index holds that record's entry at the path.
pub proof fn lemma_last_write_wins<A>(records: Seq<RecordView<A>>, k: int)
    requires
        0 <= k < records.len(),
        records[k].analysis is Some,
        forall|j: int| k < j < records.len() ==> !writes(#[trigger] records[j], records[k].path),
    ensures
        merged(records).0.contains_key(records[k].path),
        merged(records).0[records[k].path] == entry_of(records[k]),
    decreases records.len(),
{
    let front = records.drop_last();
    if k < records.len() - 1 {
        assert forall|j: int| k < j < front.len() implies !writes(
            #[trigger] front[j],
            front[k].path,
        ) by {
            assert(front[j] == records[j]);
        }
        lemma_last_write_wins(front, k);
        assert(!writes(records[records.len() - 1], records[k].path));
    }
}

/// Every entry of the index is the entry of a record that writes to its path.
pub proof fn lemma_index_entry_source<A>(records: Seq<RecordView<A>>, path: Seq<Seq<char>>)
    requires
        merged(records).0.contains_key(path),
    ensures
        exists|k: int|
            0 <= k < records.len() && writes(#[trigger] records[k], path) && merged(records).0[path]
                == entry_of(records[k]),
    decreases records.len(),
{
    if records.len() > 0 {
        let front = records.drop_last();
        if writes(records.last(), path) {
            assert(writes(records[records.len() - 1], path));
        } else {
            lemma_index_entry_source(front, path);
            let k = choose|k: int|
                0 <= k < front.len() && writes(#[trigger] front[k], path) && merged(front).0[path]
                    == entry_of(front[k]);
            assert(writes(records[k], path));
        }
    }
}

/// The diagnostics of a pass are those of its records, one record after the
/// other, each record's in their own order.
pub proof fn lemma_diagnostics_concatenated<A>(records: Seq<RecordView<A>>)
    ensures
        merged(records).1 == diagnostics_of(records).flatten(),
{
    lemma_diagnostics_from_the_end(records);
    diagnostics_of(records).lemma_flatten_and_flatten_alt_are_equivalent();
}

proof fn lemma_diagnostics_from_the_end<A>(records: Seq<RecordView<A>>)
    ensures
        merged(records).1 == diagnostics_of(records).flatten_alt(),
    decreases records.len(),
{
    if records.len() > 0 {
        lemma_diagnostics_from_the_end(records.drop_last());
        assert(diagnostics_of(records).drop_last() =~= diagnostics_of(records.drop_last()));
    }
}

/// A unit that has a record has it among the records of the pass.
pub proof fn lemma_record_kept<A>(
    document: Seq<Seq<char>>,
    units: Seq<UnitView>,
    fetched: Seq<Fetched<A>>,
    i: int,
)
    requires
        0 <= i < units.len(),
        unit_record(document, units[i], fetched_at(fetched, i)) is Some,
    ensures
        records(document, units, fetched).contains(
            unit_record(document, units[i], fetched_at(fetched, i))->0,
        ),
    decreases units.len(),
{
    let all = records(document, units, fetched);
    let front = records(document, units.drop_last(), fetched);
    let record = unit_record(document, units[i], fetched_at(fetched, i))->0;
    if i == units.len() - 1 {
        assert(all == front.push(record));
        assert(all[all.len() - 1] == record);
    } else {
        lemma_record_kept(document, units.drop_last(), fetched, i);
        let k = choose|k: int| 0 <= k < front.len() && front[k] == record;
        assert(all[k] == record);
    }
}

/// Every record of a pass is the record of one of its units.
pub proof fn lemma_record_source<A>(
    document: Seq<Seq<char>>,
    units: Seq<UnitView>,
    fetched: Seq<Fetched<A>>,
    k: int,
)
    requires
        0 <= k < records(document, units, fetched).len(),
    ensures
        exists|i: int|
            0 <= i < units.len() && #[trigger] unit_record(
                document,
                units[i],
                fetched_at(fetched, i),
            ) == Some(records(document, units, fetched)[k]),
    decreases units.len(),
{
    let all = records(document, units, fetched);
    if units.len() > 0 {
        let front = records(document, units.drop_last(), fetched);
        let last = units.len() - 1;
        if k < front.len() {
            lemma_record_source(document, units.drop_last(), fetched, k);
            let i = choose|i: int|
                0 <= i < units.drop_last().len() && #[trigger] unit_record(
                    document,
                    units.drop_last()[i],
                    fetched_at(fetched, i),
                ) == Some(front[k]);
            assert(units.drop_last()[i] == units[i]);
            assert(unit_record(document, units[i], fetched_at(fetched, i)) == Some(all[k]));
        } else {
            assert(unit_record(document, units[last], fetched_at(fetched, last)) == Some(all[k]));
        }
    }
}

/// Every diagnostic of a record is among the diagnostics of the pass.
pub proof fn lemma_diagnostic_kept<A>(records: Seq<RecordView<A>>, k: int, d: int)
    requires
        0 <= k < records.len(),
        0 <= d < records[k].diagnostics.len(),
    ensures
        merged(records).1.contains(records[k].diagnostics[d]),
    decreases records.len(),
{
    let front = merged(records.drop_last()).1;
    let all = merged(records).1;
    if k == records.len() - 1 {
        assert(all[front.len() + d] == records[k].diagnostics[d]);
    } else {
        lemma_diagnostic_kept(records.drop_last(), k, d);
        let at = choose|at: int| 0 <= at < front.len() && front[at] == records[k].diagnostics[d];
        assert(all[at] == records[k].diagnostics[d]);
    }
}

/// A declared function whose path resolves, and whose file the analyzer went
/// through, has that file in the index.
pub proof fn lemma_analyzed_function_is_indexed<A>(
    root: PackageRootView,
    table: Seq<DeclarationView>,
    resolved: Seq<Option<ProjectPath>>,
    defaults: Seq<ProjectPath>,
    fetched: Seq<Fetched<A>>,
    i: int,
)
    requires
        0 <= i < table.len(),
        resolution_at(resolved, i) is Some,
        fetched_at(fetched, i) matches FetchedView::Read(Ok(_)),
    ensures
        processed(root, table, resolved, defaults, fetched).0.contains_key(
            resolution_at(resolved, i)->0,
        ),
{
    let document = root.document_path();
    let units = units_of(root, table, resolved, defaults);
    let path = resolution_at(resolved, i)->0;
    assert(units[i] == declared_unit(table[i], resolution_at(resolved, i)));
    lemma_record_kept(document, units, fetched, i);
    let all = records(document, units, fetched);
    let record = unit_record(document, units[i], fetched_at(fetched, i))->0;
    let k = choose|k: int| 0 <= k < all.len() && all[k] == record;
    assert(writes(all[k], path));
    lemma_index_keys(all, path);
}

/// The diagnostic for a function that the table declares at index `i`, when
/// its file cannot be read or its path does not resolve: it is anchored at the
/// declaration, in the configuration document.
pub open spec fn failure_diagnostic(
    root: PackageRootView,
    declaration: DeclarationView,
    resolution: Option<Seq<Seq<char>>>,
) -> DiagnosticView {
    DiagnosticView {
        message: match resolution {
            Some(path) => unreadable_message(declaration.name, path),
            None => unresolved_message(declaration.name, declaration.path),
        },
        span: declaration.span,
        document: root.document_path(),
    }
}

/// Whether the function that the table declares at index `i` failed before
/// the analyzer: its path did not resolve, or its file could not be read.
pub open spec fn failed_before_analysis<A>(
    resolved: Seq<Option<ProjectPath>>,
    fetched: Seq<Fetched<A>>,
    i: int,
) -> bool {
    resolution_at(resolved, i) is None || fetched_at(fetched, i) is Unreadable
}

/// A declared function whose file is missing, or whose path does not resolve,
/// has a record with exactly one diagnostic, anchored at its declaration in
/// the configuration document, and that diagnostic is among those of the pass.
pub proof fn lemma_failed_function_is_reported<A>(
    root: PackageRootView,
    table: Seq<DeclarationView>,
    resolved: Seq<Option<ProjectPath>>,
    defaults: Seq<ProjectPath>,
    fetched: Seq<Fetched<A>>,
    i: int,
)
    requires
        0 <= i < table.len(),
        failed_before_analysis(resolved, fetched, i),
    ensures
        unit_record(
            root.document_path(),
            units_of(root, table, resolved, defaults)[i],
            fetched_at(fetched, i),
        ) matches Some(record) && record.analysis is None && record.diagnostics == seq![
            failure_diagnostic(root, table[i], resolution_at(resolved, i)),
        ],
        processed(root, table, resolved, defaults, fetched).1.contains(
            failure_diagnostic(root, table[i], resolution_at(resolved, i)),
        ),
{
    let document = root.document_path();
    let units = units_of(root, table, resolved, defaults);
    assert(units[i] == declared_unit(table[i], resolution_at(resolved, i)));
    lemma_record_kept(document, units, fetched, i);
    let all = records(document, units, fetched);
    let record = unit_record(document, units[i], fetched_at(fetched, i))->0;
    let k = choose|k: int| 0 <= k < all.len() && all[k] == record;
    lemma_diagnostic_kept(all, k, 0);
}

/// A declared function whose file is missing, or whose path does not resolve,
/// has no entry in the index: no entry carries its name.
pub proof fn lemma_failed_function_is_not_indexed<A>(
    root: PackageRootView,
    table: Seq<DeclarationView>,
    resolved: Seq<Option<ProjectPath>>,
    defaults: Seq<ProjectPath>,
    fetched: Seq<Fetched<A>>,
    i: int,
)
    requires
        distinct_names(table),
        0 <= i < table.len(),
        failed_before_analysis(resolved, fetched, i),
    ensures
        forall|path: Seq<Seq<char>>|
            #![trigger processed(root, table, resolved, defaults, fetched).0[path]]
            processed(root, table, resolved, defaults, fetched).0.contains_key(path) ==> processed(
                root,
                table,
                resolved,
                defaults,
                fetched,
            ).0[path].name != Some(table[i].name),
{
    let document = root.document_path();
    let units = units_of(root, table, resolved, defaults);
    let all = records(document, units, fetched);
    let index = processed(root, table, resolved, defaults, fetched).0;
    assert forall|path: Seq<Seq<char>>| #![trigger index[path]] index.contains_key(path) implies index[path].name
        != Some(table[i].name) by {
        if index[path].name == Some(table[i].name) {
            lemma_index_entry_source(all, path);
            let k = choose|k: int|
                0 <= k < all.len() && writes(#[trigger] all[k], path) && index[path] == entry_of(
                    all[k],
                );
            lemma_record_source(document, units, fetched, k);
            let u = choose|u: int|
                0 <= u < units.len() && #[trigger] unit_record(
                    document,
                    units[u],
                    fetched_at(fetched, u),
                ) == Some(all[k]);
            if u < table.len() {
                assert(units[u] == declared_unit(table[u], resolution_at(resolved, u)));
                assert(table[u].name == table[i].name);
                assert(same_symbol(table[u].name, table[i].name));
                assert(u == i);
                assert(units[i] == declared_unit(table[i], resolution_at(resolved, i)));
                assert(false);
            } else {
                assert(units[u] == (UnitView::Default {
                    path: root.directory + defaults[u - table.len()]@,
                }));
                assert(false);
            }
        }
    }
}

/// What was fetched, without the answer at index `u` where there is one.
pub open spec fn without<A>(fetched: Seq<Fetched<A>>, u: int) -> Seq<Fetched<A>> {
    if 0 <= u < fetched.len() {
        fetched.remove(u)
    } else {
        fetched
    }
}

proof fn lemma_records_agree<A>(
    document: Seq<Seq<char>>,
    units: Seq<UnitView>,
    one: Seq<Fetched<A>>,
    other: Seq<Fetched<A>>,
)
    requires
        forall|j: int| 0 <= j < units.len() ==> fetched_at(one, j) == fetched_at(other, j),
    ensures
        records(document, units, one) == records(document, units, other),
    decreases units.len(),
{
    if units.len() > 0 {
        lemma_records_agree(document, units.drop_last(), one, other);
    }
}

/// A unit without a record leaves no trace: the records of the pass are those
/// of the pass without that unit.
pub proof fn lemma_silent_unit<A>(
    document: Seq<Seq<char>>,
    units: Seq<UnitView>,
    fetched: Seq<Fetched<A>>,
    u: int,
)
    requires
        0 <= u < units.len(),
        unit_record(document, units[u], fetched_at(fetched, u)) is None,
    ensures
        records(document, units.remove(u), without(fetched, u)) == records(document, units, fetched),
    decreases units.len(),
{
    let last = units.len() - 1;
    let fewer = without(fetched, u);
    if u == last {
        assert(units.remove(u) =~= units.drop_last());
        lemma_records_agree(document, units.drop_last(), fetched, fewer);
    } else {
        assert(units.remove(u).drop_last() =~= units.drop_last().remove(u));
        assert(units.remove(u).last() == units.last());
        assert(fetched_at(fewer, last - 1) == fetched_at(fetched, last));
        lemma_silent_unit(document, units.drop_last(), fetched, u);
    }
}

/// A default script that cannot be read leaves no trace: the index and the
/// diagnostics are those of the package without that script.
pub proof fn lemma_absent_default_is_silent<A>(
    root: PackageRootView,
    table: Seq<DeclarationView>,
    resolved: Seq<Option<ProjectPath>>,
    defaults: Seq<ProjectPath>,
    fetched: Seq<Fetched<A>>,
    k: int,
)
    requires
        0 <= k < defaults.len(),
        fetched_at(fetched, table.len() + k) is Unreadable,
    ensures
        unit_record::<A>(
            root.document_path(),
            units_of(root, table, resolved, defaults)[table.len() + k],
            fetched_at(fetched, table.len() + k),
        ) is None,
        processed(root, table, resolved, defaults.remove(k), without(fetched, table.len() + k))
            == processed(root, table, resolved, defaults, fetched),
{
    let units = units_of(root, table, resolved, defaults);
    let u = table.len() + k;
    assert(units[u] == (UnitView::Default { path: root.directory + defaults[k]@ }));
    assert(units_of(root, table, resolved, defaults.remove(k)) =~= units.remove(u));
    lemma_silent_unit(root.document_path(), units, fetched, u);
}

/// The diagnostics of the records, as a bag.
pub open spec fn diagnostics_bag<A>(records: Seq<RecordView<A>>) -> Multiset<DiagnosticView> {
    records.fold_left(
        Multiset::empty(),
        |bag: Multiset<DiagnosticView>, r: RecordView<A>| bag.add(r.diagnostics.to_multiset()),
    )
}

proof fn lemma_diagnostics_bag<A>(records: Seq<RecordView<A>>)
    ensures
        merged(records).1.to_multiset() == diagnostics_bag(records),
    decreases records.len(),
{
    if records.len() == 0 {
        assert(merged(records).1.to_multiset() =~= Multiset::empty()) by {
            merged(records).1.to_multiset_ensures();
        }
    } else {
        lemma_diagnostics_bag(records.drop_last());
        lemma_multiset_commutative(merged(records.drop_last()).1, records.last().diagnostics);
    }
}

/// The order in which the records reach the merge does not matter to which
/// files the index holds, nor to which diagnostics come out: two orders of the
/// same records give the same paths and the same diagnostics, each as often.
pub proof fn lemma_order_is_immaterial<A>(one: Seq<RecordView<A>>, other: Seq<RecordView<A>>)
    requires
        one.to_multiset() == other.to_multiset(),
    ensures
        merged(one).0.dom() == merged(other).0.dom(),
        merged(one).1.to_multiset() == merged(other).1.to_multiset(),
{
    assert forall|path: Seq<Seq<char>>| merged(one).0.contains_key(path) == merged(
        other,
    ).0.contains_key(path) by {
        lemma_index_keys(one, path);
        lemma_index_keys(other, path);
        lemma_same_writers(one, other, path);
        lemma_same_writers(other, one, path);
    }
    assert(merged(one).0.dom() =~= merged(other).0.dom());
    let gather = |bag: Multiset<DiagnosticView>, r: RecordView<A>|
        bag.add(r.diagnostics.to_multiset());
    assert forall|x: RecordView<A>, y: RecordView<A>, v: Multiset<DiagnosticView>| #[trigger]
        gather(gather(v, x), y) == gather(gather(v, y), x) by {
        assert(v.add(x.diagnostics.to_multiset()).add(y.diagnostics.to_multiset()) =~= v.add(
            y.diagnostics.to_multiset(),
        ).add(x.diagnostics.to_multiset()));
    }
    lemma_fold_left_permutation(one, other, gather, Multiset::empty());
    lemma_diagnostics_bag(one);
    lemma_diagnostics_bag(other);
}

proof fn lemma_same_writers<A>(
    one: Seq<RecordView<A>>,
    other: Seq<RecordView<A>>,
    path: Seq<Seq<char>>,
)
    requires
        one.to_multiset() == other.to_multiset(),
    ensures
        (exists|k: int| 0 <= k < one.len() && writes(#[trigger] one[k], path)) ==> (exists|k: int|
            0 <= k < other.len() && writes(#[trigger] other[k], path)),
{
    if exists|k: int| 0 <= k < one.len() && writes(#[trigger] one[k], path) {
        let k = choose|k: int| 0 <= k < one.len() && writes(#[trigger] one[k], path);
        one.to_multiset_ensures();
        other.to_multiset_ensures();
        assert(one.contains(one[k]));
        assert(other.to_multiset().count(one[k]) > 0);
        assert(other.contains(one[k]));
        let j = choose|j: int| 0 <= j < other.len() && other[j] == one[k];
        assert(writes(other[j], path));
    }
}

/// One declaration of a table with the answers that belong to it: what the
/// resolver found for its path, and what came of its file.
pub struct Row<A> {
    pub declaration: DeclarationView,
    pub resolution: Option<Seq<Seq<char>>>,
    pub fetched: FetchedView<A>,
}

/// What came of the file of the default script at index `k`, in a pass over a
/// table of `declared` declarations.
pub open spec fn default_answer<A>(fetched: Seq<Fetched<A>>, declared: nat, k: int) -> FetchedView<A> {
    fetched_at(fetched, declared + k)
}

/// The rows of a table, in the table's order.
pub open spec fn rows<A>(
    table: Seq<DeclarationView>,
    resolved: Seq<Option<ProjectPath>>,
    fetched: Seq<Fetched<A>>,
) -> Seq<Row<A>> {
    Seq::new(
        table.len(),
        |i: int|
            Row {
                declaration: table[i],
                resolution: resolution_at(resolved, i),
                fetched: fetched_at(fetched, i),
            },
    )
}

/// The record of a row, where it has one.
pub open spec fn row_record<A>(document: Seq<Seq<char>>, row: Row<A>) -> Option<RecordView<A>> {
    unit_record(document, declared_unit(row.declaration, row.resolution), row.fetched)
}

spec fn gathering<A>(document: Seq<Seq<char>>) -> spec_fn(Multiset<RecordView<A>>, Row<A>) -> Multiset<
    RecordView<A>,
> {
    |bag: Multiset<RecordView<A>>, row: Row<A>|
        match row_record(document, row) {
            Some(record) => bag.insert(record),
            None => bag,
        }
}

proof fn lemma_records_of_rows<A>(
    root: PackageRootView,
    table: Seq<DeclarationView>,
    resolved: Seq<Option<ProjectPath>>,
    fetched: Seq<Fetched<A>>,
)
    ensures
        records(
            root.document_path(),
            units_of(root, table, resolved, Seq::empty()),
            fetched,
        ).to_multiset() == rows(table, resolved, fetched).fold_left(
            Multiset::empty(),
            gathering(root.document_path()),
        ),
    decreases table.len(),
{
    let document = root.document_path();
    let units = units_of(root, table, resolved, Seq::empty());
    let all = rows(table, resolved, fetched);
    if table.len() == 0 {
        assert(units =~= Seq::<UnitView>::empty());
        records::<A>(document, units, fetched).to_multiset_ensures();
    } else {
        let front = table.drop_last();
        lemma_records_of_rows(root, front, resolved, fetched);
        assert(units.drop_last() =~= units_of(root, front, resolved, Seq::empty()));
        assert(all.drop_last() =~= rows(front, resolved, fetched));
        assert(units.last() == declared_unit(
            table.last(),
            resolution_at(resolved, table.len() - 1),
        ));
        assert(row_record(document, all.last()) == unit_record(
            document,
            units.last(),
            fetched_at(fetched, units.len() - 1),
        ));
        match row_record(document, all.last()) {
            Some(record) => {
                vstd::seq_lib::to_multiset_build(
                    records(document, units.drop_last(), fetched),
                    record,
                );
            },
            None => {},
        }
    }
}

proof fn lemma_defaults_follow<A>(
    root: PackageRootView,
    one: Seq<DeclarationView>,
    one_resolved: Seq<Option<ProjectPath>>,
    one_fetched: Seq<Fetched<A>>,
    other: Seq<DeclarationView>,
    other_resolved: Seq<Option<ProjectPath>>,
    other_fetched: Seq<Fetched<A>>,
    defaults: Seq<ProjectPath>,
)
    requires
        one.len() == other.len(),
        forall|k: int|
            0 <= k < defaults.len() ==> #[trigger] default_answer(one_fetched, one.len(), k)
                == default_answer(other_fetched, other.len(), k),
        records(
            root.document_path(),
            units_of(root, one, one_resolved, Seq::empty()),
            one_fetched,
        ).to_multiset() == records(
            root.document_path(),
            units_of(root, other, other_resolved, Seq::empty()),
            other_fetched,
        ).to_multiset(),
    ensures
        records(
            root.document_path(),
            units_of(root, one, one_resolved, defaults),
            one_fetched,
        ).to_multiset() == records(
            root.document_path(),
            units_of(root, other, other_resolved, defaults),
            other_fetched,
        ).to_multiset(),
    decreases defaults.len(),
{
    let document = root.document_path();
    if defaults.len() == 0 {
        assert(defaults =~= Seq::empty());
    } else {
        let fewer = defaults.drop_last();
        lemma_defaults_follow(
            root,
            one,
            one_resolved,
            one_fetched,
            other,
            other_resolved,
            other_fetched,
            fewer,
        );
        let one_units = units_of(root, one, one_resolved, defaults);
        let other_units = units_of(root, other, other_resolved, defaults);
        let last = UnitView::Default { path: root.directory + defaults.last()@ };
        assert(one_units.drop_last() =~= units_of(root, one, one_resolved, fewer));
        assert(other_units.drop_last() =~= units_of(root, other, other_resolved, fewer));
        assert(one_units.last() == last);
        assert(other_units.last() == last);
        let k = defaults.len() - 1;
        assert(default_answer(one_fetched, one.len(), k) == default_answer(
            other_fetched,
            other.len(),
            k,
        ));
        match unit_record(document, last, fetched_at(one_fetched, one.len() + k)) {
            Some(record) => {
                vstd::seq_lib::to_multiset_build(
                    records(document, one_units.drop_last(), one_fetched),
                    record,
                );
                vstd::seq_lib::to_multiset_build(
                    records(document, other_units.drop_last(), other_fetched),
                    record,
                );
            },
            None => {},
        }
    }
}

/// The order of a table does not matter to which files the index holds, nor
/// to which diagnostics come out. Two passes over one package whose tables
/// hold the same declarations, each with the same answers, in whatever order,
/// and whose default scripts have the same answers, give the same records up
/// to their order, the same paths in the index, and the same diagnostics,
/// each as often.
pub proof fn lemma_table_order_is_immaterial<A>(
    root: PackageRootView,
    defaults: Seq<ProjectPath>,
    one: Seq<DeclarationView>,
    one_resolved: Seq<Option<ProjectPath>>,
    one_fetched: Seq<Fetched<A>>,
    other: Seq<DeclarationView>,
    other_resolved: Seq<Option<ProjectPath>>,
    other_fetched: Seq<Fetched<A>>,
)
    requires
        rows(one, one_resolved, one_fetched).to_multiset() == rows(
            other,
            other_resolved,
            other_fetched,
        ).to_multiset(),
        forall|k: int|
            0 <= k < defaults.len() ==> #[trigger] default_answer(one_fetched, one.len(), k)
                == default_answer(other_fetched, other.len(), k),
    ensures
        records(
            root.document_path(),
            units_of(root, one, one_resolved, defaults),
            one_fetched,
        ).to_multiset() == records(
            root.document_path(),
            units_of(root, other, other_resolved, defaults),
            other_fetched,
        ).to_multiset(),
        processed(root, one, one_resolved, defaults, one_fetched).0.dom() == processed(
            root,
            other,
            other_resolved,
            defaults,
            other_fetched,
        ).0.dom(),
        processed(root, one, one_resolved, defaults, one_fetched).1.to_multiset() == processed(
            root,
            other,
            other_resolved,
            defaults,
            other_fetched,
        ).1.to_multiset(),
{
    let document = root.document_path();
    let one_rows = rows(one, one_resolved, one_fetched);
    let other_rows = rows(other, other_resolved, other_fetched);
    vstd::seq_lib::to_multiset_len(one_rows);
    vstd::seq_lib::to_multiset_len(other_rows);
    let gather = gathering::<A>(document);
    assert forall|x: Row<A>, y: Row<A>, v: Multiset<RecordView<A>>| #[trigger]
        gather(gather(v, x), y) == gather(gather(v, y), x) by {
        assert(gather(gather(v, x), y) =~= gather(gather(v, y), x));
    }
    lemma_fold_left_permutation(one_rows, other_rows, gather, Multiset::empty());
    lemma_records_of_rows(root, one, one_resolved, one_fetched);
    lemma_records_of_rows(root, other, other_resolved, other_fetched);
    lemma_defaults_follow(
        root,
        one,
        one_resolved,
        one_fetched,
        other,
        other_resolved,
        other_fetched,
        defaults,
    );
    lemma_order_is_immaterial(
        records(document, units_of(root, one, one_resolved, defaults), one_fetched),
        records(document, units_of(root, other, other_resolved, defaults), other_fetched),
    );
}

} // verus!
