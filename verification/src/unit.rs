//! Units of work: the files that one aggregation pass looks at, and what
//! becomes of each.

use vstd::prelude::*;
use crate::diagnostic::{
    located, unreadable_message, unresolved_message, AnalyzerError, AnalyzerErrorView, Diagnostic,
    DiagnosticView, diagnostics_view,
};
use crate::index::name_view;
use crate::path::ProjectPath;
use crate::span::Span;

verus! {

/// One file to look at.
#[derive(Debug, PartialEq, Eq)]
pub enum Unit {
    /// A declared function whose path could not be resolved.
    Unresolved { name: String, span: Span, declared: String },
    /// A declared function and the file its path resolved to.
    Declared { name: String, span: Span, path: ProjectPath },
    /// A default entry script of the package. Nothing declares it, and it
    /// need not exist.
    Default { path: ProjectPath },
}

/// A unit as contracts speak of it.
pub enum UnitView {
    Unresolved { name: Seq<char>, span: Span, declared: Seq<char> },
    Declared { name: Seq<char>, span: Span, path: Seq<Seq<char>> },
    Default { path: Seq<Seq<char>> },
}

impl View for Unit {
    type V = UnitView;

    open spec fn view(&self) -> UnitView {
        match *self {
            Unit::Unresolved { name, span, declared } => UnitView::Unresolved {
                name: name@,
                span,
                declared: declared@,
            },
            Unit::Declared { name, span, path } => UnitView::Declared {
                name: name@,
                span,
                path: path@,
            },
            Unit::Default { path } => UnitView::Default { path: path@ },
        }
    }
}

impl Unit {
    /// The file to read for this unit; none where no path was resolved.
    pub fn file(&self) -> (file: Option<&ProjectPath>)
        ensures
            match self@ {
                UnitView::Unresolved { .. } => file is None,
                UnitView::Declared { path, .. } => file matches Some(p) && p@ == path,
                UnitView::Default { path } => file matches Some(p) && p@ == path,
            },
    {
        match self {
            Unit::Unresolved { .. } => None,
            Unit::Declared { path, .. } => Some(path),
            Unit::Default { path } => Some(path),
        }
    }
}

/// What the analyzer returns for one file: its analysis with the errors it
/// reports, or the one error that made it give up.
pub open spec fn outcome_view<A>(outcome: Result<(A, Vec<AnalyzerError>), AnalyzerError>) -> Result<
    (A, Seq<AnalyzerErrorView>),
    AnalyzerErrorView,
> {
    match outcome {
        Ok((analysis, errors)) => Ok((analysis, errors@.map_values(|e: AnalyzerError| e@))),
        Err(error) => Err(error@),
    }
}

/// What came of the file of one unit.
#[derive(Debug)]
pub enum Fetched<A> {
    /// The file could not be read, or the unit has no file.
    Unreadable,
    /// The file was read, and the analyzer returned this.
    Read(Result<(A, Vec<AnalyzerError>), AnalyzerError>),
}

/// What came of a file, as contracts speak of it.
pub enum FetchedView<A> {
    Unreadable,
    Read(Result<(A, Seq<AnalyzerErrorView>), AnalyzerErrorView>),
}

impl<A> View for Fetched<A> {
    type V = FetchedView<A>;

    open spec fn view(&self) -> FetchedView<A> {
        match *self {
            Fetched::Unreadable => FetchedView::Unreadable,
            Fetched::Read(outcome) => FetchedView::Read(outcome_view(outcome)),
        }
    }
}

/// What one unit contributes: the path it is filed under, the function that
/// declared it, its diagnostics in the order in which they arose, and the
/// analysis where there is one.
#[derive(Debug)]
pub struct Record<A> {
    pub path: ProjectPath,
    pub name: Option<String>,
    pub diagnostics: Vec<Diagnostic>,
    pub analysis: Option<A>,
}

/// A record as contracts speak of it.
pub struct RecordView<A> {
    pub path: Seq<Seq<char>>,
    pub name: Option<Seq<char>>,
    pub diagnostics: Seq<DiagnosticView>,
    pub analysis: Option<A>,
}

impl<A> View for Record<A> {
    type V = RecordView<A>;

    open spec fn view(&self) -> RecordView<A> {
        RecordView {
            path: self.path@,
            name: name_view(self.name),
            diagnostics: diagnostics_view(self.diagnostics@),
            analysis: self.analysis,
        }
    }
}

/// The diagnostics and the analysis of the file at `path`, from what the
/// analyzer returned for it. Where the analyzer gave up there is the one
/// diagnostic that says why, and no analysis. Otherwise each error it reports
/// becomes a diagnostic of the file, in the same order.
pub open spec fn file_result<A>(
    path: Seq<Seq<char>>,
    outcome: Result<(A, Seq<AnalyzerErrorView>), AnalyzerErrorView>,
) -> (Seq<DiagnosticView>, Option<A>) {
    match outcome {
        Ok((analysis, errors)) => (
            errors.map_values(|e: AnalyzerErrorView| located(e, path)),
            Some(analysis),
        ),
        Err(error) => (seq![located(error, path)], None),
    }
}

/// The record of one unit of the package whose configuration document is
/// `document`.
///
/// A function whose path did not resolve, or whose file could not be read,
/// gets one diagnostic, anchored at its declaration in the configuration
/// document. A default script that could not be read gets no record at all.
pub open spec fn unit_record<A>(
    document: Seq<Seq<char>>,
    unit: UnitView,
    fetched: FetchedView<A>,
) -> Option<RecordView<A>> {
    match unit {
        UnitView::Unresolved { name, span, declared } => Some(
            RecordView {
                path: document,
                name: Some(name),
                diagnostics: seq![
                    DiagnosticView { message: unresolved_message(name, declared), span, document },
                ],
                analysis: None,
            },
        ),
        UnitView::Declared { name, span, path } => match fetched {
            FetchedView::Unreadable => Some(
                RecordView {
                    path,
                    name: Some(name),
                    diagnostics: seq![
                        DiagnosticView { message: unreadable_message(name, path), span, document },
                    ],
                    analysis: None,
                },
            ),
            FetchedView::Read(outcome) => Some(
                RecordView {
                    path,
                    name: Some(name),
                    diagnostics: file_result(path, outcome).0,
                    analysis: file_result(path, outcome).1,
                },
            ),
        },
        UnitView::Default { path } => match fetched {
            FetchedView::Unreadable => None,
            FetchedView::Read(outcome) => Some(
                RecordView {
                    path,
                    name: None,
                    diagnostics: file_result(path, outcome).0,
                    analysis: file_result(path, outcome).1,
                },
            ),
        },
    }
}

/// Turns what the analyzer returned for the file at `path` into the
/// diagnostics of that file and its analysis.
pub fn process_file<A>(
    path: &ProjectPath,
    outcome: Result<(A, Vec<AnalyzerError>), AnalyzerError>,
) -> (result: (Vec<Diagnostic>, Option<A>))
    ensures
        diagnostics_view(result.0@) == file_result(path@, outcome_view(outcome)).0,
        result.1 == file_result(path@, outcome_view(outcome)).1,
{
    match outcome {
        Ok((analysis, errors)) => {
            let ghost reported = errors@;
            let mut diagnostics: Vec<Diagnostic> = Vec::new();
            for error in it: errors
                invariant
                    it.seq() == reported,
                    diagnostics@.len() == it.index(),
                    forall|j: int|
                        0 <= j < it.index() ==> (#[trigger] diagnostics@[j])@ == located(
                            reported[j]@,
                            path@,
                        ),
            {
                diagnostics.push(Diagnostic::locate(error, path));
            }
            assert(diagnostics_view(diagnostics@) =~= reported.map_values(
                |e: AnalyzerError| e@,
            ).map_values(|e: AnalyzerErrorView| located(e, path@)));
            (diagnostics, Some(analysis))
        },
        Err(error) => {
            let mut diagnostics: Vec<Diagnostic> = Vec::new();
            diagnostics.push(Diagnostic::locate(error, path));
            assert(diagnostics_view(diagnostics@) =~= seq![located(error@, path@)]);
            (diagnostics, None)
        },
    }
}

/// Makes the record of one unit of the package whose configuration document is
/// `document`, from what came of the unit's file.
pub fn process_unit<A>(document: &ProjectPath, unit: Unit, fetched: Fetched<A>) -> (record: Option<
    Record<A>,
>)
    ensures
        match unit_record(document@, unit@, fetched@) {
            Some(expected) => record matches Some(r) && r@ == expected,
            None => record is None,
        },
{
    match unit {
        Unit::Unresolved { name, span, declared } => {
            let mut diagnostics: Vec<Diagnostic> = Vec::new();
            diagnostics.push(
                Diagnostic::unresolved(name.as_str(), declared.as_str(), span, document),
            );
            assert(diagnostics_view(diagnostics@) =~= seq![
                DiagnosticView {
                    message: unresolved_message(name@, declared@),
                    span,
                    document: document@,
                },
            ]);
            Some(Record { path: document.clone(), name: Some(name), diagnostics, analysis: None })
        },
        Unit::Declared { name, span, path } => match fetched {
            Fetched::Unreadable => {
                let mut diagnostics: Vec<Diagnostic> = Vec::new();
                diagnostics.push(Diagnostic::unreadable(name.as_str(), &path, span, document));
                assert(diagnostics_view(diagnostics@) =~= seq![
                    DiagnosticView {
                        message: unreadable_message(name@, path@),
                        span,
                        document: document@,
                    },
                ]);
                Some(Record { path, name: Some(name), diagnostics, analysis: None })
            },
            Fetched::Read(outcome) => {
                let (diagnostics, analysis) = process_file(&path, outcome);
                Some(Record { path, name: Some(name), diagnostics, analysis })
            },
        },
        Unit::Default { path } => match fetched {
            Fetched::Unreadable => None,
            Fetched::Read(outcome) => {
                let (diagnostics, analysis) = process_file(&path, outcome);
                Some(Record { path, name: None, diagnostics, analysis })
            },
        },
    }
}

} // verus!
