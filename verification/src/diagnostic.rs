//! Diagnostics: what went wrong, where, and in which document.

use vstd::prelude::*;
use crate::path::{rendered, ProjectPath};
use crate::path_map::PathMap;
use crate::span::Span;

verus! {

/// What the analyzer reports about the file it was given: a message and the
/// span it is about. The file itself is understood.
#[derive(Debug, PartialEq, Eq)]
pub struct AnalyzerError {
    pub message: String,
    pub span: Span,
}

/// An analyzer report as contracts speak of it.
pub struct AnalyzerErrorView {
    pub message: Seq<char>,
    pub span: Span,
}

impl View for AnalyzerError {
    type V = AnalyzerErrorView;

    open spec fn view(&self) -> AnalyzerErrorView {
        AnalyzerErrorView { message: self.message@, span: self.span }
    }
}

/// A diagnostic of the project: a message, the span it is anchored at, and the
/// document that the span lies in.
#[derive(Debug, PartialEq, Eq)]
pub struct Diagnostic {
    pub message: String,
    pub span: Span,
    pub document: ProjectPath,
}

/// A diagnostic as contracts speak of it.
pub struct DiagnosticView {
    pub message: Seq<char>,
    pub span: Span,
    pub document: Seq<Seq<char>>,
}

impl View for Diagnostic {
    type V = DiagnosticView;

    open spec fn view(&self) -> DiagnosticView {
        DiagnosticView { message: self.message@, span: self.span, document: self.document@ }
    }
}

/// The views of a list of diagnostics, in order.
pub open spec fn diagnostics_view(diagnostics: Seq<Diagnostic>) -> Seq<DiagnosticView> {
    diagnostics.map_values(|d: Diagnostic| d@)
}

/// An analyzer report placed in the document it is about.
pub open spec fn located(error: AnalyzerErrorView, document: Seq<Seq<char>>) -> DiagnosticView {
    DiagnosticView { message: error.message, span: error.span, document }
}

/// The message for a declared function whose path could not be resolved.
pub open spec fn unresolved_message(name: Seq<char>, declared: Seq<char>) -> Seq<char> {
    "The function \""@ + name + "\" is declared but could not derive a path for \""@ + declared
        + "\""@
}

/// The message for a declared function whose file could not be read.
pub open spec fn unreadable_message(name: Seq<char>, file: Seq<Seq<char>>) -> Seq<char> {
    "The function \""@ + name + "\" is declared but could not open file \""@ + rendered(file)
        + "\""@
}

impl Diagnostic {
    /// Places an analyzer report in `document`.
    pub fn locate(error: AnalyzerError, document: &ProjectPath) -> (diagnostic: Diagnostic)
        ensures
            diagnostic@ == located(error@, document@),
    {
        Diagnostic { message: error.message, span: error.span, document: document.clone() }
    }

    /// The diagnostic for a function that `document` declares at `span` with a
    /// path that could not be resolved.
    pub fn unresolved(name: &str, declared: &str, span: Span, document: &ProjectPath) -> (diagnostic:
        Diagnostic)
        ensures
            diagnostic@ == (DiagnosticView {
                message: unresolved_message(name@, declared@),
                span,
                document: document@,
            }),
    {
        let mut message = String::from_str("The function \"");
        message.append(name);
        message.append("\" is declared but could not derive a path for \"");
        message.append(declared);
        message.append("\"");
        Diagnostic { message, span, document: document.clone() }
    }

    /// The diagnostic for a function that `document` declares at `span` and
    /// whose file could not be read.
    pub fn unreadable(name: &str, file: &ProjectPath, span: Span, document: &ProjectPath) -> (diagnostic:
        Diagnostic)
        ensures
            diagnostic@ == (DiagnosticView {
                message: unreadable_message(name@, file@),
                span,
                document: document@,
            }),
    {
        let mut message = String::from_str("The function \"");
        message.append(name);
        message.append("\" is declared but could not open file \"");
        let text = file.display();
        message.append(text.as_str());
        message.append("\"");
        Diagnostic { message, span, document: document.clone() }
    }
}

/// The diagnostics that lie in `document`, in the order in which they stand
/// in `all`.
pub open spec fn diagnostics_in(all: Seq<DiagnosticView>, document: Seq<Seq<char>>) -> Seq<
    DiagnosticView,
>
    decreases all.len(),
{
    if all.len() == 0 {
        Seq::empty()
    } else {
        let front = diagnostics_in(all.drop_last(), document);
        if all.last().document == document {
            front.push(all.last())
        } else {
            front
        }
    }
}

/// Sorts diagnostics by the document they lie in. Each document that has a
/// diagnostic gets all of its own, in the order in which they came; a
/// document without one is not in the result.
pub fn group_by_document(diagnostics: Vec<Diagnostic>) -> (groups: PathMap<Vec<Diagnostic>>)
    ensures
        forall|document: Seq<Seq<char>>|
            groups@.contains_key(document) <==> diagnostics_in(
                diagnostics_view(diagnostics@),
                document,
            ).len() > 0,
        forall|document: Seq<Seq<char>>|
            groups@.contains_key(document) ==> diagnostics_view(#[trigger] groups@[document]@)
                == diagnostics_in(diagnostics_view(diagnostics@), document),
{
    let ghost given = diagnostics@;
    let ghost all = diagnostics_view(diagnostics@);
    let mut groups: PathMap<Vec<Diagnostic>> = PathMap::new();
    assert(all.take(0) =~= Seq::<DiagnosticView>::empty());
    for diagnostic in it: diagnostics
        invariant
            it.seq() == given,
            all == diagnostics_view(given),
            forall|document: Seq<Seq<char>>|
                groups@.contains_key(document) <==> diagnostics_in(
                    all.take(it.index()),
                    document,
                ).len() > 0,
            forall|document: Seq<Seq<char>>|
                groups@.contains_key(document) ==> diagnostics_view(
                    #[trigger] groups@[document]@,
                ) == diagnostics_in(all.take(it.index()), document),
    {
        let ghost at = it.index();
        let ghost before = groups@;
        proof {
            assert(all.take(at + 1).drop_last() =~= all.take(at));
            assert(all.take(at + 1).last() == diagnostic@);
        }
        let mut group = match groups.insert(diagnostic.document.clone(), Vec::new()) {
            Some(group) => group,
            None => {
                let group: Vec<Diagnostic> = Vec::new();
                assert(diagnostics_view(group@) =~= Seq::<DiagnosticView>::empty());
                group
            },
        };
        let ghost earlier = diagnostics_view(group@);
        assert(earlier == diagnostics_in(all.take(at), diagnostic@.document));
        let key = diagnostic.document.clone();
        group.push(diagnostic);
        assert(diagnostics_view(group@) =~= earlier.push(diagnostic@));
        let _ = groups.insert(key, group);
        assert(groups@ =~= before.insert(diagnostic@.document, group));
    }
    assert(all.take(all.len() as int) =~= all);
    groups
}

} // verus!
