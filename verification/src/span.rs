//! Source spans.

use vstd::prelude::*;

verus! {

/// A half-open range of offsets into a document: start, then end.
pub type Span = (usize, usize);

/// Whether `offset` lies in `span`: at or after its start and before its end.
pub open spec fn covers(span: Span, offset: usize) -> bool {
    span.0 <= offset && offset < span.1
}

pub fn in_span(span: Span, offset: usize) -> (inside: bool)
    ensures
        inside == covers(span, offset),
{
    offset >= span.0 && offset < span.1
}

} // verus!
