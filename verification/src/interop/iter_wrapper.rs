//! A stepwise walk over a snapshot that keeps the current span for the host.

use vstd::prelude::*;
use vstd::string::*;
use crate::annotated::{AnnotatedView, OwnedAnnotatedStringIterator, SpanAnnotation, SpanView};

verus! {

/// Walks the spans of a snapshot and holds the text and the span that the
/// last step reached.
pub struct IterWrapper {
    inner: OwnedAnnotatedStringIterator,
    pub current_string: Option<String>,
    pub current_annotation: Option<SpanAnnotation>,
}

impl Default for IterWrapper {
    fn default() -> (r: Self)
        ensures
            r.source() == AnnotatedView::empty(),
            r.position() == 0,
            r.current_text() is None,
            r.current_span() is None,
    {
        IterWrapper {
            inner: OwnedAnnotatedStringIterator::default(),
            current_string: None,
            current_annotation: None,
        }
    }
}

impl IterWrapper {
    /// The snapshot that is walked.
    pub closed spec fn source(&self) -> AnnotatedView {
        self.inner.source()
    }

    /// Number of spans that the walk has reached so far.
    pub closed spec fn position(&self) -> nat {
        self.inner.position()
    }

    /// The text that the last step reached.
    pub closed spec fn current_text(&self) -> Option<Seq<char>> {
        match self.current_string {
            Some(s) => Some(s@),
            None => None,
        }
    }

    /// The span that the last step reached.
    pub closed spec fn current_span(&self) -> Option<SpanView> {
        match self.current_annotation {
            Some(a) => Some(a@),
            None => None,
        }
    }

    /// A walk that begins before the first span of `inner`.
    pub fn new(inner: OwnedAnnotatedStringIterator) -> (r: Self)
        ensures
            r.source() == inner.source(),
            r.position() == inner.position(),
            r.current_text() is None,
            r.current_span() is None,
    {
        IterWrapper { inner, current_annotation: None, current_string: None }
    }

    /// Steps to the next span and keeps a copy of it and of its text; says
    /// whether there was one. After the last span nothing changes.
    pub fn move_next(&mut self) -> (r: bool)
        ensures
            final(self).source() == old(self).source(),
            r == (old(self).position() < old(self).source().spans.len()),
            r ==> {
                &&& final(self).position() == old(self).position() + 1
                &&& final(self).current_text() == Some(
                    old(self).source().span_text(old(self).position() as int),
                )
                &&& final(self).current_span() == Some(
                    old(self).source().spans[old(self).position() as int],
                )
            },
            !r ==> {
                &&& final(self).position() == old(self).position()
                &&& final(self).current_text() == old(self).current_text()
                &&& final(self).current_span() == old(self).current_span()
            },
    {
        match self.inner.next() {
            Some((x, y)) => {
                let text = x.to_owned();
                let span = y.clone();
                self.current_string = Some(text);
                self.current_annotation = Some(span);
                true
            },
            None => false,
        }
    }
}

} // verus!
