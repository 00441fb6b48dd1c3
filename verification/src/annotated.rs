//! Visible text with the styles that cover each stretch of it.

use vstd::prelude::*;
use vstd::string::*;
use crate::command::Annotation;

verus! {

/// A stretch of the visible text, as character positions `start..end`, and
/// the styles that were open over it.
#[derive(Debug)]
pub struct SpanAnnotation {
    start: usize,
    end: usize,
    pub annotations: Vec<Annotation>,
}

/// The mathematical value of a [`SpanAnnotation`].
pub ghost struct SpanView {
    pub start: nat,
    pub end: nat,
    pub annotations: Seq<Annotation>,
}

impl View for SpanAnnotation {
    type V = SpanView;

    closed spec fn view(&self) -> SpanView {
        SpanView {
            start: self.start as nat,
            end: self.end as nat,
            annotations: self.annotations@,
        }
    }
}

impl Clone for SpanAnnotation {
    fn clone(&self) -> (r: Self)
        ensures
            r@ == self@,
    {
        let mut annotations: Vec<Annotation> = Vec::new();
        let mut i: usize = 0;
        while i < self.annotations.len()
            invariant
                i <= self.annotations.len(),
                annotations@ == self.annotations@.take(i as int),
            decreases self.annotations.len() - i,
        {
            annotations.push(self.annotations[i]);
            i += 1;
        }
        assert(self.annotations@.take(i as int) == self.annotations@);
        SpanAnnotation { start: self.start, end: self.end, annotations }
    }
}

impl SpanAnnotation {
    /// The span `start..end` under the given styles.
    pub fn new(start: usize, end: usize, annotations: Vec<Annotation>) -> (r: Self)
        ensures
            r@ == (SpanView { start: start as nat, end: end as nat, annotations: annotations@ }),
    {
        SpanAnnotation { start, end, annotations }
    }

    /// Position of the span's first character.
    pub fn start(&self) -> (r: usize)
        ensures
            r == self@.start,
    {
        self.start
    }

    /// Position after the span's last character.
    pub fn end(&self) -> (r: usize)
        ensures
            r == self@.end,
    {
        self.end
    }

    /// The styles over the span.
    pub fn styles(&self) -> (r: &Vec<Annotation>)
        ensures
            r@ == self@.annotations,
    {
        &self.annotations
    }

    /// Whether the span carries the style `a`.
    pub fn has(&self, a: Annotation) -> (r: bool)
        ensures
            r == self@.annotations.contains(a),
    {
        let mut i: usize = 0;
        while i < self.annotations.len()
            invariant
                i <= self.annotations.len(),
                forall|j: int| 0 <= j < i ==> self.annotations@[j] != a,
            decreases self.annotations.len() - i,
        {
            if self.annotations[i] == a {
                return true;
            }
            i += 1;
        }
        false
    }
}

/// The views of a sequence of spans.
pub open spec fn span_views(spans: Seq<SpanAnnotation>) -> Seq<SpanView> {
    Seq::new(spans.len(), |i: int| spans[i]@)
}

/// The mathematical value of an [`AnnotatedString`].
pub ghost struct AnnotatedView {
    pub string: Seq<char>,
    pub spans: Seq<SpanView>,
}

impl AnnotatedView {
    /// Every span is a range of the string.
    pub open spec fn wf(self) -> bool {
        forall|i: int|
            0 <= i < self.spans.len() ==> (#[trigger] self.spans[i]).start <= self.spans[i].end
                <= self.string.len()
    }

    /// The spans follow one another in order and none overlaps the next.
    pub open spec fn ordered(self) -> bool {
        forall|i: int|
            0 <= i < self.spans.len() - 1 ==> (#[trigger] self.spans[i]).end <= self.spans[i
                + 1].start
    }

    /// The spans cover the string from end to end without a gap: the first
    /// begins at 0, each begins where the one before it ends, and the last
    /// ends with the string.
    pub open spec fn contiguous(self) -> bool {
        &&& self.spans.len() > 0
        &&& self.spans[0].start == 0
        &&& self.spans.last().end == self.string.len()
        &&& forall|i: int|
            0 <= i < self.spans.len() - 1 ==> (#[trigger] self.spans[i]).end == self.spans[i
                + 1].start
    }

    /// The text under the `i`-th span.
    pub open spec fn span_text(self, i: int) -> Seq<char> {
        self.string.subrange(self.spans[i].start as int, self.spans[i].end as int)
    }
}

/// The visible text and its spans.
#[derive(Debug)]
pub struct AnnotatedString {
    string: String,
    annotations: Vec<SpanAnnotation>,
}

impl View for AnnotatedString {
    type V = AnnotatedView;

    closed spec fn view(&self) -> AnnotatedView {
        AnnotatedView { string: self.string@, spans: span_views(self.annotations@) }
    }
}

impl Clone for AnnotatedString {
    fn clone(&self) -> (r: Self)
        ensures
            r@ == self@,
    {
        proof {
            use_type_invariant(self);
        }
        let mut annotations: Vec<SpanAnnotation> = Vec::new();
        let mut i: usize = 0;
        while i < self.annotations.len()
            invariant
                i <= self.annotations.len(),
                span_views(annotations@) == span_views(self.annotations@).take(i as int),
            decreases self.annotations.len() - i,
        {
            let c = self.annotations[i].clone();
            let ghost before = span_views(annotations@);
            annotations.push(c);
            assert(span_views(annotations@) == before.push(c@));
            i += 1;
        }
        assert(span_views(self.annotations@).take(i as int) == span_views(self.annotations@));
        AnnotatedString { string: self.string.clone(), annotations }
    }
}

impl Default for AnnotatedString {
    fn default() -> (r: Self)
        ensures
            r@ == AnnotatedView::empty(),
    {
        let r = AnnotatedString { string: String::new(), annotations: Vec::new() };
        assert(r@.spans == Seq::<SpanView>::empty());
        r
    }
}

impl AnnotatedView {
    /// No text and no span.
    pub open spec fn empty() -> AnnotatedView {
        AnnotatedView { string: Seq::empty(), spans: Seq::empty() }
    }
}

impl AnnotatedString {
    #[verifier::type_invariant]
    spec fn inv(self) -> bool {
        self@.wf()
    }

    /// The text `string` under the spans `annotations`, each of which is a
    /// range of it.
    pub fn new(string: String, annotations: Vec<SpanAnnotation>) -> (r: Self)
        requires
            (AnnotatedView { string: string@, spans: span_views(annotations@) }).wf(),
        ensures
            r@ == (AnnotatedView { string: string@, spans: span_views(annotations@) }),
    {
        AnnotatedString { string, annotations }
    }

    /// The visible text.
    pub fn string(&self) -> (r: &str)
        ensures
            r@ == self@.string,
            self@.wf(),
    {
        proof {
            use_type_invariant(self);
        }
        self.string.as_str()
    }

    /// The spans, in order.
    pub fn annotations(&self) -> (r: &Vec<SpanAnnotation>)
        ensures
            span_views(r@) == self@.spans,
            self@.wf(),
    {
        proof {
            use_type_invariant(self);
        }
        &self.annotations
    }

    /// The `i`-th span and the text under it, where there is an `i`-th span.
    pub fn span(&self, i: usize) -> (r: Option<(&str, &SpanAnnotation)>)
        ensures
            match r {
                Some((text, span)) => i < self@.spans.len() && span@ == self@.spans[i as int]
                    && text@ == self@.span_text(i as int),
                None => i >= self@.spans.len(),
            },
            self@.spans.len() <= usize::MAX,
    {
        proof {
            use_type_invariant(self);
        }
        if i < self.annotations.len() {
            let x = &self.annotations[i];
            assert(x@ == self@.spans[i as int]);
            let text = self.string.as_str().substring_char(x.start, x.end);
            Some((text, x))
        } else {
            None
        }
    }

    /// An iterator over the spans that borrows the string.
    pub fn iter<'a>(&'a self) -> (r: AnnotatedStringIterator<'a>)
        ensures
            r.source() == self@,
            r.position() == 0,
    {
        AnnotatedStringIterator { annotated: self, i: 0 }
    }

    /// An iterator over the spans that owns the string.
    pub fn owned_iter(self) -> (r: OwnedAnnotatedStringIterator)
        ensures
            r.source() == self@,
            r.position() == 0,
    {
        OwnedAnnotatedStringIterator { annotated: self, i: 0 }
    }
}

/// Walks the spans of a borrowed [`AnnotatedString`].
pub struct AnnotatedStringIterator<'a> {
    annotated: &'a AnnotatedString,
    i: usize,
}

impl<'a> AnnotatedStringIterator<'a> {
    /// The string that is walked.
    pub closed spec fn source(&self) -> AnnotatedView {
        self.annotated@
    }

    /// Number of spans handed out so far.
    pub closed spec fn position(&self) -> nat {
        self.i as nat
    }

    /// The next span with the text under it; `None` once every span has been
    /// handed out, and from then on.
    pub fn next(&mut self) -> (r: Option<(&str, &SpanAnnotation)>)
        ensures
            final(self).source() == old(self).source(),
            match r {
                Some((text, span)) => {
                    &&& old(self).position() < old(self).source().spans.len()
                    &&& span@ == old(self).source().spans[old(self).position() as int]
                    &&& text@ == old(self).source().span_text(old(self).position() as int)
                    &&& final(self).position() == old(self).position() + 1
                },
                None => {
                    &&& old(self).position() >= old(self).source().spans.len()
                    &&& final(self).position() == old(self).position()
                },
            },
    {
        let r = self.annotated.span(self.i);
        if r.is_some() {
            self.i += 1;
        }
        r
    }
}

/// Walks the spans of an [`AnnotatedString`] of its own.
pub struct OwnedAnnotatedStringIterator {
    annotated: AnnotatedString,
    i: usize,
}

impl Default for OwnedAnnotatedStringIterator {
    fn default() -> (r: Self)
        ensures
            r.source() == AnnotatedView::empty(),
            r.position() == 0,
    {
        OwnedAnnotatedStringIterator { annotated: AnnotatedString::default(), i: 0 }
    }
}

impl OwnedAnnotatedStringIterator {
    /// The string that is walked.
    pub closed spec fn source(&self) -> AnnotatedView {
        self.annotated@
    }

    /// Number of spans handed out so far.
    pub closed spec fn position(&self) -> nat {
        self.i as nat
    }

    /// The next span with the text under it; `None` once every span has been
    /// handed out, and from then on.
    pub fn next(&mut self) -> (r: Option<(&str, &SpanAnnotation)>)
        ensures
            final(self).source() == old(self).source(),
            match r {
                Some((text, span)) => {
                    &&& old(self).position() < old(self).source().spans.len()
                    &&& span@ == old(self).source().spans[old(self).position() as int]
                    &&& text@ == old(self).source().span_text(old(self).position() as int)
                    &&& final(self).position() == old(self).position() + 1
                },
                None => {
                    &&& old(self).position() >= old(self).source().spans.len()
                    &&& final(self).position() == old(self).position()
                },
            },
    {
        let r = self.annotated.span(self.i);
        if r.is_some() {
            self.i += 1;
        }
        r
    }
}

} // verus!
