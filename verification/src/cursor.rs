//! The reveal position in a dialogue, and the text that is visible at it.

use vstd::prelude::*;
use vstd::string::*;
use crate::annotated::{span_views, AnnotatedString, AnnotatedView, SpanAnnotation, SpanView};
use crate::chunk::{chunk_views, Chunk, ChunkView, Dialogue, DialogueView, TextView};
use crate::command::{Annotation, Command, CommandView};
use crate::text::push_char;

verus! {

/// The character that stands for a line break in the visible text.
pub const LINE_BREAK: char = '#';

/// The character that is put where a command was crossed.
pub const SEPARATOR: char = ' ';

/// The mathematical value of a [`DialogueCursor`]: the page runs from chunk
/// `start` to chunk `end`, of which `sub_index` ticks have been revealed.
pub ghost struct CursorView {
    pub dialogue: DialogueView,
    pub start: nat,
    pub end: nat,
    pub sub_index: nat,
    pub exhausted: bool,
}

/// Sum of the tick lengths of the chunks from index `from` on.
pub open spec fn ticks_after(chunks: Seq<ChunkView>, from: int) -> nat
    decreases chunks.len() - from,
{
    if 0 <= from < chunks.len() {
        chunks[from].tick_len() + ticks_after(chunks, from + 1)
    } else {
        0
    }
}

/// Sum of the tick lengths of all chunks.
pub open spec fn total_ticks(chunks: Seq<ChunkView>) -> nat {
    ticks_after(chunks, 0)
}

impl CursorView {
    /// The chunks that the cursor moves over.
    pub open spec fn chunks(self) -> Seq<ChunkView> {
        self.dialogue.chunks
    }

    /// The cursor at the start of `d`. Over a dialogue without chunks there
    /// is nothing to reveal, and the cursor is exhausted from the start.
    pub open spec fn initial(d: DialogueView) -> CursorView {
        CursorView { dialogue: d, start: 0, end: 0, sub_index: 0, exhausted: d.chunks.len() == 0 }
    }

    /// The page lies within the dialogue, no more of the current chunk is
    /// revealed than it has, and only a cursor at the very end is exhausted.
    pub open spec fn wf(self) -> bool {
        if self.chunks().len() == 0 {
            self.start == 0 && self.end == 0 && self.sub_index == 0 && self.exhausted
        } else {
            &&& self.start <= self.end < self.chunks().len()
            &&& self.sub_index <= self.chunks()[self.end as int].tick_len()
            &&& self.exhausted ==> self.end + 1 == self.chunks().len() && self.sub_index
                == self.chunks()[self.end as int].tick_len()
        }
    }

    /// Whether the current chunk has been revealed in full.
    pub open spec fn chunk_done(self) -> bool {
        self.sub_index >= self.chunks()[self.end as int].tick_len()
    }

    /// Whether one more tick moves the cursor.
    pub open spec fn can_advance(self) -> bool {
        !self.exhausted && (!self.chunk_done() || self.end + 1 < self.chunks().len())
    }

    /// The cursor one tick later. Within a chunk one more tick of it is
    /// revealed. At the end of a chunk the cursor enters the next one, and
    /// where that chunk clears the page, the page begins there. At the end
    /// of the last chunk the cursor becomes exhausted, and stays so.
    pub open spec fn advance(self) -> CursorView {
        if self.exhausted {
            self
        } else if !self.chunk_done() {
            CursorView { sub_index: self.sub_index + 1, ..self }
        } else if self.end + 1 < self.chunks().len() {
            CursorView {
                start: if self.chunks()[self.end as int + 1].is_clear() {
                    self.end + 1
                } else {
                    self.start
                },
                end: self.end + 1,
                sub_index: 0,
                ..self
            }
        } else {
            CursorView { exhausted: true, ..self }
        }
    }

    /// The cursor `n` ticks later.
    pub open spec fn advance_n(self, n: nat) -> CursorView
        decreases n,
    {
        if n == 0 {
            self
        } else {
            self.advance().advance_n((n - 1) as nat)
        }
    }

    /// Number of ticks that still move the cursor: what is left of the
    /// current chunk, and for each later chunk one tick to enter it and its
    /// own length.
    pub open spec fn steps_left(self) -> nat {
        if self.exhausted || self.chunks().len() == 0 {
            0
        } else {
            (self.chunks()[self.end as int].tick_len() - self.sub_index + ticks_after(
                self.chunks(),
                self.end as int + 1,
            ) + (self.chunks().len() - 1 - self.end)) as nat
        }
    }

    /// What the page shows, as chunks: those from `start` up to `end`, and of
    /// a text at `end` only the characters revealed so far.
    pub open spec fn visible(self) -> Seq<ChunkView> {
        if self.chunks().len() == 0 {
            Seq::empty()
        } else {
            self.chunks().subrange(self.start as int, self.end as int).push(
                clip(self.chunks()[self.end as int], self.sub_index),
            )
        }
    }

    /// The visible text and its spans.
    pub open spec fn materialize(self) -> AnnotatedView {
        finish(render(self.visible()))
    }
}

/// The chunk `c` of which `n` ticks are revealed: of a text its first `n`
/// characters, or all of it if it has fewer; any other chunk as it is.
pub open spec fn clip(c: ChunkView, n: nat) -> ChunkView {
    match c {
        ChunkView::Text(t) => ChunkView::Text(
            TextView {
                content: t.content.take(
                    if n <= t.content.len() {
                        n as int
                    } else {
                        t.content.len() as int
                    },
                ),
                speaker: t.speaker,
            },
        ),
        other => other,
    }
}

/// What has been built while the visible chunks are walked: the text, the
/// spans that are closed, the styles that are open, and where the span
/// that is still open began.
pub ghost struct RenderState {
    pub string: Seq<char>,
    pub spans: Seq<SpanView>,
    pub open: Seq<Annotation>,
    pub span_start: nat,
}

/// The class of the styles other than `a`.
pub open spec fn other_style(a: Annotation) -> spec_fn(Annotation) -> bool {
    |x: Annotation| x != a
}

/// The open styles after a command: a start adds its style at the end, an
/// end removes every occurrence of its style, any other command changes
/// nothing.
pub open spec fn apply_command(open: Seq<Annotation>, c: CommandView) -> Seq<Annotation> {
    match c {
        CommandView::AnnotationStart(a) => open.push(a),
        CommandView::AnnotationEnd(a) => open.filter(other_style(a)),
        _ => open,
    }
}

/// The state before any chunk.
pub open spec fn render_start() -> RenderState {
    RenderState { string: Seq::empty(), spans: Seq::empty(), open: Seq::empty(), span_start: 0 }
}

/// The state after one more chunk. A text is appended and a newline adds
/// the line break. A command closes the open span at the end of the text,
/// takes its effect on the open styles, adds the separator unless the text
/// is empty, and opens a span behind it.
pub open spec fn render_chunk(st: RenderState, c: ChunkView) -> RenderState {
    match c {
        ChunkView::Text(t) => RenderState { string: st.string + t.content, ..st },
        ChunkView::Newline => RenderState { string: st.string.push(LINE_BREAK), ..st },
        ChunkView::Command(cmd) => {
            let string = if st.string.len() > 0 {
                st.string.push(SEPARATOR)
            } else {
                st.string
            };
            RenderState {
                string,
                spans: st.spans.push(
                    SpanView {
                        start: st.span_start,
                        end: st.string.len(),
                        annotations: st.open,
                    },
                ),
                open: apply_command(st.open, cmd),
                span_start: string.len(),
            }
        },
    }
}

/// The state after the chunks `pieces`, taken in order.
pub open spec fn render(pieces: Seq<ChunkView>) -> RenderState
    decreases pieces.len(),
{
    if pieces.len() == 0 {
        render_start()
    } else {
        render_chunk(render(pieces.drop_last()), pieces.last())
    }
}

/// The text of a state with its open span closed at the end of the text.
pub open spec fn finish(st: RenderState) -> AnnotatedView {
    AnnotatedView {
        string: st.string,
        spans: st.spans.push(
            SpanView { start: st.span_start, end: st.string.len(), annotations: st.open },
        ),
    }
}

/// Number of commands among `pieces`.
pub open spec fn command_count(pieces: Seq<ChunkView>) -> nat
    decreases pieces.len(),
{
    if pieces.len() == 0 {
        0
    } else {
        command_count(pieces.drop_last()) + if pieces.last() is Command {
            1nat
        } else {
            0nat
        }
    }
}

/// Consecutive spans are apart by nothing, or by one separator.
pub open spec fn gaps_are_separators(a: AnnotatedView) -> bool {
    forall|i: int|
        0 <= i < a.spans.len() - 1 ==> {
            let gap = a.spans[i + 1].start - (#[trigger] a.spans[i]).end;
            gap == 0 || (gap == 1 && a.string[a.spans[i].end as int] == SEPARATOR)
        }
}

/// No command among `pieces` comes after visible text.
pub open spec fn commands_lead(pieces: Seq<ChunkView>) -> bool {
    forall|k: int|
        0 <= k < pieces.len() && (#[trigger] pieces[k]) is Command ==> render(
            pieces.take(k),
        ).string.len() == 0
}

/// The shape of every rendering: each span is a range of the text, the
/// spans are in order and begin at 0, the last ends with the text, two
/// neighbours are apart by at most one separator, and there is one span more
/// than there are commands.
pub proof fn lemma_render_shape(pieces: Seq<ChunkView>)
    ensures
        render(pieces).span_start <= render(pieces).string.len(),
        finish(render(pieces)).wf(),
        finish(render(pieces)).ordered(),
        finish(render(pieces)).spans[0].start == 0,
        finish(render(pieces)).spans.last().end == finish(render(pieces)).string.len(),
        gaps_are_separators(finish(render(pieces))),
        finish(render(pieces)).spans.len() == command_count(pieces) + 1,
    decreases pieces.len(),
{
    if pieces.len() > 0 {
        let before = render(pieces.drop_last());
        let a = finish(before);
        let st = render(pieces);
        let b = finish(st);
        lemma_render_shape(pieces.drop_last());
        assert(before.string.len() <= st.string.len());
        assert(forall|j: int| 0 <= j < before.string.len() ==> st.string[j] == before.string[j]);
        if pieces.last() is Command {
            assert(st.spans == a.spans);
            assert forall|i: int| 0 <= i < b.spans.len() implies (#[trigger] b.spans[i]).start
                <= b.spans[i].end <= b.string.len() by {
                if i < a.spans.len() {
                    assert(b.spans[i] == a.spans[i]);
                }
            }
            assert forall|i: int| 0 <= i < b.spans.len() - 1 implies (#[trigger] b.spans[i]).end
                <= b.spans[i + 1].start by {
                assert(b.spans[i] == a.spans[i]);
                if i + 1 < a.spans.len() {
                    assert(b.spans[i + 1] == a.spans[i + 1]);
                }
            }
            assert forall|i: int| 0 <= i < b.spans.len() - 1 implies {
                let gap = b.spans[i + 1].start - (#[trigger] b.spans[i]).end;
                gap == 0 || (gap == 1 && b.string[b.spans[i].end as int] == SEPARATOR)
            } by {
                assert(b.spans[i] == a.spans[i]);
                if i + 1 < a.spans.len() {
                    assert(b.spans[i + 1] == a.spans[i + 1]);
                    assert(a.spans[i].end <= a.spans[i + 1].start <= before.string.len());
                }
            }
            assert(b.spans[0] == a.spans[0]);
        } else {
            assert(st.spans == before.spans);
            assert(st.span_start == before.span_start);
            assert forall|i: int| 0 <= i < b.spans.len() implies (#[trigger] b.spans[i]).start
                <= b.spans[i].end <= b.string.len() by {
                if i < before.spans.len() {
                    assert(b.spans[i] == a.spans[i]);
                }
            }
            assert forall|i: int| 0 <= i < b.spans.len() - 1 implies (#[trigger] b.spans[i]).end
                <= b.spans[i + 1].start by {
                assert(b.spans[i] == a.spans[i]);
                assert(b.spans[i + 1].start == a.spans[i + 1].start);
            }
            assert forall|i: int| 0 <= i < b.spans.len() - 1 implies {
                let gap = b.spans[i + 1].start - (#[trigger] b.spans[i]).end;
                gap == 0 || (gap == 1 && b.string[b.spans[i].end as int] == SEPARATOR)
            } by {
                assert(b.spans[i] == a.spans[i]);
                assert(b.spans[i + 1].start == a.spans[i + 1].start);
                assert(a.spans[i].end <= a.spans[i + 1].start <= before.string.len());
            }
            assert(b.spans[0].start == a.spans[0].start);
        }
    }
}

/// A copy of `open`.
fn clone_styles(open: &Vec<Annotation>) -> (r: Vec<Annotation>)
    ensures
        r@ == open@,
{
    let mut r: Vec<Annotation> = Vec::new();
    let mut i: usize = 0;
    while i < open.len()
        invariant
            i <= open.len(),
            r@ == open@.take(i as int),
        decreases open.len() - i,
    {
        r.push(open[i]);
        i += 1;
    }
    assert(open@.take(i as int) == open@);
    r
}

/// The styles of `open` other than `a`, in their order.
fn without(open: &Vec<Annotation>, a: Annotation) -> (r: Vec<Annotation>)
    ensures
        r@ == open@.filter(other_style(a)),
{
    let mut r: Vec<Annotation> = Vec::new();
    let mut i: usize = 0;
    proof {
        reveal(Seq::filter);
    }
    while i < open.len()
        invariant
            i <= open.len(),
            r@ == open@.take(i as int).filter(other_style(a)),
        decreases open.len() - i,
    {
        proof {
            reveal(Seq::filter);
            assert(open@.take(i + 1).drop_last() == open@.take(i as int));
        }
        if open[i] != a {
            r.push(open[i]);
        }
        i += 1;
    }
    assert(open@.take(i as int) == open@);
    r
}

/// A position in a dialogue of its own, from which the visible text is made.
#[derive(Debug)]
pub struct DialogueCursor {
    dialogue: Dialogue,
    start: usize,
    end: usize,
    line_i: usize,
    exhausted: bool,
}

impl View for DialogueCursor {
    type V = CursorView;

    closed spec fn view(&self) -> CursorView {
        CursorView {
            dialogue: self.dialogue@,
            start: self.start as nat,
            end: self.end as nat,
            sub_index: self.line_i as nat,
            exhausted: self.exhausted,
        }
    }
}

impl Clone for DialogueCursor {
    fn clone(&self) -> (r: Self)
        ensures
            r@ == self@,
    {
        proof {
            use_type_invariant(self);
        }
        DialogueCursor {
            dialogue: self.dialogue.clone(),
            start: self.start,
            end: self.end,
            line_i: self.line_i,
            exhausted: self.exhausted,
        }
    }
}

impl DialogueCursor {
    #[verifier::type_invariant]
    spec fn inv(self) -> bool {
        self@.wf()
    }

    /// A cursor at the start of a copy of `dialogue`.
    pub fn new(dialogue: &Dialogue) -> (r: Self)
        ensures
            r@ == CursorView::initial(dialogue@),
            r@.wf(),
    {
        let dialogue = dialogue.clone();
        let exhausted = dialogue.chunks.len() == 0;
        DialogueCursor { dialogue, start: 0, end: 0, line_i: 0, exhausted }
    }

    /// Whether the cursor's dialogue has the name and file of `other`, up to
    /// ASCII case.
    pub fn dialogue_name_eq(&self, other: &Dialogue) -> (r: bool)
        ensures
            r == self@.dialogue.same_identity(other@),
            self@.wf(),
    {
        proof {
            use_type_invariant(self);
        }
        self.dialogue.name_eq(other)
    }

    /// Whether the cursor has run past the end of its dialogue.
    pub fn is_exhausted(&self) -> (r: bool)
        ensures
            r == self@.exhausted,
            self@.wf(),
    {
        proof {
            use_type_invariant(self);
        }
        self.exhausted
    }

    /// The visible text with its spans.
    pub fn get(&self) -> (r: AnnotatedString)
        ensures
            r@ == self@.materialize(),
            self@.wf(),
    {
        proof {
            use_type_invariant(self);
        }
        let mut s = String::new();
        let mut spans: Vec<SpanAnnotation> = Vec::new();
        let mut open: Vec<Annotation> = Vec::new();
        let mut span_start: usize = 0;
        let ghost pieces = self@.visible();
        assert(pieces.take(0) == Seq::<ChunkView>::empty());
        assert(span_views(spans@) == Seq::<SpanView>::empty());
        if self.dialogue.chunks.len() > 0 {
            let mut i: usize = self.start;
            while i <= self.end
                invariant
                    self@.wf(),
                    self.dialogue.chunks.len() > 0,
                    pieces == self@.visible(),
                    self.start <= i <= self.end + 1,
                    render(pieces.take(i - self.start)) == (RenderState {
                        string: s@,
                        spans: span_views(spans@),
                        open: open@,
                        span_start: span_start as nat,
                    }),
                decreases self.end + 1 - i,
            {
                let ghost piece = pieces[i - self.start];
                proof {
                    assert(pieces.take(i - self.start + 1).drop_last() == pieces.take(
                        i - self.start,
                    ));
                    assert(pieces.take(i - self.start + 1).last() == piece);
                    assert(self.dialogue@.chunks[i as int] == self.dialogue.chunks@[i as int]@);
                    if i < self.end {
                        assert(piece == self.dialogue.chunks@[i as int]@);
                    } else {
                        assert(piece == clip(self.dialogue.chunks@[i as int]@, self.line_i as nat));
                    }
                }
                match &self.dialogue.chunks[i] {
                    Chunk::Newline => {
                        push_char(&mut s, LINE_BREAK);
                    },
                    Chunk::Text(text) => {
                        if i < self.end {
                            s.append(text.text());
                        } else {
                            let n = text.text().unicode_len();
                            let k = if self.line_i < n {
                                self.line_i
                            } else {
                                n
                            };
                            let shown = text.text().substring_char(0, k);
                            assert(shown@ == text@.content.take(k as int));
                            s.append(shown);
                        }
                    },
                    Chunk::Command(command) => {
                        let end = s.as_str().unicode_len();
                        let ghost closed = span_views(spans@);
                        let span = SpanAnnotation::new(span_start, end, clone_styles(&open));
                        spans.push(span);
                        assert(span_views(spans@) == closed.push(span@));
                        match command {
                            Command::AnnotationStart(a) => {
                                open.push(*a);
                            },
                            Command::AnnotationEnd(a) => {
                                open = without(&open, *a);
                            },
                            _ => {},
                        }
                        if end > 0 {
                            push_char(&mut s, SEPARATOR);
                        }
                        span_start = s.as_str().unicode_len();
                    },
                }
                i += 1;
            }
            assert(pieces.take(i - self.start) == pieces);
        }
        let end = s.as_str().unicode_len();
        let ghost closed = span_views(spans@);
        let span = SpanAnnotation::new(span_start, end, open);
        spans.push(span);
        proof {
            assert(span_views(spans@) == closed.push(span@));
            lemma_render_shape(pieces);
        }
        AnnotatedString::new(s, spans)
    }

    /// Moves the cursor by one tick and says whether it moved.
    pub fn incr(&mut self) -> (r: bool)
        ensures
            final(self)@ == old(self)@.advance(),
            r == old(self)@.can_advance(),
            old(self)@.wf(),
            final(self)@.wf(),
    {
        proof {
            use_type_invariant(&*self);
        }
        if self.exhausted {
            false
        } else {
            assert(self.dialogue@.chunks[self.end as int] == self.dialogue.chunks@[self.end as int]@);
            assert(self.dialogue@.chunks.len() == self.dialogue.chunks.len());
            if self.line_i >= self.dialogue.chunks[self.end].tick_len() as usize {
                if self.end + 1 >= self.dialogue.chunks.len() {
                    self.exhausted = true;
                    return false;
                }
                assert(self.dialogue@.chunks[self.end + 1] == self.dialogue.chunks@[self.end + 1]@);
                let clears = match &self.dialogue.chunks[self.end + 1] {
                    Chunk::Command(Command::Clear) => true,
                    _ => false,
                };
                self.line_i = 0;
                self.end += 1;
                if clears {
                    self.start = self.end;
                }
            } else {
                self.line_i += 1;
            }
            true
        }
    }
}

} // verus!
