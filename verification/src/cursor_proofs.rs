//! What holds of every cursor: how far it can be driven, what its snapshots
//! look like, and what crossing a clear does to the page.

use vstd::prelude::*;
use crate::annotated::AnnotatedView;
use crate::chunk::{ChunkView, DialogueView};
use crate::cursor::{
    command_count, commands_lead, finish, gaps_are_separators, lemma_render_shape, render,
    render_chunk, render_start, ticks_after, total_ticks, CursorView,
};

verus! {

/// One tick keeps a cursor well formed and on its dialogue. It moves the
/// cursor exactly when steps are left, and then one step fewer is left;
/// otherwise it leaves the cursor exhausted and changes nothing else.
pub proof fn lemma_advance(c: CursorView)
    requires
        c.wf(),
    ensures
        c.advance().wf(),
        c.advance().dialogue == c.dialogue,
        c.can_advance() <==> c.steps_left() > 0,
        c.can_advance() ==> c.advance().steps_left() == c.steps_left() - 1,
        c.can_advance() ==> !c.advance().exhausted,
        !c.can_advance() ==> c.advance() == (CursorView { exhausted: true, ..c }),
{
    if c.chunks().len() > 0 && !c.exhausted {
        if c.chunk_done() && c.end + 1 < c.chunks().len() {
            assert(ticks_after(c.chunks(), c.end as int + 1) == c.chunks()[c.end as int
                + 1].tick_len() + ticks_after(c.chunks(), c.end as int + 2));
        }
        if c.end + 1 >= c.chunks().len() {
            assert(ticks_after(c.chunks(), c.end as int + 1) == 0);
        }
    }
}

/// The start of the page never moves back. It moves only with the tick that
/// enters a clear command, and then to that command, where the page ends too.
pub proof fn lemma_page_start(c: CursorView)
    requires
        c.wf(),
    ensures
        c.advance().start >= c.start,
        c.advance().start != c.start ==> {
            &&& c.advance().start == c.advance().end
            &&& c.advance().end == c.end + 1
            &&& c.advance().sub_index == 0
            &&& c.chunks()[c.advance().end as int].is_clear()
        },
{
}

/// Ticking `n + 1` times is ticking `n` times and once more.
pub proof fn lemma_advance_n_last(c: CursorView, n: nat)
    ensures
        c.advance_n(n + 1) == c.advance_n(n).advance(),
    decreases n,
{
    if n > 0 {
        lemma_advance_n_last(c.advance(), (n - 1) as nat);
        assert(c.advance_n(n) == c.advance().advance_n((n - 1) as nat));
        assert(c.advance_n(n + 1) == c.advance().advance_n(n));
    } else {
        assert(c.advance().advance_n(0) == c.advance());
        assert(c.advance_n(1) == c.advance().advance_n(0));
    }
}

/// Each of the first `steps_left` ticks moves the cursor and uses up one step.
pub proof fn lemma_advance_n(c: CursorView, n: nat)
    requires
        c.wf(),
        n <= c.steps_left(),
    ensures
        c.advance_n(n).wf(),
        c.advance_n(n).dialogue == c.dialogue,
        c.advance_n(n).steps_left() == c.steps_left() - n,
        c.advance_n(n).exhausted == c.exhausted,
    decreases n,
{
    if n > 0 {
        lemma_advance(c);
        lemma_advance_n(c.advance(), (n - 1) as nat);
    }
}

/// An exhausted cursor stays as it is, however often it is ticked.
pub proof fn lemma_exhausted_stays(c: CursorView, n: nat)
    requires
        c.exhausted,
    ensures
        c.advance_n(n) == c,
    decreases n,
{
    if n > 0 {
        lemma_exhausted_stays(c, (n - 1) as nat);
    }
}

/// Driving a cursor from the start of a dialogue with chunks: the number of
/// ticks that move it is the sum of the chunks' tick lengths and one more
/// for each chunk after the first, since entering a chunk takes a tick. The
/// tick after those moves nothing and leaves the cursor exhausted, and so
/// does every later one.
pub proof fn lemma_full_reveal(d: DialogueView)
    requires
        d.chunks.len() > 0,
    ensures
        ({
            let c = CursorView::initial(d);
            let total = (total_ticks(d.chunks) + d.chunks.len() - 1) as nat;
            &&& c.steps_left() == total
            &&& forall|k: nat| k < total ==> (#[trigger] c.advance_n(k)).can_advance()
            &&& !c.advance_n(total).can_advance()
            &&& !c.advance_n(total).exhausted
            &&& forall|k: nat| k > total ==> (#[trigger] c.advance_n(k)).exhausted
            &&& forall|k: nat| k > total ==> !(#[trigger] c.advance_n(k)).can_advance()
        }),
{
    let c = CursorView::initial(d);
    let total = (total_ticks(d.chunks) + d.chunks.len() - 1) as nat;
    assert(ticks_after(d.chunks, 0) == d.chunks[0].tick_len() + ticks_after(d.chunks, 1));
    assert(c.steps_left() == total);
    assert forall|k: nat| k < total implies (#[trigger] c.advance_n(k)).can_advance() by {
        lemma_advance_n(c, k);
        lemma_advance(c.advance_n(k));
    }
    lemma_advance_n(c, total);
    let last = c.advance_n(total);
    lemma_advance(last);
    lemma_advance_n_last(c, total);
    assert forall|k: nat| k > total implies (#[trigger] c.advance_n(k)).exhausted && !c.advance_n(
        k,
    ).can_advance() by {
        lemma_advance_n_split(c, total + 1, (k - total - 1) as nat);
        lemma_exhausted_stays(c.advance_n(total + 1), (k - total - 1) as nat);
    }
}

/// Ticking `a + b` times is ticking `a` times and then `b` times.
pub proof fn lemma_advance_n_split(c: CursorView, a: nat, b: nat)
    ensures
        c.advance_n(a + b) == c.advance_n(a).advance_n(b),
    decreases a,
{
    if a > 0 {
        lemma_advance_n_split(c.advance(), (a - 1) as nat, b);
    }
}

/// Over a dialogue of at most one chunk, as many ticks as the sum of the
/// tick lengths each move the cursor and reveal the dialogue in full: the
/// tick after them moves nothing and leaves the cursor exhausted.
pub proof fn lemma_round_trip(d: DialogueView)
    requires
        d.chunks.len() <= 1,
    ensures
        ({
            let c = CursorView::initial(d);
            let total = total_ticks(d.chunks);
            &&& forall|k: nat| k < total ==> (#[trigger] c.advance_n(k)).can_advance()
            &&& !c.advance_n(total).can_advance()
            &&& c.advance_n(total).advance().exhausted
            &&& c.advance_n(total + 1).exhausted
        }),
{
    let c = CursorView::initial(d);
    let total = total_ticks(d.chunks);
    if d.chunks.len() == 0 {
        assert(total == 0);
        lemma_exhausted_stays(c, 1);
    } else {
        lemma_full_reveal(d);
        lemma_advance_n(c, total);
        lemma_advance(c.advance_n(total));
        lemma_advance_n_last(c, total);
    }
}

/// Two snapshots of one cursor that no tick lies between are the same.
pub proof fn lemma_snapshot_repeats(c: CursorView, first: AnnotatedView, second: AnnotatedView)
    requires
        first == c.materialize(),
        second == c.materialize(),
    ensures
        first == second,
{
}

/// Every snapshot has spans that are ranges of its text, in order, from
/// the start of the text to its end. Two neighbours either meet or have
/// one separator between them, which belongs to neither.
pub proof fn lemma_snapshot_shape(c: CursorView)
    ensures
        c.materialize().wf(),
        c.materialize().ordered(),
        c.materialize().spans.len() == command_count(c.visible()) + 1,
        c.materialize().spans[0].start == 0,
        c.materialize().spans.last().end == c.materialize().string.len(),
        gaps_are_separators(c.materialize()),
{
    lemma_render_shape(c.visible());
}

/// Where no command follows visible text, the rendering has no separator
/// and its spans cover the text without a gap.
pub proof fn lemma_render_contiguous(pieces: Seq<ChunkView>)
    requires
        commands_lead(pieces),
    ensures
        finish(render(pieces)).contiguous(),
    decreases pieces.len(),
{
    lemma_render_shape(pieces);
    if pieces.len() > 0 {
        let rest = pieces.drop_last();
        assert forall|k: int| 0 <= k < rest.len() && (#[trigger] rest[k]) is Command implies render(
            rest.take(k),
        ).string.len() == 0 by {
            assert(rest[k] == pieces[k]);
            assert(rest.take(k) == pieces.take(k));
        }
        lemma_render_contiguous(rest);
        lemma_render_shape(rest);
        let a = finish(render(rest));
        let b = finish(render(pieces));
        if pieces.last() is Command {
            assert(pieces.take(pieces.len() - 1) == rest);
            assert(render(rest).string.len() == 0);
            assert(render(pieces).spans == a.spans);
            assert forall|i: int| 0 <= i < b.spans.len() - 1 implies (#[trigger] b.spans[i]).end
                == b.spans[i + 1].start by {
                assert(b.spans[i] == a.spans[i]);
                if i + 1 < a.spans.len() {
                    assert(b.spans[i + 1] == a.spans[i + 1]);
                }
            }
        } else {
            assert(render(pieces).spans == render(rest).spans);
            assert forall|i: int| 0 <= i < b.spans.len() - 1 implies (#[trigger] b.spans[i]).end
                == b.spans[i + 1].start by {
                assert(b.spans[i] == a.spans[i]);
                assert(b.spans[i + 1].start == a.spans[i + 1].start);
            }
        }
    }
}

/// The spans of a snapshot cover its text from 0 to its length without a
/// gap, provided that no command on the page follows visible text. Behind
/// visible text a command puts a separator that no span covers.
pub proof fn lemma_snapshot_contiguous(c: CursorView)
    requires
        commands_lead(c.visible()),
    ensures
        c.materialize().contiguous(),
        c.materialize().ordered(),
        c.materialize().wf(),
{
    lemma_render_contiguous(c.visible());
    lemma_render_shape(c.visible());
}

/// The tick that enters a clear command puts the start of the page on that
/// command, and the snapshot taken next holds nothing: no text of a chunk
/// before the clear, and two empty spans.
pub proof fn lemma_clear_empties_page(c: CursorView)
    requires
        c.wf(),
        !c.exhausted,
        c.chunk_done(),
        c.end + 1 < c.chunks().len(),
        c.chunks()[c.end as int + 1].is_clear(),
    ensures
        c.advance().start == c.advance().end == c.end + 1,
        c.advance().visible() == seq![c.chunks()[c.end as int + 1]],
        c.advance().materialize().string == Seq::<char>::empty(),
        c.advance().materialize().spans.len() == 2,
{
    let d = c.advance();
    let clear = c.chunks()[c.end as int + 1];
    assert(d.chunks().subrange(d.start as int, d.end as int) == Seq::<ChunkView>::empty());
    assert(d.visible() == seq![clear]);
    assert(d.visible().drop_last() == Seq::<ChunkView>::empty());
    assert(d.visible().last() == clear);
    assert(render(Seq::<ChunkView>::empty()) == render_start());
    assert(render(d.visible()) == render_chunk(render_start(), clear));
}

/// A snapshot is made of the chunks of the page alone: two cursors whose
/// pages hold the same chunks, revealed equally far, give the same
/// snapshot, whatever their dialogues hold before the page.
pub proof fn lemma_page_ignores_past(c: CursorView, d: CursorView)
    requires
        c.wf(),
        d.wf(),
        c.chunks().len() > 0,
        d.chunks().len() > 0,
        c.end - c.start == d.end - d.start,
        c.sub_index == d.sub_index,
        c.chunks().subrange(c.start as int, c.end as int + 1) == d.chunks().subrange(
            d.start as int,
            d.end as int + 1,
        ),
    ensures
        c.materialize() == d.materialize(),
{
    let a = c.chunks().subrange(c.start as int, c.end as int + 1);
    let b = d.chunks().subrange(d.start as int, d.end as int + 1);
    assert(c.chunks()[c.end as int] == a[c.end - c.start]);
    assert(d.chunks()[d.end as int] == b[d.end - d.start]);
    assert(c.chunks().subrange(c.start as int, c.end as int) == a.take(c.end - c.start));
    assert(d.chunks().subrange(d.start as int, d.end as int) == b.take(d.end - d.start));
    assert(c.visible() == d.visible());
}

} // verus!
