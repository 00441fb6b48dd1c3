//! The engine that turns elapsed time into ticks of a cursor, and lets a
//! finished dialogue linger before it is cleared.
//!
//! Time is counted in whole units, [`UNITS_PER_TICK`] to the tick, so that
//! no rounding error can build up over a run.

use vstd::prelude::*;
use crate::annotated::{AnnotatedString, AnnotatedView, OwnedAnnotatedStringIterator};
use crate::chunk::{Dialogue, DialogueView};
use crate::cursor::{CursorView, DialogueCursor};
use crate::cursor_proofs::lemma_advance;

verus! {

/// Units of time in one tick.
pub const UNITS_PER_TICK: u64 = 1000;

/// The time for which a finished dialogue stays before it is cleared, unless
/// set otherwise: 240 ticks.
pub const DEFAULT_LINGER_TIME: u64 = 240_000;

/// The time between two ticks of the cursor, unless set otherwise: three
/// quarters of a tick.
pub const DEFAULT_TEXT_RATE: u64 = 750;

/// The linger time with which a dialogue that has just run out begins to
/// linger: one tick.
pub const LINGER_SEED: u64 = 1000;

/// The two timing settings of an engine, in units of time.
#[derive(Copy, Clone, Debug, PartialEq, Eq, Structural)]
pub struct DialogueEngineOptions {
    pub line_linger_time: u64,
    pub text_rate: u64,
}

impl Default for DialogueEngineOptions {
    fn default() -> (r: Self)
        ensures
            r.line_linger_time == DEFAULT_LINGER_TIME,
            r.text_rate == DEFAULT_TEXT_RATE,
    {
        DialogueEngineOptions {
            line_linger_time: DEFAULT_LINGER_TIME,
            text_rate: DEFAULT_TEXT_RATE,
        }
    }
}

/// Plays one dialogue at a time.
#[derive(Debug)]
pub struct DialogueEngine {
    pub options: DialogueEngineOptions,
    cursor: Option<DialogueCursor>,
    annotated_string: AnnotatedString,
    t: u64,
    line_linger_t: u64,
}

/// The mathematical value of a [`DialogueEngine`]. Without a cursor the
/// engine is idle; with one it is revealing while `linger` is 0, and
/// lingering otherwise.
pub ghost struct EngineView {
    pub options: DialogueEngineOptions,
    pub cursor: Option<CursorView>,
    pub snapshot: AnnotatedView,
    pub elapsed: nat,
    pub linger: nat,
}

/// The sum of two times, kept within `u64`.
pub open spec fn add_capped(a: nat, b: nat) -> nat {
    if a + b > u64::MAX {
        u64::MAX as nat
    } else {
        a + b
    }
}

/// A cursor after the time `t` has been spent on it at one tick for every
/// `rate`, what is left of the time, and whether a tick found the cursor at
/// its end.
pub ghost struct Drained {
    pub cursor: CursorView,
    pub left: nat,
    pub ended: bool,
}

/// Spends the time `t` on the cursor `c`: while more than `rate` is left,
/// `rate` is taken off and the cursor is ticked once; the tick that does not
/// move the cursor ends the spending.
pub open spec fn drain(c: CursorView, t: nat, rate: nat) -> Drained
    decreases c.steps_left(),
    when c.wf()
{
    if t > rate {
        if c.can_advance() {
            proof {
                lemma_advance(c);
            }
            drain(c.advance(), (t - rate) as nat, rate)
        } else {
            Drained { cursor: c.advance(), left: (t - rate) as nat, ended: true }
        }
    } else {
        Drained { cursor: c, left: t, ended: false }
    }
}

impl EngineView {
    /// The idle engine with the settings `options`.
    pub open spec fn idle(options: DialogueEngineOptions) -> EngineView {
        EngineView {
            options,
            cursor: None,
            snapshot: AnnotatedView::empty(),
            elapsed: 0,
            linger: 0,
        }
    }

    /// The settings of an engine that was given none.
    pub open spec fn default_options() -> DialogueEngineOptions {
        DialogueEngineOptions {
            line_linger_time: DEFAULT_LINGER_TIME,
            text_rate: DEFAULT_TEXT_RATE,
        }
    }

    /// Every cursor of the engine is well formed.
    pub open spec fn wf(self) -> bool {
        self.cursor matches Some(c) ==> c.wf()
    }

    /// The engine without a dialogue: no cursor, an empty snapshot, both
    /// timers at 0. The settings stay.
    pub open spec fn clear(self) -> EngineView {
        EngineView::idle(self.options)
    }

    /// Whether the engine plays a dialogue with the name and file of `d`.
    pub open spec fn plays(self, d: DialogueView) -> bool {
        self.cursor matches Some(c) && c.dialogue.same_identity(d)
    }

    /// The engine after `d` is queued. Where it plays a dialogue of that
    /// name and file already, only the linger time changes: it is halved.
    /// Otherwise the engine is cleared and gets a cursor at the start of `d`.
    pub open spec fn queue(self, d: DialogueView) -> EngineView {
        if self.plays(d) {
            EngineView { linger: self.linger / 2, ..self }
        } else {
            EngineView { cursor: Some(CursorView::initial(d)), ..self.clear() }
        }
    }

    /// The engine after the time `dt`. An idle engine stays as it is. A
    /// lingering one adds `dt` to its linger time and is cleared once that
    /// exceeds the setting. A revealing one adds `dt` to its elapsed time,
    /// spends it on the cursor, begins to linger if the cursor was found at
    /// its end, and takes a new snapshot.
    pub open spec fn tick(self, dt: nat) -> EngineView {
        match self.cursor {
            None => self,
            Some(c) => if self.linger > 0 {
                if add_capped(self.linger, dt) > self.options.line_linger_time {
                    self.clear()
                } else {
                    EngineView { linger: add_capped(self.linger, dt), ..self }
                }
            } else {
                let d = drain(c, add_capped(self.elapsed, dt), self.options.text_rate as nat);
                EngineView {
                    options: self.options,
                    cursor: Some(d.cursor),
                    snapshot: d.cursor.materialize(),
                    elapsed: d.left,
                    linger: if d.ended {
                        LINGER_SEED as nat
                    } else {
                        0
                    },
                }
            },
        }
    }
}

/// Queueing a dialogue of the same name and file a second time, with no
/// clear in between, leaves the cursor where it is, with its page and its
/// position, and the snapshot and the elapsed time as they are; it halves
/// the linger time.
pub proof fn lemma_requeue_halves_linger(e: EngineView, first: DialogueView, again: DialogueView)
    requires
        first.same_identity(again),
    ensures
        e.queue(first).plays(again),
        e.queue(first).queue(again).cursor == e.queue(first).cursor,
        e.queue(first).queue(again).snapshot == e.queue(first).snapshot,
        e.queue(first).queue(again).elapsed == e.queue(first).elapsed,
        e.queue(first).queue(again).linger == e.queue(first).linger / 2,
        e.queue(first).queue(again).options == e.options,
{
}

impl View for DialogueEngine {
    type V = EngineView;

    closed spec fn view(&self) -> EngineView {
        EngineView {
            options: self.options,
            cursor: match self.cursor {
                Some(c) => Some(c@),
                None => None,
            },
            snapshot: self.annotated_string@,
            elapsed: self.t as nat,
            linger: self.line_linger_t as nat,
        }
    }
}

impl Default for DialogueEngine {
    fn default() -> (r: Self)
        ensures
            r@ == EngineView::idle(EngineView::default_options()),
    {
        DialogueEngine {
            options: DialogueEngineOptions::default(),
            cursor: None,
            annotated_string: AnnotatedString::default(),
            t: 0,
            line_linger_t: 0,
        }
    }
}

impl Clone for DialogueEngine {
    fn clone(&self) -> (r: Self)
        ensures
            r@ == self@,
    {
        DialogueEngine {
            options: self.options,
            cursor: match &self.cursor {
                Some(c) => Some(c.clone()),
                None => None,
            },
            annotated_string: self.annotated_string.clone(),
            t: self.t,
            line_linger_t: self.line_linger_t,
        }
    }
}

/// Spends the time `t` on `cursor`, and gives what is left of it and
/// whether a tick found the cursor at its end.
fn spend(cursor: &mut DialogueCursor, t: u64, rate: u64) -> (r: (u64, bool))
    ensures
        drain(old(cursor)@, t as nat, rate as nat) == (Drained {
            cursor: final(cursor)@,
            left: r.0 as nat,
            ended: r.1,
        }),
        final(cursor)@.wf(),
{
    let mut left = t;
    let mut ended = false;
    let ghost start = cursor@;
    let _ = cursor.is_exhausted();
    while left > rate && !ended
        invariant
            cursor@.wf(),
            drain(start, t as nat, rate as nat) == if ended {
                Drained { cursor: cursor@, left: left as nat, ended: true }
            } else {
                drain(cursor@, left as nat, rate as nat)
            },
        decreases
                cursor@.steps_left() + if ended {
                    0nat
                } else {
                    1nat
                },
    {
        proof {
            lemma_advance(cursor@);
        }
        left -= rate;
        if !cursor.incr() {
            ended = true;
        }
    }
    (left, ended)
}

impl DialogueEngine {
    /// An idle engine with the given settings.
    pub fn new(options: DialogueEngineOptions) -> (r: Self)
        ensures
            r@ == EngineView::idle(options),
    {
        DialogueEngine {
            options,
            cursor: None,
            annotated_string: AnnotatedString::default(),
            t: 0,
            line_linger_t: 0,
        }
    }

    /// Queues `dialogue`: starts it, unless a dialogue of its name and file
    /// is playing, whose linger time is halved instead.
    pub fn queue(&mut self, dialogue: &Dialogue)
        ensures
            final(self)@ == old(self)@.queue(dialogue@),
    {
        let same = match &self.cursor {
            Some(c) => c.dialogue_name_eq(dialogue),
            None => false,
        };
        if same {
            self.line_linger_t = self.line_linger_t / 2;
            return ;
        }
        self.clear();
        self.cursor = Some(DialogueCursor::new(dialogue));
    }

    /// Drops the dialogue and returns to idle.
    pub fn clear(&mut self)
        ensures
            final(self)@ == old(self)@.clear(),
    {
        self.cursor = None;
        self.annotated_string = AnnotatedString::default();
        self.t = 0;
        self.line_linger_t = 0;
    }

    /// An iterator over a copy of the last snapshot.
    pub fn current_string_iter(&self) -> (r: OwnedAnnotatedStringIterator)
        ensures
            r.source() == self@.snapshot,
            r.position() == 0,
    {
        self.annotated_string.clone().owned_iter()
    }

    /// The last snapshot.
    pub fn current(&self) -> (r: &AnnotatedString)
        ensures
            r@ == self@.snapshot,
    {
        &self.annotated_string
    }

    /// Whether the engine plays no dialogue.
    pub fn is_idle(&self) -> (r: bool)
        ensures
            r == (self@.cursor is None),
    {
        self.cursor.is_none()
    }

    /// The time for which the dialogue has lingered; 0 while it is revealed.
    pub fn linger_elapsed(&self) -> (r: u64)
        ensures
            r == self@.linger,
    {
        self.line_linger_t
    }

    /// The time that has not been spent on the cursor yet.
    pub fn elapsed(&self) -> (r: u64)
        ensures
            r == self@.elapsed,
    {
        self.t
    }

    /// Lets the time `dt` pass.
    pub fn tick(&mut self, dt: u64)
        ensures
            final(self)@ == old(self)@.tick(dt as nat),
    {
        if self.cursor.is_none() {
            return ;
        }
        if self.line_linger_t > 0 {
            let lingered = self.line_linger_t.saturating_add(dt);
            if lingered > self.options.line_linger_time {
                self.clear();
            } else {
                self.line_linger_t = lingered;
            }
            return ;
        }
        let t = self.t.saturating_add(dt);
        let rate = self.options.text_rate;
        match &mut self.cursor {
            Some(cursor) => {
                let (left, ended) = spend(cursor, t, rate);
                self.annotated_string = cursor.get();
                self.t = left;
                if ended {
                    self.line_linger_t = LINGER_SEED;
                }
            },
            None => {},
        }
    }
}

} // verus!
