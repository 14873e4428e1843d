//! The values of the pattern language and the builder that lays notes out
//! on a line of time-steps.

use std::collections::HashMap;
use vstd::prelude::*;

verus! {

/// A pitched trigger: a pitch number and a velocity, both `0..=127`.
#[derive(Debug, Copy, Clone, PartialEq, Eq, Structural)]
pub struct Trigger {
    pub nn: u8,
    pub vel: u8,
}

/// One sounding event of a bar.
#[derive(Debug, Copy, Clone, PartialEq, Eq, Structural)]
pub struct SeqNote {
    pub nn: u8,
    pub vel: u8,
    /// Length in time-steps; at least 1 in every compiled bar.
    pub duration: usize,
    /// Whether the note sustains into the next tied note.
    pub legato: bool,
}

/// The events of a bar as a mathematical map from offset to the notes that
/// start there, in insertion order.
pub open spec fn lanes(evs: Map<usize, Vec<SeqNote>>) -> Map<usize, Seq<SeqNote>> {
    Map::new(|k: usize| evs.contains_key(k), |k: usize| evs[k]@)
}

/// The notes that start at `k`: empty where the map has no entry.
pub open spec fn notes_at(evs: Map<usize, Seq<SeqNote>>, k: usize) -> Seq<SeqNote> {
    if evs.contains_key(k) {
        evs[k]
    } else {
        Seq::empty()
    }
}

/// A bar of `len` time-steps is valid when every event starts at an offset
/// below `len` and lasts at least one step.
pub open spec fn bar_wf(len: usize, evs: Map<usize, Seq<SeqNote>>) -> bool {
    forall|k: usize| #[trigger]
        evs.contains_key(k) ==> k < len && forall|j: int|
            0 <= j < evs[k].len() ==> (#[trigger] evs[k][j]).duration >= 1
}

/// `other`, a bar of `other_len` steps, laid over `evs` from offset `at` on:
/// notes of `other` at offset `i` land at `at + i`, behind the notes that
/// `evs` already holds there.
pub open spec fn overlay(
    evs: Map<usize, Seq<SeqNote>>,
    at: usize,
    other_len: usize,
    other: Map<usize, Seq<SeqNote>>,
) -> Map<usize, Seq<SeqNote>> {
    Map::new(
        |k: usize|
            evs.contains_key(k) || (at <= k < at + other_len && other.contains_key(
                (k - at) as usize,
            )),
        |k: usize|
            if at <= k < at + other_len && other.contains_key((k - at) as usize) {
                notes_at(evs, k) + other[(k - at) as usize]
            } else {
                notes_at(evs, k)
            },
    )
}

/// The larger of two numbers.
pub open spec fn max_usize(a: usize, b: usize) -> usize {
    if a >= b {
        a
    } else {
        b
    }
}

/// The state of a line under construction, as plain mathematics.
pub struct Line {
    /// The offset at which the next item of the row starts.
    pub cursor: usize,
    /// The length of the longest row closed so far.
    pub longest: usize,
    /// The events laid down so far.
    pub events: Map<usize, Seq<SeqNote>>,
}

impl Line {
    /// The line that nothing has been laid on yet.
    pub open spec fn empty() -> Line {
        Line { cursor: 0, longest: 0, events: Map::empty() }
    }

    /// The length the bar would have if it were finished now.
    pub open spec fn length(self) -> usize {
        max_usize(self.cursor, self.longest)
    }

    /// Every event lies inside the bar as it stands and lasts at least a step.
    pub open spec fn wf(self) -> bool {
        bar_wf(self.length(), self.events)
    }

    /// The line after `len` silent steps.
    pub open spec fn rests(self, len: usize) -> Line {
        Line { cursor: (self.cursor + len) as usize, ..self }
    }

    /// The note that a trigger with `dur` ties lays down.
    pub open spec fn note(nn: u8, vel: u8, dur: usize, legato: bool) -> SeqNote {
        SeqNote { nn, vel, duration: (dur + 1) as usize, legato }
    }

    /// The line after a trigger with `dur` ties at the cursor.
    pub open spec fn trig(self, nn: u8, vel: u8, dur: usize, legato: bool) -> Line {
        Line {
            cursor: (self.cursor + dur + 1) as usize,
            longest: self.longest,
            events: self.events.insert(
                self.cursor,
                notes_at(self.events, self.cursor).push(Line::note(nn, vel, dur, legato)),
            ),
        }
    }

    /// The line after a compiled bar of `other_len` steps was laid over it
    /// at the cursor.
    pub open spec fn merge(self, other_len: usize, other: Map<usize, Seq<SeqNote>>) -> Line {
        Line {
            cursor: (self.cursor + other_len) as usize,
            longest: self.longest,
            events: overlay(self.events, self.cursor, other_len, other),
        }
    }

    /// The line after the row was closed.
    pub open spec fn cr(self) -> Line {
        Line { cursor: 0, longest: self.length(), events: self.events }
    }

    /// The finished bar: its length and its events.
    pub open spec fn done(self) -> (usize, Map<usize, Seq<SeqNote>>) {
        (self.length(), self.events)
    }
}

/// Appends the notes of `src` to `dst`, in order.
fn append_notes(dst: &mut Vec<SeqNote>, src: &Vec<SeqNote>)
    ensures
        final(dst)@ == old(dst)@ + src@,
{
    let mut j: usize = 0;
    while j < src.len()
        invariant
            j <= src.len(),
            dst@ == old(dst)@ + src@.subrange(0, j as int),
        decreases src.len() - j,
    {
        dst.push(src[j]);
        j = j + 1;
        assert(dst@ =~= old(dst)@ + src@.subrange(0, j as int));
    }
    assert(src@.subrange(0, src.len() as int) =~= src@);
}

/// Builds a bar step by step: a cursor that only grows, the longest row so
/// far, and the events laid down.
#[derive(Debug)]
pub struct LineBuilder {
    count: usize,
    max: usize,
    evs: HashMap<usize, Vec<SeqNote>>,
}

impl View for LineBuilder {
    type V = Line;

    closed spec fn view(&self) -> Line {
        Line { cursor: self.count, longest: self.max, events: lanes(self.evs@) }
    }
}

impl Default for LineBuilder {
    fn default() -> (r: Self)
        ensures
            r@ == Line::empty(),
    {
        let r = LineBuilder { count: 0, max: 0, evs: HashMap::new() };
        assert(r@.events =~= Map::<usize, Seq<SeqNote>>::empty());
        r
    }
}

impl LineBuilder {
    /// The cursor, for callers that must check that an item still fits.
    pub fn position(&self) -> (c: usize)
        ensures
            c == self@.cursor,
    {
        self.count
    }

    /// Ends a row: records its length and moves the cursor back to 0, so
    /// that the next row is layered over the same time axis.
    pub fn cr(&mut self)
        ensures
            final(self)@ == old(self)@.cr(),
    {
        if self.count > self.max {
            self.max = self.count;
        }
        self.count = 0;
    }

    /// Finishes the bar: its length is the longest row, the open one counted.
    pub fn done(self) -> (r: (usize, HashMap<usize, Vec<SeqNote>>))
        ensures
            (r.0, lanes(r.1@)) == self@.done(),
            self@.wf() ==> bar_wf(r.0, lanes(r.1@)),
    {
        let len = if self.count > self.max {
            self.count
        } else {
            self.max
        };
        (len, self.evs)
    }

    /// Lays down one note at the cursor, `dur` ties long, and moves the
    /// cursor past it.
    pub fn trig(&mut self, nn: u8, vel: u8, dur: usize, legato: bool)
        requires
            old(self)@.cursor + dur + 1 <= usize::MAX,
        ensures
            final(self)@ == old(self)@.trig(nn, vel, dur, legato),
    {
        let note = SeqNote { nn, vel, duration: dur + 1, legato };
        let at = self.count;
        let mut here = match self.evs.remove(&at) {
            Some(v) => v,
            None => Vec::new(),
        };
        here.push(note);
        self.evs.insert(at, here);
        self.count = at + dur + 1;
        assert(self@.events =~= old(self)@.trig(nn, vel, dur, legato).events);
    }

    /// Moves the cursor `len` steps on, leaving them silent.
    pub fn rests(&mut self, len: usize)
        requires
            old(self)@.cursor + len <= usize::MAX,
        ensures
            final(self)@ == old(self)@.rests(len),
    {
        self.count = self.count + len;
    }

    /// Lays a compiled bar of `other_len` steps over the line from the
    /// cursor on, and moves the cursor past it. Where the line already has
    /// notes at an offset, the bar's notes are added behind them.
    pub fn merge(&mut self, other_len: usize, other_notes: &HashMap<usize, Vec<SeqNote>>)
        requires
            old(self)@.cursor + other_len <= usize::MAX,
        ensures
            final(self)@ == old(self)@.merge(other_len, lanes(other_notes@)),
    {
        let ghost before = self@.events;
        let ghost start = self.count;
        let ghost other = lanes(other_notes@);
        let mut i: usize = 0;
        assert(self@.events =~= overlay(before, start, 0, other));
        while i < other_len
            invariant
                i <= other_len,
                start + other_len <= usize::MAX,
                self.count == start + i,
                self.max == old(self).max,
                other == lanes(other_notes@),
                self@.events == overlay(before, start, i, other),
            decreases other_len - i,
        {
            let at = self.count;
            let ghost prev = self@.events;
            assert(notes_at(prev, at) == notes_at(before, at));
            match other_notes.get(&i) {
                None => {},
                Some(v) => {
                    let mut here = match self.evs.remove(&at) {
                        Some(h) => h,
                        None => Vec::new(),
                    };
                    append_notes(&mut here, v);
                    self.evs.insert(at, here);
                },
            }
            self.count = at + 1;
            i = i + 1;
            proof {
                let want = overlay(before, start, i, other);
                assert((at - start) as usize == i - 1);
                assert forall|k: usize| self@.events.contains_key(k) == want.contains_key(
                    k,
                ) by {
                    if k != at {
                        assert(self@.events.contains_key(k) == prev.contains_key(k));
                    }
                }
                assert forall|k: usize| self@.events.contains_key(k) implies self@.events[k]
                    == want[k] by {
                    if k != at {
                        assert(prev.contains_key(k));
                        assert(self@.events[k] == prev[k]);
                    }
                }
                assert(self@.events =~= want);
            }
        }
    }
}

/// A valid line stays valid through silent steps.
pub proof fn lemma_rests_wf(l: Line, len: usize)
    requires
        l.wf(),
        l.cursor + len <= usize::MAX,
    ensures
        l.rests(len).wf(),
{
}

/// A valid line stays valid through a trigger.
pub proof fn lemma_trig_wf(l: Line, nn: u8, vel: u8, dur: usize, legato: bool)
    requires
        l.wf(),
        l.cursor + dur + 1 <= usize::MAX,
    ensures
        l.trig(nn, vel, dur, legato).wf(),
{
    let t = l.trig(nn, vel, dur, legato);
    assert forall|k: usize| #[trigger] t.events.contains_key(k) implies k < t.length()
        && forall|j: int| 0 <= j < t.events[k].len() ==> (#[trigger] t.events[k][j]).duration
        >= 1 by {
        if k != l.cursor {
            assert(l.events.contains_key(k));
        }
    }
}

/// A valid line stays valid when a valid bar is laid over it.
pub proof fn lemma_merge_wf(l: Line, other_len: usize, other: Map<usize, Seq<SeqNote>>)
    requires
        l.wf(),
        bar_wf(other_len, other),
        l.cursor + other_len <= usize::MAX,
    ensures
        l.merge(other_len, other).wf(),
{
    let t = l.merge(other_len, other);
    assert forall|k: usize| #[trigger] t.events.contains_key(k) implies k < t.length()
        && forall|j: int| 0 <= j < t.events[k].len() ==> (#[trigger] t.events[k][j]).duration
        >= 1 by {
        if l.events.contains_key(k) {
            assert(k < l.length());
        }
        if l.cursor <= k < l.cursor + other_len && other.contains_key((k - l.cursor) as usize) {
            let o = other[(k - l.cursor) as usize];
            assert forall|j: int| 0 <= j < t.events[k].len() implies (
            #[trigger] t.events[k][j]).duration >= 1 by {
                let n0 = notes_at(l.events, k).len();
                if j >= n0 {
                    assert(t.events[k][j] == o[j - n0]);
                }
            }
        }
    }
}

/// A valid line stays valid when its row is closed.
pub proof fn lemma_cr_wf(l: Line)
    requires
        l.wf(),
    ensures
        l.cr().wf(),
{
}

/// In a valid line no event starts at or beyond the length of the bar that
/// `done` returns.
pub proof fn law_offsets_below_length(l: Line, k: usize)
    requires
        l.wf(),
        l.events.contains_key(k),
    ensures
        k < l.done().0,
        l.done().1.contains_key(k),
{
}

/// The empty line is valid.
pub proof fn law_empty_line_wf()
    ensures
        Line::empty().wf(),
{
}

/// Rests alone make a bar of that many steps with no event in it.
pub proof fn law_rests_then_done(n: usize)
    ensures
        Line::empty().rests(n).done() == (n, Map::<usize, Seq<SeqNote>>::empty()),
{
}

/// A trigger with `ties` ties takes `ties + 1` steps and lays down exactly
/// one note, of duration `ties + 1`, at the cursor; no other offset changes.
pub proof fn law_trigger_with_ties(l: Line, nn: u8, vel: u8, ties: usize, legato: bool)
    requires
        l.cursor + ties + 1 <= usize::MAX,
    ensures
        l.trig(nn, vel, ties, legato).cursor == l.cursor + ties + 1,
        notes_at(l.trig(nn, vel, ties, legato).events, l.cursor) == notes_at(
            l.events,
            l.cursor,
        ).push((SeqNote { nn, vel, duration: (ties + 1) as usize, legato })),
        forall|k: usize|
            k != l.cursor ==> notes_at(l.trig(nn, vel, ties, legato).events, k) == notes_at(
                l.events,
                k,
            ) && (l.trig(nn, vel, ties, legato).events.contains_key(k) <==> l.events.contains_key(
                k,
            )),
{
}

/// Laying a bar of `m` steps over a line at cursor `c` puts the notes that
/// the bar has at offset `i` at offset `c + i`, behind what was there, adds
/// nothing anywhere else, and moves the cursor on by `m`.
pub proof fn law_merge_shifts_events(
    l: Line,
    m: usize,
    other: Map<usize, Seq<SeqNote>>,
    k: usize,
)
    requires
        l.cursor + m <= usize::MAX,
    ensures
        l.merge(m, other).cursor == l.cursor + m,
        l.longest == l.merge(m, other).longest,
        k < m ==> notes_at(l.merge(m, other).events, (l.cursor + k) as usize) == notes_at(
            l.events,
            (l.cursor + k) as usize,
        ) + notes_at(other, k),
        k < l.cursor || k >= l.cursor + m ==> notes_at(l.merge(m, other).events, k) == notes_at(
            l.events,
            k,
        ),
        l.merge(m, other).events.contains_key(k) <==> l.events.contains_key(k) || (l.cursor <= k
            < l.cursor + m && other.contains_key((k - l.cursor) as usize)),
{
    let t = l.merge(m, other);
    if k < m {
        let at = (l.cursor + k) as usize;
        assert((at - l.cursor) as usize == k);
        if !other.contains_key(k) {
            assert(notes_at(t.events, at) =~= notes_at(l.events, at) + notes_at(other, k));
        }
    }
}

/// Closing a row moves no event and loses no length: the next row starts
/// at offset 0 over the same events, and the bar is as long as its longest
/// row.
pub proof fn law_cr_layers_rows(l: Line, next_row: usize)
    ensures
        l.cr().cursor == 0,
        l.cr().events == l.events,
        l.cr().length() == l.length(),
        l.cr().rests(next_row).done().0 == max_usize(l.length(), next_row),
{
}

/// A value of the language as plain mathematics.
pub enum ValView {
    Bar(usize, Map<usize, Seq<SeqNote>>),
    Trigger(Trigger),
}

/// A value that a name can be bound to: a compiled bar or a trigger.
#[derive(Debug)]
pub enum Val {
    Bar(usize, HashMap<usize, Vec<SeqNote>>),
    Trigger(Trigger),
}

impl View for Val {
    type V = ValView;

    open spec fn view(&self) -> ValView {
        match self {
            Val::Bar(len, evs) => ValView::Bar(*len, lanes(evs@)),
            Val::Trigger(t) => ValView::Trigger(*t),
        }
    }
}

impl ValView {
    /// A trigger has pitch and velocity in `0..=127`; a bar is a valid bar.
    pub open spec fn wf(self) -> bool {
        match self {
            ValView::Bar(len, evs) => bar_wf(len, evs),
            ValView::Trigger(t) => t.nn < 128 && t.vel < 128,
        }
    }
}

impl Clone for Val {
    fn clone(&self) -> (r: Self)
        ensures
            r@ == self@,
    {
        match self {
            Val::Bar(len, evs) => Val::Bar(*len, evs.clone()),
            Val::Trigger(t) => Val::Trigger(*t),
        }
    }
}

} // verus!
