//! One playback slot: a pattern, a cursor into it, and the transport state
//! machine that starts and stops it, at once or on a sync boundary.

use crate::player::voicer::{Voicer, VoicerView};
use crate::seq_types::SeqNote;
use crate::sequence_types::Sequence;
use vstd::prelude::*;

verus! {

/// The transport of a slot.
#[derive(Debug, Default, Copy, Clone, PartialEq, Eq, Structural)]
pub enum Transport {
    #[default]
    Stop,
    StopSync,
    Play,
    PlaySync,
}

/// What a slot shows to the outside: its transport, or that it is empty.
#[derive(Debug, Copy, Clone, PartialEq, Eq, Structural)]
pub enum SlotState {
    Empty,
    Stopped,
    StopSync,
    Playing,
    PlaySync,
}

/// A slot without its pattern, as plain mathematics.
pub struct SlotView {
    /// The index of the output that the slot plays on.
    pub out: usize,
    pub tpt: Transport,
    /// Ticks into the current step.
    pub tick: usize,
    /// The current step of the pattern.
    pub step: usize,
    /// Ticks per step; at least 1.
    pub tps: usize,
    /// The sync quantum; 0 for none.
    pub sync_pt: usize,
}

impl SlotView {
    /// Playing; the cursor stays where it is.
    pub open spec fn play(self) -> SlotView {
        SlotView { tpt: Transport::Play, ..self }
    }

    /// Stopping rewinds the pattern.
    pub open spec fn stop(self) -> SlotView {
        SlotView { tpt: Transport::Stop, tick: 0, step: 0, ..self }
    }

    /// What a pending transport becomes when it no longer has to wait.
    pub open spec fn resolve(self) -> SlotView {
        match self.tpt {
            Transport::StopSync => self.play(),
            Transport::PlaySync => self.stop(),
            _ => self,
        }
    }

    /// Flipped: unsynced, between stopped and playing; with a sync quantum, a
    /// stopped or playing slot waits for the boundary and a waiting slot plays.
    pub open spec fn toggle(self) -> SlotView {
        match self.tpt {
            Transport::Stop => if self.sync_pt == 0 {
                self.play()
            } else {
                SlotView { tpt: Transport::PlaySync, ..self }
            },
            Transport::StopSync => self.play(),
            Transport::Play => if self.sync_pt == 0 {
                self.stop()
            } else {
                SlotView { tpt: Transport::PlaySync, ..self }
            },
            Transport::PlaySync => self.play(),
        }
    }

    /// Whether the scheduler's count `sync_ticks` is a boundary of the
    /// slot's sync quantum.
    pub open spec fn on_boundary(self, sync_ticks: usize) -> bool {
        self.sync_pt != 0 && sync_ticks % self.sync_pt == 0
    }

    /// After the scheduler offered the sync count `sync_ticks`: a pending
    /// transport takes effect on a boundary and on no other tick.
    pub open spec fn sync(self, sync_ticks: usize) -> SlotView {
        if self.on_boundary(sync_ticks) {
            self.resolve()
        } else {
            self
        }
    }

    /// With the sync quantum `new_sync`; with 0 a pending transport takes effect
    /// at once.
    pub open spec fn set_sync(self, new_sync: usize) -> SlotView {
        let s = SlotView { sync_pt: new_sync, ..self };
        if new_sync == 0 {
            s.resolve()
        } else {
            s
        }
    }

    /// With `new_div` ticks to the step.
    pub open spec fn set_div(self, new_div: usize) -> SlotView {
        SlotView { tps: new_div, ..self }
    }

    /// A new pattern starts from its first step; nothing else changes.
    pub open spec fn assign(self) -> SlotView {
        SlotView { tick: 0, step: 0, ..self }
    }

    /// The tick cursor one tick on, before it is known whether the step is
    /// complete. A cursor at the largest number starts over.
    pub open spec fn next_tick(self) -> usize {
        if self.tick == usize::MAX {
            0
        } else {
            (self.tick + 1) as usize
        }
    }

    /// The cursor after one tick of a playing slot whose pattern has `len`
    /// steps: when the tick cursor completes a step, it returns to 0 and the
    /// step cursor moves on, around the pattern.
    pub open spec fn advance(self, len: usize) -> SlotView {
        if self.next_tick() % self.tps == 0 {
            SlotView {
                tick: 0,
                step: if len == 0 {
                    0
                } else {
                    ((self.step + 1) % (len as int)) as usize
                },
                ..self
            }
        } else {
            SlotView { tick: self.next_tick(), ..self }
        }
    }
}

/// The length in ticks of a note of `duration` steps at `tps` ticks per
/// step, held to the largest number where the product exceeds it.
pub open spec fn scaled(duration: usize, tps: usize) -> usize {
    if duration * tps > usize::MAX {
        usize::MAX
    } else {
        (duration * tps) as usize
    }
}

/// The voicer after the first `n` of `notes` were switched on, each as long
/// as `tps` ticks per step make it, with its own velocity as off-velocity.
pub open spec fn played(v: VoicerView, notes: Seq<SeqNote>, tps: usize, n: nat) -> VoicerView
    decreases n,
{
    if n == 0 || n > notes.len() {
        v
    } else {
        let sqn = notes[n - 1];
        played(v, notes, tps, (n - 1) as nat).play_note(
            sqn.nn,
            sqn.vel,
            sqn.vel,
            scaled(sqn.duration, tps),
            sqn.legato,
        )
    }
}

/// The voicer after the notes that `seq` has at `step` were sent to it.
fn play_step(step: usize, tps: usize, seq: &mut Box<dyn Sequence>, v: &mut Voicer)
    ensures
        final(seq).length() == old(seq).length(),
        final(v)@ == match old(seq).notes(step) {
            Some(notes) => played(old(v)@, notes, tps, notes.len()),
            None => old(v)@,
        },
{
    match seq.events(step) {
        None => {},
        Some(events) => {
            let mut i: usize = 0;
            while i < events.len()
                invariant
                    i <= events.len(),
                    v@ == played(old(v)@, events@, tps, i as nat),
                decreases events.len() - i,
            {
                let sqn = events[i];
                let dur = match sqn.duration.checked_mul(tps) {
                    Some(d) => d,
                    None => usize::MAX,
                };
                v.play_note(sqn.nn, sqn.vel, sqn.vel, dur, sqn.legato);
                i = i + 1;
            }
        },
    }
}

/// A playback slot.
pub struct Slot {
    pub out: usize,
    current: Option<Box<dyn Sequence>>,
    tpt: Transport,
    tick: usize,
    step: usize,
    tps: usize,
    sync_pt: usize,
}

impl View for Slot {
    type V = SlotView;

    closed spec fn view(&self) -> SlotView {
        SlotView {
            out: self.out,
            tpt: self.tpt,
            tick: self.tick,
            step: self.step,
            tps: self.tps,
            sync_pt: self.sync_pt,
        }
    }
}

impl Default for Slot {
    /// An empty, stopped slot on output 0, six ticks to the step, unsynced.
    fn default() -> (r: Self)
        ensures
            r@ == (SlotView {
                out: 0,
                tpt: Transport::Stop,
                tick: 0,
                step: 0,
                tps: 6,
                sync_pt: 0,
            }),
            !r.loaded(),
            r.wf(),
    {
        Self { out: 0, current: None, tpt: Transport::Stop, tick: 0, step: 0, tps: 6, sync_pt: 0 }
    }
}

impl Slot {
    /// Whether a pattern has been assigned.
    pub closed spec fn loaded(&self) -> bool {
        self.current.is_some()
    }

    /// The length of the pattern; 0 for an empty slot.
    pub closed spec fn pattern_len(&self) -> usize {
        match self.current {
            Some(seq) => seq.length(),
            None => 0,
        }
    }

    /// The notes that the pattern has at `step`.
    pub closed spec fn pattern_notes(&self, step: usize) -> Option<Seq<SeqNote>> {
        match self.current {
            Some(seq) => seq.notes(step),
            None => None,
        }
    }

    /// A step has at least one tick, and the step cursor lies inside the
    /// pattern (at 0 where the pattern is empty).
    pub open spec fn wf(&self) -> bool {
        &&& self@.tps >= 1
        &&& self@.step == 0 || self@.step < self.pattern_len()
    }

    /// Whether a tick makes the slot read its pattern and send notes: it is
    /// playing, at the start of a step, and has an output.
    pub open spec fn sounds(&self, has_output: bool) -> bool {
        self.loaded() && self@.tpt == Transport::Play && self@.tick == 0 && has_output
    }

    /// One tick. A playing slot that is at the start of a step sends the
    /// notes of that step to its output, if it has one; then its cursor
    /// moves on. A slot that is empty or not playing does nothing.
    pub fn tick(&mut self, v: Option<&mut Voicer>)
        requires
            old(self).wf(),
        ensures
            final(self).wf(),
            final(self).loaded() == old(self).loaded(),
            final(self).pattern_len() == old(self).pattern_len(),
            !old(self).sounds(v is Some) ==> final(self).same_pattern(*old(self)),
            final(self)@ == if old(self).loaded() && old(self)@.tpt == Transport::Play {
                old(self)@.advance(old(self).pattern_len())
            } else {
                old(self)@
            },
            match v {
                Some(r) => final(r)@ == if old(self).sounds(true) {
                    match old(self).pattern_notes(old(self)@.step) {
                        Some(notes) => played(r@, notes, old(self)@.tps, notes.len()),
                        None => r@,
                    }
                } else {
                    r@
                },
                None => true,
            },
    {
        let playing = self.tpt == Transport::Play;
        match &mut self.current {
            Some(seq) => {
                if playing {
                    if self.tick == 0 {
                        match v {
                            Some(voice) => {
                                play_step(self.step, self.tps, seq, voice);
                            },
                            None => {},
                        }
                    }
                    let len = seq.len();
                    self.tick = self.tick.wrapping_add(1);
                    if self.tick % self.tps == 0 {
                        self.tick = 0;
                        self.step = if len == 0 {
                            0
                        } else {
                            (self.step + 1) % len
                        };
                    }
                }
            },
            None => {},
        }
    }

    /// Lets a pending transport take effect if `sync_ticks` is a boundary of
    /// the slot's sync quantum: a slot waiting to start plays, a slot waiting
    /// to stop stops. An unsynced slot, or any other tick, changes nothing.
    pub fn sync(&mut self, sync_ticks: usize)
        ensures
            final(self)@ == old(self)@.sync(sync_ticks),
            final(self).same_pattern(*old(self)),
            old(self).wf() ==> final(self).wf(),
    {
        if self.sync_pt == 0 {
            return ;
        }
        if sync_ticks % self.sync_pt == 0 {
            match self.tpt {
                Transport::StopSync => self.play(),
                Transport::PlaySync => self.stop(),
                _ => (),
            }
        }
    }

    /// Two slots hold the same pattern, or both none.
    pub closed spec fn same_pattern(&self, other: Slot) -> bool {
        self.current == other.current
    }

    /// Gives the slot a pattern and rewinds it. Transport, output, division
    /// and sync quantum stay as they are.
    pub fn assign(&mut self, seq: Box<dyn Sequence>)
        ensures
            final(self)@ == old(self)@.assign(),
            final(self).loaded(),
            final(self).pattern_len() == seq.length(),
            forall|k: usize| final(self).pattern_notes(k) == seq.notes(k),
            old(self)@.tps >= 1 ==> final(self).wf(),
    {
        let pattern = Some(seq);
        self.install(pattern);
    }

    /// `assign` for a caller that holds the pattern in an `Option`.
    pub(crate) fn install(&mut self, pattern: Option<Box<dyn Sequence>>)
        requires
            pattern is Some,
        ensures
            final(self)@ == old(self)@.assign(),
            final(self).loaded(),
            final(self).pattern_len() == pattern->Some_0.length(),
            forall|k: usize| final(self).pattern_notes(k) == pattern->Some_0.notes(k),
            old(self)@.tps >= 1 ==> final(self).wf(),
    {
        self.current = pattern;
        self.tick = 0;
        self.step = 0;
    }

    /// Starts the slot where its cursor stands.
    pub fn play(&mut self)
        ensures
            final(self)@ == old(self)@.play(),
            final(self).same_pattern(*old(self)),
            old(self).wf() ==> final(self).wf(),
    {
        self.tpt = Transport::Play
    }

    /// Stops the slot and rewinds it.
    pub fn stop(&mut self)
        ensures
            final(self)@ == old(self)@.stop(),
            final(self).same_pattern(*old(self)),
            old(self).wf() ==> final(self).wf(),
    {
        self.tpt = Transport::Stop;
        self.tick = 0;
        self.step = 0;
    }

    /// Flips the slot. Unsynced, between stopped and playing. With a sync
    /// quantum, a stopped or playing slot waits for the boundary, and a
    /// waiting slot plays at once.
    pub fn toggle(&mut self)
        ensures
            final(self)@ == old(self)@.toggle(),
            final(self).same_pattern(*old(self)),
            old(self).wf() ==> final(self).wf(),
    {
        match self.tpt {
            Transport::Stop => {
                if self.sync_pt == 0 {
                    self.play()
                } else {
                    self.tpt = Transport::PlaySync
                }
            },
            Transport::StopSync => self.tpt = Transport::Play,
            Transport::Play => {
                if self.sync_pt == 0 {
                    self.stop()
                } else {
                    self.tpt = Transport::PlaySync
                }
            },
            Transport::PlaySync => self.tpt = Transport::Play,
        }
    }

    /// What the slot shows: empty, or its transport.
    pub open spec fn shown(&self) -> SlotState {
        if !self.loaded() {
            SlotState::Empty
        } else {
            match self@.tpt {
                Transport::Stop => SlotState::Stopped,
                Transport::Play => SlotState::Playing,
                Transport::StopSync => SlotState::StopSync,
                Transport::PlaySync => SlotState::PlaySync,
            }
        }
    }

    /// What the slot shows: empty, or its transport.
    pub fn state(&self) -> (st: SlotState)
        ensures
            st == self.shown(),
    {
        if self.current.is_none() {
            return SlotState::Empty;
        }
        match self.tpt {
            Transport::Stop => SlotState::Stopped,
            Transport::Play => SlotState::Playing,
            Transport::StopSync => SlotState::StopSync,
            Transport::PlaySync => SlotState::PlaySync,
        }
    }

    /// The index of the output that the slot plays on.
    pub fn output(&self) -> (out: usize)
        ensures
            out == self@.out,
    {
        self.out
    }

    /// Assigns the slot to another output. Nothing else changes.
    pub fn set_output(&mut self, out: usize)
        ensures
            final(self)@ == (SlotView { out, ..old(self)@ }),
            final(self).same_pattern(*old(self)),
            old(self).wf() ==> final(self).wf(),
    {
        self.out = out;
    }

    /// Sets how many ticks make a step.
    pub fn set_div(&mut self, new_div: usize)
        requires
            new_div >= 1,
        ensures
            final(self)@ == old(self)@.set_div(new_div),
            final(self).same_pattern(*old(self)),
            old(self).wf() ==> final(self).wf(),
    {
        self.tps = new_div;
    }

    /// Sets the sync quantum. With 0 the slot no longer waits for anything:
    /// a pending transport takes effect at once.
    pub fn set_sync(&mut self, new_sync: usize)
        ensures
            final(self)@ == old(self)@.set_sync(new_sync),
            final(self).same_pattern(*old(self)),
            old(self).wf() ==> final(self).wf(),
    {
        self.sync_pt = new_sync;
        if self.sync_pt == 0 {
            match self.tpt {
                Transport::StopSync => self.play(),
                Transport::PlaySync => self.stop(),
                _ => (),
            }
        }
    }
}

/// Slots that hold the same pattern agree on everything that is said of it.
pub proof fn lemma_same_pattern(a: Slot, b: Slot)
    requires
        a.same_pattern(b),
    ensures
        a.loaded() == b.loaded(),
        a.pattern_len() == b.pattern_len(),
        forall|k: usize| a.pattern_notes(k) == b.pattern_notes(k),
{
}

/// Holding the same pattern carries over.
pub proof fn lemma_same_pattern_trans(a: Slot, b: Slot, c: Slot)
    requires
        a.same_pattern(b),
        b.same_pattern(c),
    ensures
        a.same_pattern(c),
{
}

/// Toggling a stopped slot that has a sync quantum arms it: it does not
/// play at once.
pub proof fn law_toggle_arms_synced_slot(s: SlotView)
    requires
        s.sync_pt != 0,
        s.tpt == Transport::Stop,
    ensures
        s.toggle().tpt == Transport::PlaySync,
{
}

/// A pending transport changes only on a boundary of the sync quantum: on
/// any other tick the slot stays exactly as it is. On a boundary a slot
/// waiting to start plays and a slot waiting to stop stops.
pub proof fn law_sync_waits_for_boundary(s: SlotView, sync_ticks: usize)
    ensures
        !s.on_boundary(sync_ticks) ==> s.sync(sync_ticks) == s,
        s.on_boundary(sync_ticks) && s.tpt == Transport::StopSync ==> s.sync(sync_ticks).tpt
            == Transport::Play,
        s.on_boundary(sync_ticks) && s.tpt == Transport::PlaySync ==> s.sync(sync_ticks).tpt
            == Transport::Stop,
        s.tpt == Transport::Stop || s.tpt == Transport::Play ==> s.sync(sync_ticks) == s,
{
}

/// Taking the sync quantum away lets a pending transport take effect at
/// once: a slot waiting to start plays, a slot waiting to stop stops.
pub proof fn law_unsync_resolves(s: SlotView)
    ensures
        s.tpt == Transport::StopSync ==> s.set_sync(0).tpt == Transport::Play,
        s.tpt == Transport::PlaySync ==> s.set_sync(0).tpt == Transport::Stop,
        s.set_sync(0).sync_pt == 0,
{
}

} // verus!
