//! The scheduler: all outputs and slots, advanced one tick at a time.

use crate::player::controllers::{grid_msg, Color, Lpadout};
use crate::player::slot::{played, Slot, SlotState, SlotView, Transport};
use crate::player::voicer::{MidiMsg, Voicer, VoicerView};
use crate::sequence_types::Sequence;
use vstd::prelude::*;

verus! {

/// The scheduler's sync count runs over one bar at the finest resolution:
/// 96 ticks to the beat, four beats.
pub const SYNC_PERIOD: usize = 384;

/// The scheduler as plain mathematics. The slots are kept whole, because a
/// slot's pattern is not a plain value.
pub struct SequencerView {
    pub outs: Seq<VoicerView>,
    pub slots: Seq<Slot>,
    pub bpm: usize,
    /// What has been written for the grid controller, if there is one.
    pub pad: Option<Seq<MidiMsg>>,
    pub sync_ticks: usize,
}

/// The colour that shows a slot's state on the grid.
pub open spec fn state_color(st: SlotState) -> Color {
    match st {
        SlotState::Empty => Color::Off,
        SlotState::Stopped => Color::Red3,
        SlotState::StopSync => Color::Red1,
        SlotState::Playing => Color::Green3,
        SlotState::PlaySync => Color::Green1,
    }
}

/// The messages that show the first `n` slots on the grid, eight to the row.
pub open spec fn lights(slots: Seq<Slot>, n: nat) -> Seq<MidiMsg>
    decreases n,
{
    if n == 0 || n > slots.len() {
        Seq::empty()
    } else {
        lights(slots, (n - 1) as nat).push(
            grid_msg(
                ((n - 1) / 8) as usize,
                ((n - 1) % 8) as usize,
                state_color(slots[n - 1].shown()),
            ),
        )
    }
}

/// The grid controller's messages after the slots were shown on it again.
pub open spec fn relit(pad: Option<Seq<MidiMsg>>, slots: Seq<Slot>) -> Option<Seq<MidiMsg>> {
    match pad {
        Some(m) => Some(m + lights(slots, slots.len())),
        None => None,
    }
}

/// A slot's cursor and transport after one tick of the scheduler at sync
/// count `ticks`: first the sync boundary is honoured, then a playing slot
/// moves on.
pub open spec fn slot_after_tick(s: Slot, ticks: usize) -> SlotView {
    let sv = s@.sync(ticks);
    if s.loaded() && sv.tpt == Transport::Play {
        sv.advance(s.pattern_len())
    } else {
        sv
    }
}

/// Whether slot `s` reads its pattern and sends notes in a tick of the
/// scheduler at sync count `ticks`, with `n_outs` outputs: it plays, once
/// the sync boundary is honoured, is at the start of a step, and is
/// assigned to an output that there is.
pub open spec fn slot_sounds(s: Slot, ticks: usize, n_outs: nat) -> bool {
    let sv = s@.sync(ticks);
    s.loaded() && sv.tpt == Transport::Play && sv.tick == 0 && sv.out < n_outs
}

/// The outputs after the first `n` slots had their tick, in order: each
/// playing slot at the start of a step sends the notes of that step to the
/// output it is assigned to, if there is such an output.
pub open spec fn outs_after_slots(
    slots: Seq<Slot>,
    outs: Seq<VoicerView>,
    ticks: usize,
    n: nat,
) -> Seq<VoicerView>
    decreases n,
{
    if n == 0 || n > slots.len() {
        outs
    } else {
        let prev = outs_after_slots(slots, outs, ticks, (n - 1) as nat);
        let s = slots[n - 1];
        let sv = s@.sync(ticks);
        if slot_sounds(s, ticks, prev.len()) {
            match s.pattern_notes(sv.step) {
                Some(notes) => prev.update(
                    sv.out as int,
                    played(prev[sv.out as int], notes, sv.tps, notes.len()),
                ),
                None => prev,
            }
        } else {
            prev
        }
    }
}

/// The sync count one tick on: it starts over after a full period.
pub open spec fn next_sync(ticks: usize) -> usize {
    if ticks + 1 >= SYNC_PERIOD {
        0
    } else {
        (ticks + 1) as usize
    }
}

/// The scheduler.
pub struct Sequencer {
    outs: Vec<Voicer>,
    slots: Vec<Slot>,
    bpm: usize,
    lp: Option<Lpadout>,
    sync_ticks: usize,
}

impl View for Sequencer {
    type V = SequencerView;

    closed spec fn view(&self) -> SequencerView {
        SequencerView {
            outs: Seq::new(self.outs@.len(), |i: int| self.outs@[i]@),
            slots: self.slots@,
            bpm: self.bpm,
            pad: match self.lp {
                Some(l) => Some(l@),
                None => None,
            },
            sync_ticks: self.sync_ticks,
        }
    }
}

impl SequencerView {
    /// Every slot is well formed and the sync count lies inside its period.
    pub open spec fn wf(self) -> bool {
        &&& self.sync_ticks < SYNC_PERIOD
        &&& forall|i: int| 0 <= i < self.slots.len() ==> (#[trigger] self.slots[i]).wf()
    }

    /// Slot `i` of `self` holds the pattern that it held in `before`.
    pub open spec fn kept_pattern(self, before: SequencerView, i: int) -> bool {
        self.slots[i].same_pattern(before.slots[i])
    }

    /// Outputs, tempo and sync count are those of `before`.
    pub open spec fn kept_rest(self, before: SequencerView) -> bool {
        &&& self.outs == before.outs
        &&& self.bpm == before.bpm
        &&& self.sync_ticks == before.sync_ticks
    }

    /// `self` differs from `before` in slot `i` at most, which now has the
    /// cursor and transport `sv` and the pattern it had.
    pub open spec fn slot_changed(self, before: SequencerView, i: int, sv: SlotView) -> bool {
        &&& self.slots.len() == before.slots.len()
        &&& forall|j: int| 0 <= j < self.slots.len() && j != i ==> self.slots[j] == before.slots[j]
        &&& self.slots[i]@ == sv
        &&& self.kept_pattern(before, i)
    }
}

impl Sequencer {
    /// A scheduler at `bpm` with `slot_count` empty slots, no output, and
    /// the grid controller `lp` if there is one.
    pub fn init(bpm: usize, slot_count: usize, lp: Option<Lpadout>) -> (r: Self)
        ensures
            r@.wf(),
            r@.outs == Seq::<VoicerView>::empty(),
            r@.slots.len() == slot_count,
            forall|i: int|
                0 <= i < slot_count ==> !(#[trigger] r@.slots[i]).loaded() && r@.slots[i]@ == (
                SlotView {
                    out: 0,
                    tpt: Transport::Stop,
                    tick: 0,
                    step: 0,
                    tps: 6,
                    sync_pt: 0,
                }),
            r@.bpm == bpm,
            r@.pad == match lp {
                Some(l) => Some(l@),
                None => None,
            },
            r@.sync_ticks == 0,
    {
        let mut slots: Vec<Slot> = Vec::new();
        let mut i: usize = 0;
        while i < slot_count
            invariant
                i <= slot_count,
                slots@.len() == i,
                forall|j: int|
                    0 <= j < i ==> (#[trigger] slots@[j]).wf() && !slots@[j].loaded() && slots@[j]@
                        == (SlotView {
                        out: 0,
                        tpt: Transport::Stop,
                        tick: 0,
                        step: 0,
                        tps: 6,
                        sync_pt: 0,
                    }),
            decreases slot_count - i,
        {
            slots.push(Slot::default());
            i = i + 1;
        }
        let r = Sequencer { outs: Vec::new(), slots, bpm, lp, sync_ticks: 0 };
        assert(r@.outs =~= Seq::<VoicerView>::empty());
        r
    }

    /// Sets the tempo. No slot and no output is touched.
    pub fn set_bpm(&mut self, bpm: usize)
        ensures
            final(self)@ == (SequencerView { bpm, ..old(self)@ }),
    {
        self.bpm = bpm;
    }

    /// The tempo in beats per minute.
    pub fn bpm(&self) -> (b: usize)
        ensures
            b == self@.bpm,
    {
        self.bpm
    }

    /// One tick. In this order: every output cuts the notes that are due
    /// and not legato; every slot honours its sync boundary and has its own
    /// tick against the output it is assigned to; every output ends its
    /// tick; the sync count moves on.
    pub fn tick(&mut self) -> (r: Result<(), usize>)
        requires
            old(self)@.wf(),
        ensures
            r is Ok,
            final(self)@.wf(),
            final(self)@.bpm == old(self)@.bpm,
            final(self)@.pad == old(self)@.pad,
            final(self)@.sync_ticks == next_sync(old(self)@.sync_ticks),
            final(self)@.outs.len() == old(self)@.outs.len(),
            forall|j: int|
                0 <= j < old(self)@.outs.len() ==> #[trigger] final(self)@.outs[j]
                    == outs_after_slots(
                    old(self)@.slots,
                    Seq::new(old(self)@.outs.len(), |k: int| old(self)@.outs[k].pre_tick()),
                    old(self)@.sync_ticks,
                    old(self)@.slots.len(),
                )[j].tick(),
            final(self)@.slots.len() == old(self)@.slots.len(),
            forall|i: int|
                0 <= i < old(self)@.slots.len() ==> {
                    &&& (#[trigger] final(self)@.slots[i])@ == slot_after_tick(
                        old(self)@.slots[i],
                        old(self)@.sync_ticks,
                    )
                    &&& final(self)@.slots[i].loaded() == old(self)@.slots[i].loaded()
                    &&& final(self)@.slots[i].pattern_len() == old(self)@.slots[i].pattern_len()
                    &&& !slot_sounds(
                        old(self)@.slots[i],
                        old(self)@.sync_ticks,
                        old(self)@.outs.len(),
                    ) ==> final(self)@.kept_pattern(old(self)@, i)
                },
    {
        let ghost cut = Seq::new(old(self)@.outs.len(), |k: int| old(self)@.outs[k].pre_tick());
        let ghost ticks = self.sync_ticks;
        let n_outs = self.outs.len();
        let mut i: usize = 0;
        while i < n_outs
            invariant
                i <= n_outs,
                n_outs == self.outs@.len(),
                self.outs@.len() == old(self).outs@.len(),
                self.slots == old(self).slots,
                self.bpm == old(self).bpm,
                self.lp == old(self).lp,
                self.sync_ticks == old(self).sync_ticks,
                forall|j: int| 0 <= j < i ==> (#[trigger] self.outs@[j])@ == old(self).outs@[j]@.pre_tick(),
                forall|j: int| i <= j < n_outs ==> #[trigger] self.outs@[j] == old(self).outs@[j],
            decreases n_outs - i,
        {
            self.outs[i].pre_tick();
            i = i + 1;
        }
        assert(self@.outs =~= cut);

        let n_slots = self.slots.len();
        let mut i: usize = 0;
        while i < n_slots
            invariant
                i <= n_slots,
                n_slots == self.slots@.len(),
                n_outs == self.outs@.len(),
                self.slots@.len() == old(self).slots@.len(),
                self.outs@.len() == old(self).outs@.len(),
                cut.len() == n_outs,
                self.bpm == old(self).bpm,
                self.lp == old(self).lp,
                self.sync_ticks == old(self).sync_ticks,
                ticks == self.sync_ticks,
                old(self)@.wf(),
                self@.outs == outs_after_slots(old(self).slots@, cut, ticks, i as nat),
                forall|j: int|
                    0 <= j < i ==> {
                        &&& (#[trigger] self.slots@[j])@ == slot_after_tick(old(self).slots@[j], ticks)
                        &&& self.slots@[j].loaded() == old(self).slots@[j].loaded()
                        &&& self.slots@[j].pattern_len() == old(self).slots@[j].pattern_len()
                        &&& self.slots@[j].wf()
                        &&& !slot_sounds(old(self).slots@[j], ticks, n_outs as nat)
                            ==> self.slots@[j].same_pattern(old(self).slots@[j])
                    },
                forall|j: int| i <= j < n_slots ==> #[trigger] self.slots@[j] == old(self).slots@[j],
            decreases n_slots - i,
        {
            let ghost before_outs = self@.outs;
            let ghost s0 = self.slots@[i as int];
            assert(s0 == old(self)@.slots[i as int]);
            assert(s0.wf());
            self.slots[i].sync(self.sync_ticks);
            let ghost s1 = self.slots@[i as int];
            proof {
                crate::player::slot::lemma_same_pattern(s1, s0);
            }
            let out = self.slots[i].output();
            if out < self.outs.len() {
                self.slots[i].tick(Some(&mut self.outs[out]));
                assert(self@.outs =~= outs_after_slots(old(self).slots@, cut, ticks, (i + 1) as nat));
            } else {
                self.slots[i].tick(None);
                assert(self@.outs =~= outs_after_slots(old(self).slots@, cut, ticks, (i + 1) as nat));
            }
            proof {
                let s2 = self.slots@[i as int];
                if !slot_sounds(s0, ticks, n_outs as nat) {
                    crate::player::slot::lemma_same_pattern_trans(s2, s1, s0);
                }
            }
            i = i + 1;
        }

        let ghost played_outs = self@.outs;
        let mut i: usize = 0;
        while i < n_outs
            invariant
                i <= n_outs,
                n_outs == self.outs@.len(),
                played_outs.len() == n_outs,
                self.slots@.len() == old(self).slots@.len(),
                self.bpm == old(self).bpm,
                self.lp == old(self).lp,
                self.sync_ticks == old(self).sync_ticks,
                forall|j: int| 0 <= j < i ==> (#[trigger] self.outs@[j])@ == played_outs[j].tick(),
                forall|j: int| i <= j < n_outs ==> (#[trigger] self.outs@[j])@ == played_outs[j],
                forall|j: int|
                    0 <= j < self.slots@.len() ==> {
                        &&& (#[trigger] self.slots@[j])@ == slot_after_tick(old(self).slots@[j], ticks)
                        &&& self.slots@[j].loaded() == old(self).slots@[j].loaded()
                        &&& self.slots@[j].pattern_len() == old(self).slots@[j].pattern_len()
                        &&& self.slots@[j].wf()
                        &&& !slot_sounds(old(self).slots@[j], ticks, n_outs as nat)
                            ==> self.slots@[j].same_pattern(old(self).slots@[j])
                    },
            decreases n_outs - i,
        {
            self.outs[i].tick();
            i = i + 1;
        }

        self.sync_ticks = self.sync_ticks + 1;
        if self.sync_ticks >= SYNC_PERIOD {
            self.sync_ticks = 0;
        }
        Ok(())
    }

    /// Stops every slot and switches every sounding note off.
    pub fn kill_all(&mut self)
        ensures
            final(self)@.bpm == old(self)@.bpm,
            final(self)@.pad == old(self)@.pad,
            final(self)@.sync_ticks == old(self)@.sync_ticks,
            final(self)@.slots.len() == old(self)@.slots.len(),
            forall|i: int|
                0 <= i < old(self)@.slots.len() ==> (#[trigger] final(self)@.slots[i])@ == old(self)@.slots[i]@.stop() && final(self)@.kept_pattern(old(self)@, i),
            final(self)@.outs.len() == old(self)@.outs.len(),
            forall|j: int|
                0 <= j < old(self)@.outs.len() ==> #[trigger] final(self)@.outs[j] == old(self)@.outs[j].kill_all(),
            old(self)@.wf() ==> final(self)@.wf(),
    {
        let n_slots = self.slots.len();
        let mut i: usize = 0;
        while i < n_slots
            invariant
                i <= n_slots,
                n_slots == self.slots@.len(),
                self.slots@.len() == old(self).slots@.len(),
                self.outs == old(self).outs,
                self.bpm == old(self).bpm,
                self.lp == old(self).lp,
                self.sync_ticks == old(self).sync_ticks,
                forall|j: int|
                    0 <= j < i ==> (#[trigger] self.slots@[j])@ == old(self).slots@[j]@.stop()
                        && self.slots@[j].same_pattern(old(self).slots@[j]) && (old(self).slots@[j].wf() ==> self.slots@[j].wf()),
                forall|j: int| i <= j < n_slots ==> #[trigger] self.slots@[j] == old(self).slots@[j],
            decreases n_slots - i,
        {
            self.slots[i].stop();
            i = i + 1;
        }
        let n_outs = self.outs.len();
        let mut i: usize = 0;
        while i < n_outs
            invariant
                i <= n_outs,
                n_outs == self.outs@.len(),
                self.outs@.len() == old(self).outs@.len(),
                self.slots@.len() == old(self).slots@.len(),
                self.bpm == old(self).bpm,
                self.lp == old(self).lp,
                self.sync_ticks == old(self).sync_ticks,
                forall|j: int|
                    0 <= j < self.slots@.len() ==> (#[trigger] self.slots@[j])@ == old(self).slots@[j]@.stop() && self.slots@[j].same_pattern(old(self).slots@[j]) && (old(self).slots@[j].wf() ==> self.slots@[j].wf()),
                forall|j: int|
                    0 <= j < i ==> (#[trigger] self.outs@[j])@ == old(self).outs@[j]@.kill_all(),
                forall|j: int| i <= j < n_outs ==> #[trigger] self.outs@[j] == old(self).outs@[j],
            decreases n_outs - i,
        {
            self.outs[i].kill_all();
            i = i + 1;
        }
    }

    /// Gives slot `slot` the pattern `seq` and rewinds it. A slot number
    /// beyond the last slot is ignored.
    pub fn assign_slot(&mut self, slot: usize, seq: Box<dyn Sequence>)
        ensures
            final(self)@.kept_rest(old(self)@),
            final(self)@.pad == old(self)@.pad,
            final(self)@.slots.len() == old(self)@.slots.len(),
            forall|j: int|
                0 <= j < old(self)@.slots.len() && j != slot ==> final(self)@.slots[j] == old(self)@.slots[j],
            slot < old(self)@.slots.len() ==> {
                let s = final(self)@.slots[slot as int];
                &&& s@ == old(self)@.slots[slot as int]@.assign()
                &&& s.loaded()
                &&& s.pattern_len() == seq.length()
                &&& forall|k: usize| s.pattern_notes(k) == seq.notes(k)
            },
            old(self)@.wf() ==> final(self)@.wf(),
    {
        let pattern = Some(seq);
        self.install(slot, pattern);
    }

    /// `assign_slot` for a caller that holds the pattern in an `Option`.
    pub(crate) fn install(&mut self, slot: usize, pattern: Option<Box<dyn Sequence>>)
        requires
            pattern is Some,
        ensures
            final(self)@.kept_rest(old(self)@),
            final(self)@.pad == old(self)@.pad,
            final(self)@.slots.len() == old(self)@.slots.len(),
            forall|j: int|
                0 <= j < old(self)@.slots.len() && j != slot ==> final(self)@.slots[j] == old(self)@.slots[j],
            slot < old(self)@.slots.len() ==> {
                let s = final(self)@.slots[slot as int];
                &&& s@ == old(self)@.slots[slot as int]@.assign()
                &&& s.loaded()
                &&& s.pattern_len() == pattern->Some_0.length()
                &&& forall|k: usize| s.pattern_notes(k) == pattern->Some_0.notes(k)
            },
            old(self)@.wf() ==> final(self)@.wf(),
    {
        if slot < self.slots.len() {
            self.slots[slot].install(pattern);
        }
        assert(self@.outs =~= old(self)@.outs);
    }

    /// Assigns slot `slot` to output `out`. A slot number beyond the last
    /// slot is ignored.
    pub fn assign_slot_output(&mut self, slot: usize, out: usize)
        ensures
            final(self)@.kept_rest(old(self)@),
            final(self)@.pad == old(self)@.pad,
            slot < old(self)@.slots.len() ==> final(self)@.slot_changed(
                old(self)@,
                slot as int,
                (SlotView { out, ..old(self)@.slots[slot as int]@ }),
            ),
            slot >= old(self)@.slots.len() ==> final(self)@ == old(self)@,
            old(self)@.wf() ==> final(self)@.wf(),
    {
        if slot < self.slots.len() {
            self.slots[slot].set_output(out);
        }
        assert(self@.outs =~= old(self)@.outs);
        assert(self@.slots =~= old(self)@.slots || slot < old(self)@.slots.len());
    }

    /// Adds an output behind the others and says how many there are now.
    pub fn push_output(&mut self, v: Voicer) -> (n: usize)
        ensures
            final(self)@ == (SequencerView { outs: old(self)@.outs.push(v@), ..old(self)@ }),
            n == old(self)@.outs.len() + 1,
    {
        self.outs.push(v);
        assert(self@.outs =~= old(self)@.outs.push(v@));
        self.outs.len()
    }

    /// Sets the sync quantum of slot `slot` and shows the slots on the grid
    /// again. A slot number beyond the last slot is ignored.
    pub fn set_sync(&mut self, slot: usize, sync_num: usize)
        ensures
            final(self)@.kept_rest(old(self)@),
            slot < old(self)@.slots.len() ==> final(self)@.slot_changed(
                old(self)@,
                slot as int,
                old(self)@.slots[slot as int]@.set_sync(sync_num),
            ) && final(self)@.pad == relit(old(self)@.pad, final(self)@.slots),
            slot >= old(self)@.slots.len() ==> final(self)@ == old(self)@,
            old(self)@.wf() ==> final(self)@.wf(),
    {
        if slot < self.slots.len() {
            self.slots[slot].set_sync(sync_num);
            assert(self@.outs =~= old(self)@.outs);
            self.sync_lp();
        }
    }

    /// Sets how many ticks make a step of slot `slot`. A slot number beyond
    /// the last slot is ignored, and so is a division of 0: a step has at
    /// least one tick.
    pub fn set_div(&mut self, slot: usize, sync_num: usize)
        ensures
            final(self)@.kept_rest(old(self)@),
            final(self)@.pad == old(self)@.pad,
            slot < old(self)@.slots.len() && sync_num >= 1 ==> final(self)@.slot_changed(
                old(self)@,
                slot as int,
                old(self)@.slots[slot as int]@.set_div(sync_num),
            ),
            slot >= old(self)@.slots.len() || sync_num == 0 ==> final(self)@ == old(self)@,
            old(self)@.wf() ==> final(self)@.wf(),
    {
        if slot < self.slots.len() && sync_num >= 1 {
            self.slots[slot].set_div(sync_num);
            assert(self@.outs =~= old(self)@.outs);
        }
    }

    /// Starts slot `slot` and shows the slots on the grid again. A slot
    /// number beyond the last slot is ignored.
    pub fn play_slot(&mut self, slot: usize)
        ensures
            final(self)@.kept_rest(old(self)@),
            slot < old(self)@.slots.len() ==> final(self)@.slot_changed(
                old(self)@,
                slot as int,
                old(self)@.slots[slot as int]@.play(),
            ) && final(self)@.pad == relit(old(self)@.pad, final(self)@.slots),
            slot >= old(self)@.slots.len() ==> final(self)@ == old(self)@,
            old(self)@.wf() ==> final(self)@.wf(),
    {
        if slot < self.slots.len() {
            self.slots[slot].play();
            assert(self@.outs =~= old(self)@.outs);
            self.sync_lp();
        }
    }

    /// Stops and rewinds slot `slot` and shows the slots on the grid again.
    /// A slot number beyond the last slot is ignored.
    pub fn stop_slot(&mut self, slot: usize)
        ensures
            final(self)@.kept_rest(old(self)@),
            slot < old(self)@.slots.len() ==> final(self)@.slot_changed(
                old(self)@,
                slot as int,
                old(self)@.slots[slot as int]@.stop(),
            ) && final(self)@.pad == relit(old(self)@.pad, final(self)@.slots),
            slot >= old(self)@.slots.len() ==> final(self)@ == old(self)@,
            old(self)@.wf() ==> final(self)@.wf(),
    {
        if slot < self.slots.len() {
            self.slots[slot].stop();
            assert(self@.outs =~= old(self)@.outs);
            self.sync_lp();
        }
    }

    /// Toggles slot `slot` and shows the slots on the grid again. A slot
    /// number beyond the last slot is ignored.
    pub fn toggle_slot(&mut self, slot: usize)
        ensures
            final(self)@.kept_rest(old(self)@),
            slot < old(self)@.slots.len() ==> final(self)@.slot_changed(
                old(self)@,
                slot as int,
                old(self)@.slots[slot as int]@.toggle(),
            ) && final(self)@.pad == relit(old(self)@.pad, final(self)@.slots),
            slot >= old(self)@.slots.len() ==> final(self)@ == old(self)@,
            old(self)@.wf() ==> final(self)@.wf(),
    {
        if slot < self.slots.len() {
            self.slots[slot].toggle();
            assert(self@.outs =~= old(self)@.outs);
            self.sync_lp();
        }
    }

    /// Takes `lp` as the grid controller and shows the slots on it.
    pub fn add_lp(&mut self, lp: Lpadout)
        ensures
            final(self)@ == (SequencerView {
                pad: relit(Some(lp@), old(self)@.slots),
                ..old(self)@
            }),
    {
        self.lp = Some(lp);
        self.sync_lp();
    }

    /// Lets the grid controller go.
    pub fn drop_lp(&mut self)
        ensures
            final(self)@ == (SequencerView { pad: None, ..old(self)@ }),
    {
        self.lp = None
    }

    /// Shows every slot on the grid controller, if there is one: slot `i`
    /// on the pad in row `i / 8`, column `i % 8`, in the colour of its state.
    pub fn sync_lp(&mut self)
        ensures
            final(self)@ == (SequencerView {
                pad: relit(old(self)@.pad, old(self)@.slots),
                ..old(self)@
            }),
    {
        let taken = self.lp.take();
        match taken {
            None => {},
            Some(mut lp) => {
                let ghost before = lp@;
                let n = self.slots.len();
                let mut i: usize = 0;
                while i < n
                    invariant
                        i <= n,
                        n == self.slots@.len(),
                        self.slots == old(self).slots,
                        self.outs == old(self).outs,
                        self.bpm == old(self).bpm,
                        self.sync_ticks == old(self).sync_ticks,
                        lp@ == before + lights(self.slots@, i as nat),
                    decreases n - i,
                {
                    let row = i / 8;
                    let col = i % 8;
                    let color = match self.slots[i].state() {
                        SlotState::Empty => Color::Off,
                        SlotState::Stopped => Color::Red3,
                        SlotState::StopSync => Color::Red1,
                        SlotState::Playing => Color::Green3,
                        SlotState::PlaySync => Color::Green1,
                    };
                    lp.set_grid(row, col, color);
                    i = i + 1;
                    assert(lp@ =~= before + lights(self.slots@, i as nat));
                }
                self.lp = Some(lp);
            },
        }
    }

    /// The number of outputs.
    pub fn output_count(&self) -> (n: usize)
        ensures
            n == self@.outs.len(),
    {
        self.outs.len()
    }

    /// Hands over what has been written for output `out` since the last
    /// call, oldest first; nothing for an output that does not exist.
    pub fn take_output_messages(&mut self, out: usize) -> (msgs: Vec<MidiMsg>)
        ensures
            out < old(self)@.outs.len() ==> msgs@ == old(self)@.outs[out as int].sent && final(self)@ == (SequencerView {
                outs: old(self)@.outs.update(
                    out as int,
                    (VoicerView { sent: Seq::empty(), ..old(self)@.outs[out as int] }),
                ),
                ..old(self)@
            }),
            out >= old(self)@.outs.len() ==> msgs@ == Seq::<MidiMsg>::empty() && final(self)@
                == old(self)@,
    {
        if out < self.outs.len() {
            let msgs = self.outs[out].take_messages();
            assert(self@.outs =~= old(self)@.outs.update(
                out as int,
                (VoicerView { sent: Seq::empty(), ..old(self)@.outs[out as int] }),
            ));
            msgs
        } else {
            Vec::new()
        }
    }

    /// Hands over what has been written for the grid controller since the
    /// last call, oldest first; nothing where there is no controller.
    pub fn take_pad_messages(&mut self) -> (msgs: Vec<MidiMsg>)
        ensures
            msgs@ == match old(self)@.pad {
                Some(m) => m,
                None => Seq::empty(),
            },
            final(self)@ == (SequencerView {
                pad: match old(self)@.pad {
                    Some(m) => Some(Seq::empty()),
                    None => None,
                },
                ..old(self)@
            }),
    {
        let taken = self.lp.take();
        match taken {
            None => Vec::new(),
            Some(mut lp) => {
                let msgs = lp.take_messages();
                self.lp = Some(lp);
                msgs
            },
        }
    }
}

} // verus!
