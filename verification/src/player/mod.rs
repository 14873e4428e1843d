//! The playback engine: outputs, slots, and the scheduler that advances
//! them one tick at a time.

use crate::player::sequencer::{relit, Sequencer, SequencerView};
use crate::sequence_types::Sequence;
use vstd::prelude::*;

pub mod controllers;
pub mod sequencer;
pub mod slot;
pub mod voicer;

pub use voicer::Voicer;

verus! {

/// What the front end and the grid controller ask of the scheduler.
pub enum SeqCmd {
    PushOutput(Voicer),
    SetBpm(usize),
    AssignSlot(usize, Box<dyn Sequence>),
    AssignOutput(usize, usize),
    PlaySlot(usize),
    StopSlot(usize),
    SetSync(usize, usize),
    SetDiv(usize, usize),
    ToggleSlot(usize),
    Launchpad(controllers::Lpadout),
    Quit,
}

/// What the scheduler reports when it starts and when it ends.
#[derive(Debug, Copy, Clone, PartialEq, Eq, Structural)]
pub enum SeqRsp {
    Done,
    Failed(usize),
}

impl SeqCmd {
    /// A command for slot `i` leaves `after`, seen against `before`, with
    /// that slot changed to the cursor and transport `sv`, its pattern kept,
    /// and the grid shown again; a slot number beyond the last changes
    /// nothing.
    pub open spec fn slot_done(
        before: SequencerView,
        after: SequencerView,
        i: usize,
        sv: crate::player::slot::SlotView,
    ) -> bool {
        &&& after.kept_rest(before)
        &&& i < before.slots.len() ==> after.slot_changed(before, i as int, sv) && after.pad
            == relit(before.pad, after.slots)
        &&& i >= before.slots.len() ==> after == before
    }

    /// What carrying out the command makes of the scheduler `before`.
    pub open spec fn done(self, before: SequencerView, after: SequencerView) -> bool {
        match self {
            SeqCmd::SetBpm(bpm) => after == (SequencerView { bpm, ..before }),
            SeqCmd::PushOutput(v) => after == (SequencerView {
                outs: before.outs.push(v@),
                ..before
            }),
            SeqCmd::AssignSlot(n, pattern) => {
                &&& after.kept_rest(before)
                &&& after.pad == before.pad
                &&& after.slots.len() == before.slots.len()
                &&& forall|j: int|
                    0 <= j < before.slots.len() && j != n ==> after.slots[j] == before.slots[j]
                &&& n < before.slots.len() ==> {
                    let s = after.slots[n as int];
                    &&& s@ == before.slots[n as int]@.assign()
                    &&& s.loaded()
                    &&& s.pattern_len() == pattern.length()
                    &&& forall|k: usize| s.pattern_notes(k) == pattern.notes(k)
                }
            },
            SeqCmd::AssignOutput(n, out) => {
                &&& after.kept_rest(before)
                &&& after.pad == before.pad
                &&& n < before.slots.len() ==> after.slot_changed(
                    before,
                    n as int,
                    (crate::player::slot::SlotView { out, ..before.slots[n as int]@ }),
                )
                &&& n >= before.slots.len() ==> after == before
            },
            SeqCmd::PlaySlot(n) => SeqCmd::slot_done(
                before,
                after,
                n,
                before.slots[n as int]@.play(),
            ),
            SeqCmd::StopSlot(n) => SeqCmd::slot_done(
                before,
                after,
                n,
                before.slots[n as int]@.stop(),
            ),
            SeqCmd::SetSync(n, sync) => SeqCmd::slot_done(
                before,
                after,
                n,
                before.slots[n as int]@.set_sync(sync),
            ),
            SeqCmd::SetDiv(n, div) => {
                &&& after.kept_rest(before)
                &&& after.pad == before.pad
                &&& n < before.slots.len() && div >= 1 ==> after.slot_changed(
                    before,
                    n as int,
                    before.slots[n as int]@.set_div(div),
                )
                &&& n >= before.slots.len() || div == 0 ==> after == before
            },
            SeqCmd::ToggleSlot(n) => SeqCmd::slot_done(
                before,
                after,
                n,
                before.slots[n as int]@.toggle(),
            ),
            SeqCmd::Launchpad(lp) => after == (SequencerView {
                pad: relit(Some(lp@), before.slots),
                ..before
            }),
            SeqCmd::Quit => {
                &&& after.bpm == before.bpm
                &&& after.pad == before.pad
                &&& after.sync_ticks == before.sync_ticks
                &&& after.slots.len() == before.slots.len()
                &&& forall|i: int|
                    0 <= i < before.slots.len() ==> (#[trigger] after.slots[i])@
                        == before.slots[i]@.stop() && after.kept_pattern(before, i)
                &&& after.outs.len() == before.outs.len()
                &&& forall|j: int|
                    0 <= j < before.outs.len() ==> #[trigger] after.outs[j]
                        == before.outs[j].kill_all()
            },
        }
    }
}

/// Carries out one command against the scheduler and says whether the
/// scheduler is to end: it is after `Quit`, which stops every slot and
/// switches every sounding note off.
pub fn apply(seq: &mut Sequencer, cmd: SeqCmd) -> (quit: bool)
    ensures
        quit == (cmd is Quit),
        cmd.done(old(seq)@, final(seq)@),
        old(seq)@.wf() ==> final(seq)@.wf(),
{
    match cmd {
        SeqCmd::SetBpm(bpm) => {
            seq.set_bpm(bpm);
            false
        },
        SeqCmd::PushOutput(v) => {
            seq.push_output(v);
            false
        },
        SeqCmd::AssignSlot(n, bds) => {
            let pattern = Some(bds);
            seq.install(n, pattern);
            false
        },
        SeqCmd::AssignOutput(n, u) => {
            seq.assign_slot_output(n, u);
            false
        },
        SeqCmd::PlaySlot(n) => {
            seq.play_slot(n);
            false
        },
        SeqCmd::StopSlot(n) => {
            seq.stop_slot(n);
            false
        },
        SeqCmd::SetSync(n, sync) => {
            seq.set_sync(n, sync);
            false
        },
        SeqCmd::SetDiv(n, div) => {
            seq.set_div(n, div);
            false
        },
        SeqCmd::ToggleSlot(n) => {
            seq.toggle_slot(n);
            false
        },
        SeqCmd::Launchpad(lp) => {
            seq.add_lp(lp);
            false
        },
        SeqCmd::Quit => {
            seq.kill_all();
            true
        },
    }
}

} // verus!
