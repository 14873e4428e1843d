//! The note lifecycle of one output: every note that was switched on is
//! remembered until it ends. A note that ends gets its note-off just before
//! the notes of the next tick start; a legato note that ends gets none, and
//! sustains into the note that follows it.

use vstd::prelude::*;

verus! {

/// One MIDI channel voice message: a status byte and two data bytes.
#[derive(Debug, Copy, Clone, PartialEq, Eq, Structural)]
pub struct MidiMsg {
    pub status: u8,
    pub data1: u8,
    pub data2: u8,
}

impl MidiMsg {
    /// Note-on for `pitch` on `channel`.
    pub open spec fn note_on(channel: u8, pitch: u8, vel: u8) -> MidiMsg {
        MidiMsg { status: 0x90u8 | channel, data1: pitch, data2: vel }
    }

    /// Note-off for `pitch` on `channel`.
    pub open spec fn note_off(channel: u8, pitch: u8, vel: u8) -> MidiMsg {
        MidiMsg { status: 0x80u8 | channel, data1: pitch, data2: vel }
    }

    /// The three bytes as they go over the wire.
    pub fn bytes(&self) -> (b: [u8; 3])
        ensures
            b@ == seq![self.status, self.data1, self.data2],
    {
        let b = [self.status, self.data1, self.data2];
        assert(b@ =~= seq![self.status, self.data1, self.data2]);
        b
    }
}

/// A note that is sounding: what its note-off will say and how long it has
/// left.
#[derive(Debug, Copy, Clone, PartialEq, Eq, Structural)]
pub struct Pending {
    pub pitch: u8,
    pub off_vel: u8,
    /// Ticks left before the note ends.
    pub remaining: usize,
    pub legato: bool,
}

impl Pending {
    /// Due and to be cut, with a note-off, before the new notes of a tick
    /// start.
    pub open spec fn cut_early(self) -> bool {
        self.remaining == 0 && !self.legato
    }

    /// The note-off of this note on `channel`.
    pub open spec fn off(self, channel: u8) -> MidiMsg {
        MidiMsg::note_off(channel, self.pitch, self.off_vel)
    }
}

/// The note-offs, in order, of the first `n` entries of `pending` that
/// `which` picks.
pub open spec fn offs(
    channel: u8,
    pending: Seq<Pending>,
    which: spec_fn(Pending) -> bool,
    n: nat,
) -> Seq<MidiMsg>
    decreases n,
{
    if n == 0 || n > pending.len() {
        Seq::empty()
    } else {
        let before = offs(channel, pending, which, (n - 1) as nat);
        if which(pending[n - 1]) {
            before.push(pending[n - 1].off(channel))
        } else {
            before
        }
    }
}

/// The first `n` entries of `pending` after one tick: those that were due
/// are gone, the others have one tick less to go.
pub open spec fn aged(pending: Seq<Pending>, n: nat) -> Seq<Pending>
    decreases n,
{
    if n == 0 || n > pending.len() {
        Seq::empty()
    } else {
        let before = aged(pending, (n - 1) as nat);
        let p = pending[n - 1];
        if p.remaining == 0 {
            before
        } else {
            before.push(Pending { remaining: (p.remaining - 1) as usize, ..p })
        }
    }
}

/// A voicer as plain mathematics.
pub struct VoicerView {
    pub channel: u8,
    /// The notes that are sounding, oldest first.
    pub pending: Seq<Pending>,
    /// The messages written and not yet taken, oldest first.
    pub sent: Seq<MidiMsg>,
}

impl VoicerView {
    /// After a note was switched on.
    pub open spec fn play_note(self, nn: u8, v: u8, ov: u8, dur: usize, leg: bool) -> VoicerView {
        VoicerView {
            channel: self.channel,
            pending: self.pending.push(
                Pending { pitch: nn, off_vel: ov, remaining: dur, legato: leg },
            ),
            sent: self.sent.push(MidiMsg::note_on(self.channel, nn, v)),
        }
    }

    /// After the pass that precedes the new notes of a tick.
    pub open spec fn pre_tick(self) -> VoicerView {
        VoicerView {
            sent: self.sent + offs(
                self.channel,
                self.pending,
                |p: Pending| p.cut_early(),
                self.pending.len(),
            ),
            ..self
        }
    }

    /// After the pass that follows the new notes of a tick: the notes that
    /// were due are gone, the others have one tick less to go. Nothing is
    /// written.
    pub open spec fn tick(self) -> VoicerView {
        VoicerView { pending: aged(self.pending, self.pending.len()), ..self }
    }

    /// After every sounding note was switched off.
    pub open spec fn kill_all(self) -> VoicerView {
        VoicerView {
            channel: self.channel,
            pending: Seq::empty(),
            sent: self.sent + Seq::new(
                self.pending.len(),
                |i: int| self.pending[i].off(self.channel),
            ),
        }
    }
}

/// The notes of one output that are sounding, and the messages written for
/// it that wait to be put on the wire.
#[derive(Debug)]
pub struct Voicer {
    channel: u8,
    buffer: Vec<Pending>,
    outbox: Vec<MidiMsg>,
}

impl View for Voicer {
    type V = VoicerView;

    closed spec fn view(&self) -> VoicerView {
        VoicerView { channel: self.channel, pending: self.buffer@, sent: self.outbox@ }
    }
}

impl Voicer {
    /// A voicer for `channel` with nothing sounding and nothing written.
    pub fn new(channel: u8) -> (r: Self)
        ensures
            r@ == (VoicerView { channel, pending: Seq::empty(), sent: Seq::empty() }),
    {
        Self { channel, buffer: Vec::with_capacity(128), outbox: Vec::new() }
    }

    /// Cuts the notes that are due and not legato, before the notes of this
    /// tick start: each gets its note-off. The entries stay until `tick`
    /// drops them.
    pub fn pre_tick(&mut self)
        ensures
            final(self)@ == old(self)@.pre_tick(),
    {
        let ghost which = |p: Pending| p.cut_early();
        let mut i: usize = 0;
        while i < self.buffer.len()
            invariant
                i <= self.buffer.len(),
                self.channel == old(self).channel,
                self.buffer == old(self).buffer,
                which == (|p: Pending| p.cut_early()),
                self.outbox@ == old(self).outbox@ + offs(self.channel, self.buffer@, which, i as nat),
            decreases self.buffer.len() - i,
        {
            let p = self.buffer[i];
            if p.remaining == 0 && !p.legato {
                self.outbox.push(MidiMsg { status: 0x80u8 | self.channel, data1: p.pitch, data2: p.off_vel });
            }
            i = i + 1;
            assert(which(p) == p.cut_early());
            assert(self.outbox@ =~= old(self).outbox@ + offs(
                self.channel,
                self.buffer@,
                which,
                i as nat,
            ));
        }
    }

    /// Ends a tick: every note that is due leaves the buffer, and every
    /// other note has one tick less to go. A note that is due and not legato
    /// has had its note-off from `pre_tick`; a legato note that is due gets
    /// none: it is carried by the note that follows it.
    pub fn tick(&mut self)
        ensures
            final(self)@ == old(self)@.tick(),
    {
        let mut kept: Vec<Pending> = Vec::new();
        let mut i: usize = 0;
        while i < self.buffer.len()
            invariant
                i <= self.buffer.len(),
                self.channel == old(self).channel,
                self.buffer == old(self).buffer,
                self.outbox == old(self).outbox,
                kept@ == aged(self.buffer@, i as nat),
            decreases self.buffer.len() - i,
        {
            let p = self.buffer[i];
            if p.remaining != 0 {
                kept.push(
                    Pending {
                        pitch: p.pitch,
                        off_vel: p.off_vel,
                        remaining: p.remaining - 1,
                        legato: p.legato,
                    },
                );
            }
            i = i + 1;
        }
        self.buffer = kept;
    }

    /// Switches every sounding note off at once, whatever it has left and
    /// whether or not it is legato.
    pub fn kill_all(&mut self)
        ensures
            final(self)@ == old(self)@.kill_all(),
    {
        let mut i: usize = 0;
        while i < self.buffer.len()
            invariant
                i <= self.buffer.len(),
                self.channel == old(self).channel,
                self.buffer == old(self).buffer,
                self.outbox@ == old(self).outbox@ + Seq::new(
                    i as nat,
                    |j: int| old(self).buffer@[j].off(old(self).channel),
                ),
            decreases self.buffer.len() - i,
        {
            let p = self.buffer[i];
            self.outbox.push(MidiMsg { status: 0x80u8 | self.channel, data1: p.pitch, data2: p.off_vel });
            i = i + 1;
            assert(self.outbox@ =~= old(self).outbox@ + Seq::new(
                i as nat,
                |j: int| old(self).buffer@[j].off(old(self).channel),
            ));
        }
        self.buffer = Vec::new();
        assert(self@.sent =~= old(self)@.kill_all().sent);
    }

    /// Switches a note on now and remembers it until it ends in `dur` ticks.
    pub fn play_note(&mut self, nn: u8, v: u8, ov: u8, dur: usize, leg: bool)
        ensures
            final(self)@ == old(self)@.play_note(nn, v, ov, dur, leg),
    {
        self.outbox.push(MidiMsg { status: 0x90u8 | self.channel, data1: nn, data2: v });
        self.buffer.push(Pending { pitch: nn, off_vel: ov, remaining: dur, legato: leg });
    }

    /// Hands over the messages written since the last call, oldest first.
    pub fn take_messages(&mut self) -> (msgs: Vec<MidiMsg>)
        ensures
            msgs@ == old(self)@.sent,
            final(self)@ == (VoicerView { sent: Seq::empty(), ..old(self)@ }),
    {
        let mut msgs: Vec<MidiMsg> = Vec::new();
        std::mem::swap(&mut msgs, &mut self.outbox);
        msgs
    }
}

/// The voicer after `k` more ticks of the scheduler: each ends the tick at
/// hand and cuts what is due before the notes of the next.
pub open spec fn after_ticks(v: VoicerView, k: nat) -> VoicerView
    decreases k,
{
    if k == 0 {
        v
    } else {
        after_ticks(v, (k - 1) as nat).tick().pre_tick()
    }
}

/// Killing all switches off exactly the notes that are sounding, one
/// note-off for each, in order, whatever they have left and legato or not;
/// none is left sounding.
pub proof fn law_kill_all_ends_every_note(v: VoicerView)
    ensures
        v.kill_all().pending.len() == 0,
        v.kill_all().sent.len() == v.sent.len() + v.pending.len(),
        v.kill_all().sent.subrange(0, v.sent.len() as int) == v.sent,
        forall|i: int|
            0 <= i < v.pending.len() ==> #[trigger] v.kill_all().sent[v.sent.len() + i]
                == MidiMsg::note_off(v.channel, v.pending[i].pitch, v.pending[i].off_vel),
{
    assert(v.kill_all().sent.subrange(0, v.sent.len() as int) =~= v.sent);
}

/// A note of `dur` ticks, one at least, that is not legato and is alone in
/// the voicer: its note-on is written at once; no note-off is written in
/// any of the `dur - 1` ticks that follow; its note-off, and nothing else,
/// is written in tick `dur` after it.
pub proof fn law_note_ends_on_time(v: VoicerView, nn: u8, on: u8, off: u8, dur: usize, k: nat)
    requires
        v.pending.len() == 0,
        dur >= 1,
        k <= dur,
    ensures
        after_ticks(v.play_note(nn, on, off, dur, false), k).channel == v.channel,
        after_ticks(v.play_note(nn, on, off, dur, false), k).pending == seq![
            (Pending { pitch: nn, off_vel: off, remaining: (dur - k) as usize, legato: false }),
        ],
        after_ticks(v.play_note(nn, on, off, dur, false), k).sent == if k < dur {
            v.sent.push(MidiMsg::note_on(v.channel, nn, on))
        } else {
            v.sent.push(MidiMsg::note_on(v.channel, nn, on)).push(
                MidiMsg::note_off(v.channel, nn, off),
            )
        },
    decreases k,
{
    let v1 = v.play_note(nn, on, off, dur, false);
    let started = v.sent.push(MidiMsg::note_on(v.channel, nn, on));
    if k == 0 {
        assert(v1.pending =~= seq![
            (Pending { pitch: nn, off_vel: off, remaining: dur, legato: false }),
        ]);
    } else {
        law_note_ends_on_time(v, nn, on, off, dur, (k - 1) as nat);
        let before = after_ticks(v1, (k - 1) as nat);
        let p = Pending {
            pitch: nn,
            off_vel: off,
            remaining: (dur - (k - 1)) as usize,
            legato: false,
        };
        assert(before.pending == seq![p]);
        assert(before.sent == started);
        let early = |q: Pending| q.cut_early();
        assert(aged(before.pending, 0) =~= Seq::<Pending>::empty());
        let q = Pending { remaining: (p.remaining - 1) as usize, ..p };
        assert(aged(before.pending, 1) =~= seq![q]);
        let mid = before.tick();
        assert(mid.pending == seq![q]);
        assert(mid.sent =~= started);
        assert(offs(mid.channel, mid.pending, early, 0) =~= Seq::<MidiMsg>::empty());
        if k < dur {
            assert(mid.pending[0] == q);
            assert(!early(q));
            assert(offs(mid.channel, mid.pending, early, 1) =~= Seq::<MidiMsg>::empty());
            assert(mid.pre_tick().sent =~= started);
        } else {
            assert(q.remaining == 0);
            assert(mid.pending[0] == q);
            assert(early(q));
            assert(q.off(mid.channel) == MidiMsg::note_off(v.channel, nn, off));
            assert(offs(mid.channel, mid.pending, early, 1) =~= seq![
                MidiMsg::note_off(v.channel, nn, off),
            ]);
            assert(mid.pre_tick().sent =~= started.push(MidiMsg::note_off(v.channel, nn, off)));
        }
    }
}

} // verus!
