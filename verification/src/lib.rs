//! A live-coding music sequencer: a small pattern language that compiles
//! bracketed note patterns into timed events, and the tick-driven engine
//! that plays them as MIDI messages.

use std::collections::HashMap;
use vstd::prelude::*;

pub mod bar;
pub mod digits;
pub mod env;
pub mod err;
pub mod keywords;
pub mod lex;
pub mod parse_fsm;
pub mod player;
pub mod render;
pub mod seq_types;
pub mod sequence_types;

pub use env::Env;
pub use err::Error;
pub use lex::{ExpectErr, Lexer, Token};
pub use seq_types::SeqNote;

use err::ParseError;
use lex::LexerView;
use parse_fsm::{lemma_root, spec_root, Flow};
use vstd::string::StringSliceAdditionalSpecFns;

verus! {

/// One thing that the interpreter asked of its runtime.
pub enum Command {
    AssignSlot(usize, usize, Map<usize, Seq<SeqNote>>),
    SetBpm(usize),
    SetDiv(usize, usize),
    SetSync(usize, usize),
    SetOutput(usize, usize),
    PlaySlot(usize),
    StopSlot(usize),
    ListOuts,
    ListLps,
    OpenOut(usize, u8),
    OpenLp(usize),
}

/// What the interpreter needs from the engine that plays its patterns.
/// Each call is one request; `log` is the record of the requests made so
/// far, oldest first.
pub trait Runtime {
    /// The requests made so far. A runtime that keeps no such record need
    /// not say what it is.
    open spec fn log(&self) -> Seq<Command> {
        vstd::pervasive::arbitrary()
    }

    /// Gives slot `snum` the bar of `len` steps with the events `evs`.
    fn assign_slot(&mut self, snum: usize, len: usize, evs: HashMap<usize, Vec<SeqNote>>)
        ensures
            final(self).log() == old(self).log().push(
                Command::AssignSlot(snum, len, seq_types::lanes(evs@)),
            ),
    ;

    fn set_bpm(&mut self, bpm_num: usize)
        ensures
            final(self).log() == old(self).log().push(Command::SetBpm(bpm_num)),
    ;

    fn set_div(&mut self, slot: usize, div_num: usize)
        ensures
            final(self).log() == old(self).log().push(Command::SetDiv(slot, div_num)),
    ;

    fn set_sync(&mut self, slot: usize, sync_num: usize)
        ensures
            final(self).log() == old(self).log().push(Command::SetSync(slot, sync_num)),
    ;

    fn set_output(&mut self, slot: usize, out_num: usize)
        ensures
            final(self).log() == old(self).log().push(Command::SetOutput(slot, out_num)),
    ;

    fn play_slot(&mut self, slot: usize)
        ensures
            final(self).log() == old(self).log().push(Command::PlaySlot(slot)),
    ;

    fn stop_slot(&mut self, slot: usize)
        ensures
            final(self).log() == old(self).log().push(Command::StopSlot(slot)),
    ;

    fn list_outs(&mut self)
        ensures
            final(self).log() == old(self).log().push(Command::ListOuts),
    ;

    fn list_lps(&mut self)
        ensures
            final(self).log() == old(self).log().push(Command::ListLps),
    ;

    /// Opens output `out_num` on MIDI channel `channel`, `0..=15`.
    fn open_out(&mut self, out_num: usize, channel: u8)
        ensures
            final(self).log() == old(self).log().push(Command::OpenOut(out_num, channel)),
    ;

    fn open_lp(&mut self, lp_num: usize)
        ensures
            final(self).log() == old(self).log().push(Command::OpenLp(lp_num)),
    ;
}

/// A runtime that does nothing.
pub struct NullRt {
    asked: Ghost<Seq<Command>>,
}

impl NullRt {
    /// A runtime that has been asked nothing.
    pub fn new() -> (r: Self)
        ensures
            r.log() == Seq::<Command>::empty(),
    {
        NullRt { asked: Ghost(Seq::empty()) }
    }
}

impl Runtime for NullRt {
    closed spec fn log(&self) -> Seq<Command> {
        self.asked@
    }

    fn assign_slot(&mut self, snum: usize, len: usize, evs: HashMap<usize, Vec<SeqNote>>) {
        self.asked = Ghost(self.asked@.push(Command::AssignSlot(snum, len, seq_types::lanes(evs@))));
    }

    fn set_bpm(&mut self, bpm_num: usize) {
        self.asked = Ghost(self.asked@.push(Command::SetBpm(bpm_num)));
    }

    fn set_div(&mut self, slot: usize, div_num: usize) {
        self.asked = Ghost(self.asked@.push(Command::SetDiv(slot, div_num)));
    }

    fn set_sync(&mut self, slot: usize, sync_num: usize) {
        self.asked = Ghost(self.asked@.push(Command::SetSync(slot, sync_num)));
    }

    fn set_output(&mut self, slot: usize, out_num: usize) {
        self.asked = Ghost(self.asked@.push(Command::SetOutput(slot, out_num)));
    }

    fn play_slot(&mut self, slot: usize) {
        self.asked = Ghost(self.asked@.push(Command::PlaySlot(slot)));
    }

    fn stop_slot(&mut self, slot: usize) {
        self.asked = Ghost(self.asked@.push(Command::StopSlot(slot)));
    }

    fn list_outs(&mut self) {
        self.asked = Ghost(self.asked@.push(Command::ListOuts));
    }

    fn list_lps(&mut self) {
        self.asked = Ghost(self.asked@.push(Command::ListLps));
    }

    fn open_out(&mut self, out_num: usize, channel: u8) {
        self.asked = Ghost(self.asked@.push(Command::OpenOut(out_num, channel)));
    }

    fn open_lp(&mut self, lp_num: usize) {
        self.asked = Ghost(self.asked@.push(Command::OpenLp(lp_num)));
    }
}

/// How far a source was read.
pub enum Parsed<'a> {
    /// To its end.
    Done,
    /// Up to a `do_file`. The path of the file stands in the source from
    /// `start` to `end`. The file is for the caller to read and run; `rest`
    /// then reads on behind the statement.
    File { start: usize, end: usize, rest: Lexer<'a> },
}

/// What `parse` and `resume` return for what the statements came to, `o`,
/// read from the source `src`.
pub open spec fn reported(o: parse_fsm::RootOutcome, r: Result<Parsed, Error>) -> bool {
    match o.res {
        Ok(Flow::Done) => r matches Ok(Parsed::Done),
        Ok(Flow::File(s, e)) => r matches Ok(Parsed::File { start, end, rest }) && start == s
            && end == e && rest@ == o.lx,
        Err(ParseError::Msg(m)) => r matches Err(Error::Root(text, s, e, msg)) && text@
            == o.lx.src && s == o.lx.span_start && e == o.lx.span_end && msg == m,
        Err(ParseError::SubFile(_, _, _, _)) => false,
    }
}

/// Reads the statements of `src` and carries them out against `env`, up to
/// the end, the first statement at fault, or the first `do_file`. An error
/// names the span of the token consumed last.
pub fn parse<'a, T: Runtime>(src: &'a str, env: &mut Env<T>) -> (r: Result<Parsed<'a>, Error<'a>>)
    requires
        old(env)@.scopes.len() >= 1,
    ensures
        final(env)@ == spec_root(LexerView::start(src.spec_bytes()), old(env)@).env,
        reported(spec_root(LexerView::start(src.spec_bytes()), old(env)@), r),
        r matches Err(e) ==> e.wf(),
        r matches Ok(Parsed::File { start, end, rest }) ==> start <= end
            <= src.spec_bytes().len() && rest@.wf(),
        old(env)@.wf() ==> final(env)@.wf(),
{
    let lx = Lexer::new(src);
    resume(lx, env)
}

/// Reads on from where `lx` stands: `parse` for a source that has been read
/// in part.
pub fn resume<'a, T: Runtime>(lx: Lexer<'a>, env: &mut Env<T>) -> (r: Result<
    Parsed<'a>,
    Error<'a>,
>)
    requires
        lx@.wf(),
        old(env)@.scopes.len() >= 1,
    ensures
        final(env)@ == spec_root(lx@, old(env)@).env,
        reported(spec_root(lx@, old(env)@), r),
        r matches Err(e) ==> e.wf(),
        r matches Ok(Parsed::File { start, end, rest }) ==> start <= end <= lx@.src.len()
            && rest@.wf(),
        old(env)@.wf() ==> final(env)@.wf(),
{
    let mut lx = lx;
    proof {
        lemma_root(lx@, env@);
    }
    match parse_fsm::root(&mut lx, env) {
        Ok(Flow::Done) => Ok(Parsed::Done),
        Ok(Flow::File(start, end)) => Ok(Parsed::File { start, end, rest: lx }),
        Err(e) => {
            let (src, s, e2) = lx.done();
            Err(Error::report(e, src, s, e2))
        },
    }
}

} // verus!
