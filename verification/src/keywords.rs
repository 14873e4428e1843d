//! The commands of the language: a keyword and its numbers.

use crate::digits::{decimal, parse_usize};
use crate::env::{Env, EnvView};
use crate::err::ParseError;
use crate::lex::{lemma_advance, lemma_token_text, Lexer, LexerView, Token};
use crate::parse_fsm::{follows, EnvOutcome};
use crate::{Command, Runtime};
use vstd::prelude::*;

verus! {

/// What reading a number comes to.
pub struct NumOutcome {
    pub lx: LexerView,
    pub res: Result<usize, &'static str>,
}

/// A number: `missing` where the token ahead is none, `unreadable` where
/// it is too large.
pub open spec fn spec_number(l: LexerView, missing: &'static str, unreadable: &'static str) -> NumOutcome {
    if l.cur != Token::Digits {
        NumOutcome { lx: l.advance(), res: Err(missing) }
    } else if decimal(l.ahead()) > usize::MAX {
        NumOutcome { lx: l.advance(), res: Err(unreadable) }
    } else {
        NumOutcome { lx: l.advance(), res: Ok(decimal(l.ahead()) as usize) }
    }
}

/// Reads a number.
pub fn number(lx: &mut Lexer, missing: &'static str, unreadable: &'static str) -> (r: Result<
    usize,
    &'static str,
>)
    requires
        old(lx)@.wf(),
    ensures
        (NumOutcome { lx: final(lx)@, res: r }) == spec_number(old(lx)@, missing, unreadable),
        final(lx)@.wf(),
{
    proof {
        lemma_token_text(lx@);
    }
    match lx.expect(Token::Digits) {
        Ok(()) => {},
        Err(_) => {
            return Err(missing);
        },
    }
    match parse_usize(lx.slice()) {
        Some(n) => Ok(n),
        None => Err(unreadable),
    }
}

/// A command of one number: the keyword, then the number.
pub open spec fn spec_one(
    l: LexerView,
    env: EnvView,
    missing: &'static str,
    unreadable: &'static str,
    cmd: spec_fn(usize) -> Command,
) -> EnvOutcome {
    let n = spec_number(l.advance(), missing, unreadable);
    match n.res {
        Err(e) => EnvOutcome { lx: n.lx, env, res: Err(e) },
        Ok(a) => EnvOutcome { lx: n.lx, env: env.asked(cmd(a)), res: Ok(()) },
    }
}

/// A command of two numbers: the keyword, then the numbers.
pub open spec fn spec_two(
    l: LexerView,
    env: EnvView,
    missing1: &'static str,
    unreadable1: &'static str,
    missing2: &'static str,
    unreadable2: &'static str,
    cmd: spec_fn(usize, usize) -> Command,
) -> EnvOutcome {
    let n1 = spec_number(l.advance(), missing1, unreadable1);
    match n1.res {
        Err(e) => EnvOutcome { lx: n1.lx, env, res: Err(e) },
        Ok(a) => {
            let n2 = spec_number(n1.lx, missing2, unreadable2);
            match n2.res {
                Err(e) => EnvOutcome { lx: n2.lx, env, res: Err(e) },
                Ok(b) => EnvOutcome { lx: n2.lx, env: env.asked(cmd(a, b)), res: Ok(()) },
            }
        },
    }
}

/// `bpm N`: the tempo.
pub open spec fn spec_bpm(l: LexerView, env: EnvView) -> EnvOutcome {
    spec_one(
        l,
        env,
        "expected a bpm value, like 120",
        "couldn't parse the bpm number",
        |n: usize| Command::SetBpm(n),
    )
}

/// `div SLOT N`: the ticks to a step of a slot.
pub open spec fn spec_div(l: LexerView, env: EnvView) -> EnvOutcome {
    spec_two(
        l,
        env,
        "we need a slot number",
        "couldn't parse this slot number",
        "we need a time division",
        "couldn't parse this time division",
        |s: usize, n: usize| Command::SetDiv(s, n),
    )
}

/// `sync SLOT N`: the sync quantum of a slot.
pub open spec fn spec_sync(l: LexerView, env: EnvView) -> EnvOutcome {
    spec_two(
        l,
        env,
        "we need a slot number",
        "couldn't parse this slot number",
        "we need a sync division",
        "couldn't parse the sync division",
        |s: usize, n: usize| Command::SetSync(s, n),
    )
}

/// `play SLOT`.
pub open spec fn spec_play(l: LexerView, env: EnvView) -> EnvOutcome {
    spec_one(
        l,
        env,
        "we need a slot number",
        "couldn't parse this slot number",
        |n: usize| Command::PlaySlot(n),
    )
}

/// `stop SLOT`.
pub open spec fn spec_stop(l: LexerView, env: EnvView) -> EnvOutcome {
    spec_one(
        l,
        env,
        "we need a slot number",
        "couldn't parse this slot number",
        |n: usize| Command::StopSlot(n),
    )
}

/// `list_outs`.
pub open spec fn spec_list_outs(l: LexerView, env: EnvView) -> EnvOutcome {
    EnvOutcome { lx: l.advance(), env: env.asked(Command::ListOuts), res: Ok(()) }
}

/// `open_output OUT CHANNEL`: the channel is `0..=15`.
pub open spec fn spec_open_out(l: LexerView, env: EnvView) -> EnvOutcome {
    let n1 = spec_number(l.advance(), "we need an output number", "couldn't parse this output num");
    match n1.res {
        Err(e) => EnvOutcome { lx: n1.lx, env, res: Err(e) },
        Ok(out) => {
            let n2 = spec_number(n1.lx, "we need a channel number", "couldn't parse this channel num");
            match n2.res {
                Err(e) => EnvOutcome { lx: n2.lx, env, res: Err(e) },
                Ok(chan) => if chan > 255 {
                    EnvOutcome { lx: n2.lx, env, res: Err("couldn't parse this channel num") }
                } else if chan > 15 {
                    EnvOutcome {
                        lx: n2.lx,
                        env,
                        res: Err("channel is out of range, must be 0 - 15"),
                    }
                } else {
                    EnvOutcome {
                        lx: n2.lx,
                        env: env.asked(Command::OpenOut(out, chan as u8)),
                        res: Ok(()),
                    }
                },
            }
        },
    }
}

/// `set_output SLOT OUT`.
pub open spec fn spec_set_out(l: LexerView, env: EnvView) -> EnvOutcome {
    spec_two(
        l,
        env,
        "we need a slot number",
        "couldn't parse this slot number",
        "we need an out_number",
        "couldn't parse the out numver",
        |s: usize, n: usize| Command::SetOutput(s, n),
    )
}

/// `find_lps`.
pub open spec fn spec_list_lps(l: LexerView, env: EnvView) -> EnvOutcome {
    EnvOutcome { lx: l.advance(), env: env.asked(Command::ListLps), res: Ok(()) }
}

/// `open_lp N`.
pub open spec fn spec_open_lp(l: LexerView, env: EnvView) -> EnvOutcome {
    spec_one(
        l,
        env,
        "we need a launchpad number",
        "couldn't parse this launchpad number",
        |n: usize| Command::OpenLp(n),
    )
}

/// The lexer after the rest of the line was consumed: the end of the line,
/// or of the input, is ahead.
pub open spec fn to_line_end(l: LexerView) -> LexerView
    decreases l.remaining(),
    when l.wf()
{
    if l.cur == Token::Eol || l.cur == Token::Eof {
        l
    } else {
        proof {
            lemma_advance(l);
        }
        to_line_end(l.advance())
    }
}

/// Consuming the rest of a line leaves the lexer well formed, at the end of
/// the line or of the input, and behind every token of the line.
pub proof fn lemma_to_line_end(l: LexerView)
    requires
        l.wf(),
    ensures
        follows(to_line_end(l), l),
        to_line_end(l).cur == Token::Eol || to_line_end(l).cur == Token::Eof,
        l.cur != Token::Eol && l.cur != Token::Eof ==> l.cur_start <= to_line_end(l).span_start
            && to_line_end(l).remaining() < l.remaining(),
    decreases l.remaining(),
{
    if l.cur != Token::Eol && l.cur != Token::Eof {
        lemma_advance(l);
        lemma_to_line_end(l.advance());
    }
}

/// What reading `do_file` comes to.
pub struct PathOutcome {
    pub lx: LexerView,
    pub res: Result<(usize, usize), ParseError>,
}

/// `do_file PATH`: the path is the rest of the line as it stands, from its
/// first token to its last. The result is where the path stands in the
/// source.
pub open spec fn spec_do_file(l: LexerView) -> PathOutcome {
    let l1 = l.advance();
    if l1.cur == Token::Eof || l1.cur == Token::Eol {
        PathOutcome { lx: l1, res: Err(ParseError::Msg("we need a path to the file")) }
    } else {
        let l2 = to_line_end(l1);
        PathOutcome { lx: l2, res: Ok((l1.cur_start, l2.span_end)) }
    }
}

/// Reads `bpm N` and asks the runtime for that tempo.
pub fn bpm<RT: Runtime>(lx: &mut Lexer, env: &mut Env<RT>) -> (r: Result<(), &'static str>)
    requires
        old(lx)@.wf(),
    ensures
        (EnvOutcome { lx: final(lx)@, env: final(env)@, res: r }) == spec_bpm(
            old(lx)@,
            old(env)@,
        ),
        final(lx)@.wf(),
{
    lx.advance();
    let bpm_num = match number(lx, "expected a bpm value, like 120", "couldn't parse the bpm number") {
        Ok(n) => n,
        Err(e) => {
            return Err(e);
        },
    };
    env.set_bpm(bpm_num);
    Ok(())
}

/// Reads `div SLOT N` and asks the runtime for that division.
pub fn div<RT: Runtime>(lx: &mut Lexer, env: &mut Env<RT>) -> (r: Result<(), &'static str>)
    requires
        old(lx)@.wf(),
    ensures
        (EnvOutcome { lx: final(lx)@, env: final(env)@, res: r }) == spec_div(
            old(lx)@,
            old(env)@,
        ),
        final(lx)@.wf(),
{
    lx.advance();
    let slot_num = match number(lx, "we need a slot number", "couldn't parse this slot number") {
        Ok(n) => n,
        Err(e) => {
            return Err(e);
        },
    };
    let div_num = match number(lx, "we need a time division", "couldn't parse this time division") {
        Ok(n) => n,
        Err(e) => {
            return Err(e);
        },
    };
    env.set_div(slot_num, div_num);
    Ok(())
}

/// Reads `sync SLOT N` and asks the runtime for that sync quantum.
pub fn sync<RT: Runtime>(lx: &mut Lexer, env: &mut Env<RT>) -> (r: Result<(), &'static str>)
    requires
        old(lx)@.wf(),
    ensures
        (EnvOutcome { lx: final(lx)@, env: final(env)@, res: r }) == spec_sync(
            old(lx)@,
            old(env)@,
        ),
        final(lx)@.wf(),
{
    lx.advance();
    let slot_num = match number(lx, "we need a slot number", "couldn't parse this slot number") {
        Ok(n) => n,
        Err(e) => {
            return Err(e);
        },
    };
    let sync_num = match number(lx, "we need a sync division", "couldn't parse the sync division") {
        Ok(n) => n,
        Err(e) => {
            return Err(e);
        },
    };
    env.set_sync(slot_num, sync_num);
    Ok(())
}

/// Reads `play SLOT` and asks the runtime to start the slot.
pub fn play<RT: Runtime>(lx: &mut Lexer, env: &mut Env<RT>) -> (r: Result<(), &'static str>)
    requires
        old(lx)@.wf(),
    ensures
        (EnvOutcome { lx: final(lx)@, env: final(env)@, res: r }) == spec_play(
            old(lx)@,
            old(env)@,
        ),
        final(lx)@.wf(),
{
    lx.advance();
    let slot_num = match number(lx, "we need a slot number", "couldn't parse this slot number") {
        Ok(n) => n,
        Err(e) => {
            return Err(e);
        },
    };
    env.play_slot(slot_num);
    Ok(())
}

/// Reads `stop SLOT` and asks the runtime to stop the slot.
pub fn stop<RT: Runtime>(lx: &mut Lexer, env: &mut Env<RT>) -> (r: Result<(), &'static str>)
    requires
        old(lx)@.wf(),
    ensures
        (EnvOutcome { lx: final(lx)@, env: final(env)@, res: r }) == spec_stop(
            old(lx)@,
            old(env)@,
        ),
        final(lx)@.wf(),
{
    lx.advance();
    let slot_num = match number(lx, "we need a slot number", "couldn't parse this slot number") {
        Ok(n) => n,
        Err(e) => {
            return Err(e);
        },
    };
    env.stop_slot(slot_num);
    Ok(())
}

/// Reads `list_outs` and asks the runtime to list the outputs.
pub fn list_outs<RT: Runtime>(lx: &mut Lexer, env: &mut Env<RT>) -> (r: Result<(), &'static str>)
    requires
        old(lx)@.wf(),
    ensures
        (EnvOutcome { lx: final(lx)@, env: final(env)@, res: r }) == spec_list_outs(
            old(lx)@,
            old(env)@,
        ),
        final(lx)@.wf(),
{
    lx.advance();
    env.list_outs();
    Ok(())
}

/// Reads `open_output OUT CHANNEL` and asks the runtime to open that output
/// on that channel, which must be one of `0..=15`.
pub fn open_out<RT: Runtime>(lx: &mut Lexer, env: &mut Env<RT>) -> (r: Result<(), &'static str>)
    requires
        old(lx)@.wf(),
    ensures
        (EnvOutcome { lx: final(lx)@, env: final(env)@, res: r }) == spec_open_out(
            old(lx)@,
            old(env)@,
        ),
        final(lx)@.wf(),
{
    lx.advance();
    let out_num = match number(lx, "we need an output number", "couldn't parse this output num") {
        Ok(n) => n,
        Err(e) => {
            return Err(e);
        },
    };
    let chan = match number(lx, "we need a channel number", "couldn't parse this channel num") {
        Ok(n) => n,
        Err(e) => {
            return Err(e);
        },
    };
    if chan > 255 {
        return Err("couldn't parse this channel num");
    }
    if chan > 15 {
        return Err("channel is out of range, must be 0 - 15");
    }
    env.open_out(out_num, chan as u8);
    Ok(())
}

/// Reads `set_output SLOT OUT` and asks the runtime to assign the slot to
/// that output.
pub fn set_out<RT: Runtime>(lx: &mut Lexer, env: &mut Env<RT>) -> (r: Result<(), &'static str>)
    requires
        old(lx)@.wf(),
    ensures
        (EnvOutcome { lx: final(lx)@, env: final(env)@, res: r }) == spec_set_out(
            old(lx)@,
            old(env)@,
        ),
        final(lx)@.wf(),
{
    lx.advance();
    let slot_num = match number(lx, "we need a slot number", "couldn't parse this slot number") {
        Ok(n) => n,
        Err(e) => {
            return Err(e);
        },
    };
    let out_num = match number(lx, "we need an out_number", "couldn't parse the out numver") {
        Ok(n) => n,
        Err(e) => {
            return Err(e);
        },
    };
    env.set_output(slot_num, out_num);
    Ok(())
}

/// Reads `find_lps` and asks the runtime to list the grid controllers.
pub fn list_lps<RT: Runtime>(lx: &mut Lexer, env: &mut Env<RT>) -> (r: Result<(), &'static str>)
    requires
        old(lx)@.wf(),
    ensures
        (EnvOutcome { lx: final(lx)@, env: final(env)@, res: r }) == spec_list_lps(
            old(lx)@,
            old(env)@,
        ),
        final(lx)@.wf(),
{
    lx.advance();
    env.list_lps();
    Ok(())
}

/// Reads `open_lp N` and asks the runtime to open that grid controller.
pub fn open_lp<RT: Runtime>(lx: &mut Lexer, env: &mut Env<RT>) -> (r: Result<(), &'static str>)
    requires
        old(lx)@.wf(),
    ensures
        (EnvOutcome { lx: final(lx)@, env: final(env)@, res: r }) == spec_open_lp(
            old(lx)@,
            old(env)@,
        ),
        final(lx)@.wf(),
{
    lx.advance();
    let lp_num = match number(lx, "we need a launchpad number", "couldn't parse this launchpad number") {
        Ok(n) => n,
        Err(e) => {
            return Err(e);
        },
    };
    env.open_lp(lp_num);
    Ok(())
}

/// Reads `do_file` and the path behind it, and says where in the source
/// the path stands. The file is for the caller to read.
pub fn do_file(lx: &mut Lexer) -> (r: Result<(usize, usize), ParseError>)
    requires
        old(lx)@.wf(),
    ensures
        (PathOutcome { lx: final(lx)@, res: r }) == spec_do_file(old(lx)@),
        final(lx)@.wf(),
        r matches Ok((s, e)) ==> s <= e <= final(lx)@.src.len(),
{
    proof {
        lemma_advance(lx@);
    }
    lx.advance();
    match lx.lookahead() {
        Token::Eof | Token::Eol => {
            return Err(ParseError::Msg("we need a path to the file"));
        },
        _ => {},
    }
    proof {
        lemma_advance(lx@);
        lemma_to_line_end(lx@);
    }
    let ghost l1 = lx@;
    assert(to_line_end(l1) == to_line_end(l1.advance()));
    lx.advance();
    let start = lx.span_start();
    loop
        invariant
            lx@.wf(),
            l1.wf(),
            l1 == old(lx)@.advance(),
            l1.cur != Token::Eof && l1.cur != Token::Eol,
            to_line_end(lx@) == to_line_end(l1),
            start == l1.cur_start,
            start <= lx@.span_start,
        decreases lx@.remaining(),
    {
        proof {
            lemma_advance(lx@);
        }
        match lx.lookahead() {
            Token::Eof | Token::Eol => {
                assert(to_line_end(lx@) == lx@);
                return Ok((start, lx.span_end()));
            },
            _ => {},
        }
        assert(to_line_end(lx@) == to_line_end(lx@.advance()));
        lx.advance();
    }
}

} // verus!
