//! Statements and values: the top level of the language.

use crate::bar::{lemma_bar, spec_bar, BarOutcome};
use crate::digits::{decimal, parse_usize};
use crate::env::{lemma_lookup_wf, Env, EnvView};
use crate::err::ParseError;
use crate::keywords::{
    lemma_to_line_end, number, spec_bpm, spec_div, spec_do_file, spec_list_lps, spec_list_outs,
    spec_number, spec_open_lp, spec_open_out, spec_play, spec_set_out, spec_stop, spec_sync,
};
use crate::Command;
use crate::lex::{
    is_note, lemma_advance, lemma_token_text, Lexer, LexerView, Token,
};
use crate::seq_types::{lemma_cr_wf, Line, LineBuilder, Trigger, Val, ValView};
use crate::Runtime;
use vstd::prelude::*;

verus! {

/// What reading a value comes to: where the lexer stands and the value.
pub struct ValOutcome {
    pub lx: LexerView,
    pub res: Result<ValView, &'static str>,
}

/// What reading a statement comes to: where the lexer stands, what the
/// environment holds, and whether the statement was carried out.
pub struct EnvOutcome {
    pub lx: LexerView,
    pub env: EnvView,
    pub res: Result<(), &'static str>,
}

/// The semitones from C of a pitch letter, in either case.
pub open spec fn pitch_class(c: u8) -> int {
    if c == 0x63 || c == 0x43 {
        0
    } else if c == 0x64 || c == 0x44 {
        2
    } else if c == 0x65 || c == 0x45 {
        4
    } else if c == 0x66 || c == 0x46 {
        5
    } else if c == 0x67 || c == 0x47 {
        7
    } else if c == 0x61 || c == 0x41 {
        9
    } else {
        11
    }
}

/// The semitones that an accidental adds: `b` one down, `#` one up, `_`
/// none.
pub open spec fn accidental(c: u8) -> int {
    if c == 0x62 {
        -1
    } else if c == 0x23 {
        1
    } else {
        0
    }
}

/// The number of a pitch name: 24 for `C_0`, twelve more for each octave.
pub open spec fn pitch_number(txt: Seq<u8>) -> int {
    24 + pitch_class(txt[0]) + 12 * (txt[2] - 0x30) + accidental(txt[1])
}

/// The number of the pitch that `txt` names.
pub fn note_to_u8(txt: &[u8]) -> (r: u8)
    requires
        is_note(txt@),
    ensures
        r == pitch_number(txt@),
        23 <= r <= 132,
{
    let c = txt[0];
    let pc: u8 = if c == 0x63 || c == 0x43 {
        0
    } else if c == 0x64 || c == 0x44 {
        2
    } else if c == 0x65 || c == 0x45 {
        4
    } else if c == 0x66 || c == 0x46 {
        5
    } else if c == 0x67 || c == 0x47 {
        7
    } else if c == 0x61 || c == 0x41 {
        9
    } else {
        11
    };
    let octave: u8 = txt[2] - 0x30;
    let base: u8 = 24 + pc + 12 * octave;
    let m = txt[1];
    if m == 0x62 {
        base - 1
    } else if m == 0x23 {
        base + 1
    } else {
        base
    }
}

/// A number of digits that must lie in `0..=127`: `range` where it is
/// larger but still a byte, `unreadable` where it is larger than that.
pub open spec fn data_byte(w: Seq<u8>, range: &'static str, unreadable: &'static str) -> Result<
    u8,
    &'static str,
> {
    if decimal(w) < 128 {
        Ok(decimal(w) as u8)
    } else if decimal(w) < 256 {
        Err(range)
    } else {
        Err(unreadable)
    }
}

fn read_data_byte(w: &[u8], range: &'static str, unreadable: &'static str) -> (r: Result<
    u8,
    &'static str,
>)
    requires
        crate::lex::all_digits(w@),
    ensures
        r == data_byte(w@, range, unreadable),
{
    match parse_usize(w) {
        Some(n) => if n < 128 {
            Ok(n as u8)
        } else if n < 256 {
            Err(range)
        } else {
            Err(unreadable)
        },
        None => Err(unreadable),
    }
}

/// The pitch of a trigger: a pitch name or a number, either in `0..=127`.
/// `tok` is the token and `w` its text.
pub open spec fn spec_pitch(tok: Token, w: Seq<u8>) -> Result<u8, &'static str> {
    match tok {
        Token::Note => if pitch_number(w) < 128 {
            Ok(pitch_number(w) as u8)
        } else {
            Err("this note number is out of range, should be 0-127")
        },
        Token::Digits => data_byte(
            w,
            "this note number is out of range, should be 0-127",
            "couldn't parse this note number",
        ),
        Token::Error => Err("we couldn't figure this symbol out"),
        Token::Eof => Err("woah, the input ran out"),
        _ => Err("we need some numbers or a note like C#4 or something"),
    }
}

/// The velocity of a trigger: a number in `0..=127`.
pub open spec fn spec_velocity(tok: Token, w: Seq<u8>) -> Result<u8, &'static str> {
    match tok {
        Token::Digits => data_byte(
            w,
            "this velocity is out of range, should be 0-127",
            "coudln't parse this velocity",
        ),
        Token::Error => Err("we couldn't figure this symbol out"),
        Token::Eof => Err("couldn't parse this velocity"),
        _ => Err("we are looking for a trigger velocity, like a number between 0-127"),
    }
}

/// A trigger literal: `(`, a pitch, a velocity, `)`.
pub open spec fn spec_trigger(l: LexerView) -> ValOutcome {
    let l1 = l.advance();
    let l2 = l1.advance();
    let l3 = l2.advance();
    let l4 = l3.advance();
    if l.cur != Token::OpenParen {
        ValOutcome { lx: l1, res: Err("somehow we lost the '('") }
    } else {
        match spec_pitch(l1.cur, l1.ahead()) {
            Err(e) => ValOutcome { lx: l2, res: Err(e) },
            Ok(nn) => match spec_velocity(l2.cur, l2.ahead()) {
                Err(e) => ValOutcome { lx: l3, res: Err(e) },
                Ok(vel) => if l3.cur != Token::CloseParen {
                    ValOutcome { lx: l4, res: Err("somehow missed the ')' in a trigger") }
                } else {
                    ValOutcome { lx: l4, res: Ok(ValView::Trigger(Trigger { nn, vel })) }
                },
            },
        }
    }
}

/// Reads a trigger literal from its opening bracket on.
pub fn trigger(lx: &mut Lexer) -> (r: Result<Val, &'static str>)
    requires
        old(lx)@.wf(),
    ensures
        final(lx)@ == spec_trigger(old(lx)@).lx,
        final(lx)@.wf(),
        match r {
            Ok(v) => spec_trigger(old(lx)@).res == Ok::<ValView, &'static str>(v@),
            Err(e) => spec_trigger(old(lx)@).res == Err::<ValView, &'static str>(e),
        },
{
    match lx.expect(Token::OpenParen) {
        Ok(()) => {},
        Err(_) => {
            return Err("somehow we lost the '('");
        },
    }
    proof {
        lemma_token_text(lx@);
    }
    let pitch = match lx.next() {
        Token::Note => {
            let n = note_to_u8(lx.slice());
            if n < 128 {
                Ok(n)
            } else {
                Err("this note number is out of range, should be 0-127")
            }
        },
        Token::Digits => read_data_byte(
            lx.slice(),
            "this note number is out of range, should be 0-127",
            "couldn't parse this note number",
        ),
        Token::Error => Err("we couldn't figure this symbol out"),
        Token::Eof => Err("woah, the input ran out"),
        _ => Err("we need some numbers or a note like C#4 or something"),
    };
    let nn = match pitch {
        Ok(n) => n,
        Err(e) => {
            return Err(e);
        },
    };
    proof {
        lemma_token_text(lx@);
    }
    let velocity = match lx.next() {
        Token::Digits => read_data_byte(
            lx.slice(),
            "this velocity is out of range, should be 0-127",
            "coudln't parse this velocity",
        ),
        Token::Error => Err("we couldn't figure this symbol out"),
        Token::Eof => Err("couldn't parse this velocity"),
        _ => Err("we are looking for a trigger velocity, like a number between 0-127"),
    };
    let vel = match velocity {
        Ok(n) => n,
        Err(e) => {
            return Err(e);
        },
    };
    match lx.expect(Token::CloseParen) {
        Ok(()) => {},
        Err(_) => {
            return Err("somehow missed the ')' in a trigger");
        },
    }
    Ok(Val::Trigger(Trigger { nn, vel }))
}

/// A name that stands for the value bound to it.
pub open spec fn spec_alias(l: LexerView, env: EnvView) -> ValOutcome {
    let l1 = l.advance();
    match env.lookup(l1.slice()) {
        Some(v) => ValOutcome { lx: l1, res: Ok(v) },
        None => ValOutcome { lx: l1, res: Err("we couldn't find a value with this name") },
    }
}

fn alias<RT: Runtime>(lx: &mut Lexer, env: &Env<RT>) -> (r: Result<Val, &'static str>)
    requires
        old(lx)@.wf(),
    ensures
        final(lx)@ == spec_alias(old(lx)@, env@).lx,
        final(lx)@.wf(),
        match r {
            Ok(v) => spec_alias(old(lx)@, env@).res == Ok::<ValView, &'static str>(v@),
            Err(e) => spec_alias(old(lx)@, env@).res == Err::<ValView, &'static str>(e),
        },
{
    lx.advance();
    match env.find(lx.slice()) {
        Some(v) => Ok(v.clone()),
        None => Err("we couldn't find a value with this name"),
    }
}

/// A bar as a value: the bar laid on an empty line.
pub open spec fn spec_bar_value(l: LexerView, env: EnvView) -> ValOutcome {
    let o = spec_bar(l, env, Line::empty());
    match o.res {
        Err(e) => ValOutcome { lx: o.lx, res: Err(e) },
        Ok(()) => ValOutcome { lx: o.lx, res: Ok(ValView::Bar(o.line.done().0, o.line.done().1)) },
    }
}

fn bar<RT: Runtime>(lx: &mut Lexer, env: &Env<RT>) -> (r: Result<Val, &'static str>)
    requires
        old(lx)@.wf(),
    ensures
        final(lx)@ == spec_bar_value(old(lx)@, env@).lx,
        final(lx)@.wf(),
        match r {
            Ok(v) => spec_bar_value(old(lx)@, env@).res == Ok::<ValView, &'static str>(v@),
            Err(e) => spec_bar_value(old(lx)@, env@).res == Err::<ValView, &'static str>(e),
        },
{
    let mut lb = LineBuilder::default();
    match crate::bar::parse(lx, env, &mut lb) {
        Ok(()) => {},
        Err(e) => {
            return Err(e);
        },
    }
    let (len, evs) = lb.done();
    Ok(Val::Bar(len, evs))
}

/// The rows of a sequence: bars, each laid over the same time axis from
/// offset 0, with line ends between them as one likes, up to the closing
/// brace, which is left ahead.
pub open spec fn spec_seq_bars(l: LexerView, env: EnvView, line: Line) -> BarOutcome
    decreases l.remaining(),
    when l.wf()
{
    match l.cur {
        Token::Eol => {
            proof {
                lemma_advance(l);
            }
            spec_seq_bars(l.advance(), env, line)
        },
        Token::OpenSq => {
            let o = spec_bar(l, env, line);
            if o.res is Err {
                o
            } else {
                proof {
                    lemma_bar(l, env, line);
                }
                spec_seq_bars(o.lx, env, o.line.cr())
            }
        },
        Token::CloseCrl => BarOutcome { lx: l, line, res: Ok(()) },
        Token::Error => BarOutcome { lx: l, line, res: Err("we couldn't figure this symbol out") },
        Token::Eof => BarOutcome { lx: l, line, res: Err("woah, teh input ran out") },
        _ => BarOutcome { lx: l, line, res: Err("we are looking for some bars!") },
    }
}

/// The rows of a sequence leave the lexer well formed and no further back;
/// a valid line stays valid where the values bound are valid.
pub proof fn lemma_seq_bars(l: LexerView, env: EnvView, line: Line)
    requires
        l.wf(),
    ensures
        spec_seq_bars(l, env, line).lx.wf(),
        spec_seq_bars(l, env, line).lx.src == l.src,
        spec_seq_bars(l, env, line).lx.remaining() <= l.remaining(),
        line.wf() && env.wf() ==> spec_seq_bars(l, env, line).line.wf(),
    decreases l.remaining(),
{
    lemma_advance(l);
    match l.cur {
        Token::Eol => {
            lemma_seq_bars(l.advance(), env, line);
        },
        Token::OpenSq => {
            lemma_bar(l, env, line);
            let o = spec_bar(l, env, line);
            if o.res is Ok {
                if o.line.wf() {
                    lemma_cr_wf(o.line);
                }
                lemma_seq_bars(o.lx, env, o.line.cr());
            }
        },
        _ => {},
    }
}

fn seq_bars<RT: Runtime>(lx: &mut Lexer, env: &Env<RT>, lb: &mut LineBuilder) -> (r: Result<
    (),
    &'static str,
>)
    requires
        old(lx)@.wf(),
    ensures
        (BarOutcome { lx: final(lx)@, line: final(lb)@, res: r }) == spec_seq_bars(
            old(lx)@,
            env@,
            old(lb)@,
        ),
        final(lx)@.wf(),
{
    loop
        invariant
            lx@.wf(),
            spec_seq_bars(lx@, env@, lb@) == spec_seq_bars(old(lx)@, env@, old(lb)@),
        decreases lx@.remaining(),
    {
        proof {
            lemma_advance(lx@);
            lemma_bar(lx@, env@, lb@);
        }
        match lx.lookahead() {
            Token::Eol => lx.advance(),
            Token::OpenSq => {
                match crate::bar::parse(lx, env, lb) {
                    Ok(()) => {},
                    Err(e) => {
                        return Err(e);
                    },
                }
                lb.cr();
            },
            Token::CloseCrl => {
                return Ok(());
            },
            Token::Error => {
                return Err("we couldn't figure this symbol out");
            },
            Token::Eof => {
                return Err("woah, teh input ran out");
            },
            _ => {
                return Err("we are looking for some bars!");
            },
        }
    }
}

/// A value: a bar, a sequence, a trigger literal, or a name that stands
/// for a value.
pub open spec fn spec_val(l: LexerView, env: EnvView) -> ValOutcome
    decreases l.remaining(), 1nat,
    when l.wf()
{
    match l.cur {
        Token::OpenSq => spec_bar_value(l, env),
        Token::OpenCrl => spec_sequence(l, env),
        Token::OpenParen => spec_trigger(l),
        Token::Sym | Token::Digits => spec_alias(l, env),
        Token::Eof => ValOutcome { lx: l, res: Err("woah, the input ran out") },
        Token::Error => ValOutcome { lx: l, res: Err("we couldn't figure this symbol out") },
        _ => ValOutcome {
            lx: l,
            res: Err("we are looking for a value, like a trigger, a bar or a sequence"),
        },
    }
}

/// A sequence: `{`, assignments that hold inside the braces only, one row
/// of bars after another, `}`. Its length is that of its longest row.
pub open spec fn spec_sequence(l: LexerView, env: EnvView) -> ValOutcome
    decreases l.remaining(), 0nat,
    when l.wf() && l.cur == Token::OpenCrl
{
    proof {
        lemma_advance(l);
    }
    let o1 = spec_seq_assignments(l.advance(), env.step_in());
    match o1.res {
        Err(e) => ValOutcome { lx: o1.lx, res: Err(e) },
        Ok(()) => {
            let o2 = spec_seq_bars(o1.lx, o1.env, Line::empty());
            match o2.res {
                Err(e) => ValOutcome { lx: o2.lx, res: Err(e) },
                Ok(()) => if o2.lx.cur != Token::CloseCrl {
                    ValOutcome {
                        lx: o2.lx.advance(),
                        res: Err("we need a '}' to finish the sequence"),
                    }
                } else {
                    ValOutcome {
                        lx: o2.lx.advance(),
                        res: Ok(ValView::Bar(o2.line.done().0, o2.line.done().1)),
                    }
                },
            }
        },
    }
}

/// The assignments at the head of a sequence, with line ends between them
/// as one likes, up to the first bar, which is left ahead. (The test on the
/// lexer behind an assignment never fails: `lemma_assignment`.)
pub open spec fn spec_seq_assignments(l: LexerView, env: EnvView) -> EnvOutcome
    decreases l.remaining(), 0nat,
    when l.wf()
{
    match l.cur {
        Token::Eol => {
            proof {
                lemma_advance(l);
            }
            spec_seq_assignments(l.advance(), env)
        },
        Token::Sym | Token::Digits => {
            proof {
                lemma_advance(l);
            }
            let o = spec_assignment(l.advance(), env);
            if o.res is Ok && o.lx.wf() && o.lx.remaining() < l.remaining() {
                spec_seq_assignments(o.lx, o.env)
            } else {
                o
            }
        },
        Token::OpenSq => EnvOutcome { lx: l, env, res: Ok(()) },
        Token::Error => EnvOutcome {
            lx: l,
            env,
            res: Err("we couldn't figure this symbol out"),
        },
        Token::Eof => EnvOutcome { lx: l, env, res: Err("woah, the input ran out") },
        _ => EnvOutcome {
            lx: l,
            env,
            res: Err("we are looking for a value, like a trigger or bar, or another sequence"),
        },
    }
}

/// An assignment, read from behind its name: `=` and a value, which the
/// name is then bound to in the innermost scope.
pub open spec fn spec_assignment(l: LexerView, env: EnvView) -> EnvOutcome
    decreases l.remaining(), 0nat,
    when l.wf()
{
    if l.cur != Token::Eq {
        EnvOutcome { lx: l.advance(), env, res: Err("we need an '=' to assign a name") }
    } else {
        proof {
            lemma_advance(l);
        }
        let o = spec_val(l.advance(), env);
        match o.res {
            Err(e) => EnvOutcome { lx: o.lx, env, res: Err(e) },
            Ok(v) => EnvOutcome { lx: o.lx, env: env.set(l.slice(), v), res: Ok(()) },
        }
    }
}

/// `after` lies no further back in the same source than `before`.
pub open spec fn follows(after: LexerView, before: LexerView) -> bool {
    &&& after.wf()
    &&& after.src == before.src
    &&& after.remaining() <= before.remaining()
}

/// `after` has the scopes of `before` but for what its innermost scope
/// binds, and has asked nothing more of the runtime.
pub open spec fn same_but_innermost(after: EnvView, before: EnvView) -> bool {
    &&& after.scopes.len() == before.scopes.len()
    &&& after.scopes.drop_last() == before.scopes.drop_last()
    &&& after.log == before.log
    &&& before.wf() ==> after.wf()
}

proof fn lemma_set_keeps(env: EnvView, name: Seq<u8>, v: ValView)
    requires
        env.scopes.len() >= 1,
    ensures
        env.set(name, v).scopes.len() == env.scopes.len(),
        env.set(name, v).scopes.drop_last() == env.scopes.drop_last(),
        env.wf() && v.wf() ==> env.set(name, v).wf(),
{
    assert(env.set(name, v).scopes.drop_last() =~= env.scopes.drop_last());
}

proof fn lemma_trigger(l: LexerView)
    requires
        l.wf(),
    ensures
        follows(spec_trigger(l).lx, l),
        spec_trigger(l).res is Ok ==> spec_trigger(l).lx.remaining() < l.remaining(),
        spec_trigger(l).res matches Ok(v) ==> v.wf(),
{
    lemma_advance(l);
    lemma_advance(l.advance());
    lemma_advance(l.advance().advance());
    lemma_advance(l.advance().advance().advance());
}

/// A value leaves the lexer well formed and, where there was a value,
/// further on; the value is valid where the values bound are.
pub proof fn lemma_val(l: LexerView, env: EnvView)
    requires
        l.wf(),
        env.scopes.len() >= 1,
    ensures
        follows(spec_val(l, env).lx, l),
        spec_val(l, env).res is Ok ==> spec_val(l, env).lx.remaining() < l.remaining(),
        env.wf() ==> (spec_val(l, env).res matches Ok(v) ==> v.wf()),
    decreases l.remaining(), 1nat,
{
    lemma_advance(l);
    match l.cur {
        Token::OpenSq => {
            lemma_bar(l, env, Line::empty());
        },
        Token::OpenCrl => {
            lemma_sequence(l, env);
        },
        Token::OpenParen => {
            lemma_trigger(l);
        },
        Token::Sym | Token::Digits => {
            if env.wf() {
                lemma_lookup_wf(env, l.advance().slice());
            }
        },
        _ => {},
    }
}

/// A sequence leaves the lexer well formed and further on; its value is
/// valid where the values bound are.
pub proof fn lemma_sequence(l: LexerView, env: EnvView)
    requires
        l.wf(),
        l.cur == Token::OpenCrl,
        env.scopes.len() >= 1,
    ensures
        follows(spec_sequence(l, env).lx, l),
        spec_sequence(l, env).lx.remaining() < l.remaining(),
        env.wf() ==> (spec_sequence(l, env).res matches Ok(v) ==> v.wf()),
    decreases l.remaining(), 0nat,
{
    lemma_advance(l);
    let inner = env.step_in();
    assert(env.wf() ==> inner.wf()) by {
        if env.wf() {
            assert forall|i: int, n: Seq<u8>|
                0 <= i < inner.scopes.len() && #[trigger] inner.scopes[i].contains_key(
                    n,
                ) implies inner.scopes[i][n].wf() by {
                if i < env.scopes.len() {
                    assert(inner.scopes[i] == env.scopes[i]);
                }
            }
        }
    }
    lemma_seq_assignments(l.advance(), inner);
    let o1 = spec_seq_assignments(l.advance(), inner);
    if o1.res is Ok {
        lemma_seq_bars(o1.lx, o1.env, Line::empty());
        let o2 = spec_seq_bars(o1.lx, o1.env, Line::empty());
        lemma_advance(o2.lx);
    }
}

/// The assignments at the head of a sequence leave the lexer well formed
/// and no further back, and change nothing but what the innermost scope
/// binds.
pub proof fn lemma_seq_assignments(l: LexerView, env: EnvView)
    requires
        l.wf(),
        env.scopes.len() >= 1,
    ensures
        follows(spec_seq_assignments(l, env).lx, l),
        same_but_innermost(spec_seq_assignments(l, env).env, env),
    decreases l.remaining(), 0nat,
{
    lemma_advance(l);
    match l.cur {
        Token::Eol => {
            lemma_seq_assignments(l.advance(), env);
        },
        Token::Sym | Token::Digits => {
            lemma_assignment(l.advance(), env);
            let o = spec_assignment(l.advance(), env);
            if o.res is Ok {
                lemma_seq_assignments(o.lx, o.env);
                let o2 = spec_seq_assignments(o.lx, o.env);
                assert(o2.env.scopes.drop_last() == env.scopes.drop_last());
            }
        },
        _ => {},
    }
}

/// An assignment leaves the lexer well formed and no further back, and
/// changes nothing but what the innermost scope binds.
pub proof fn lemma_assignment(l: LexerView, env: EnvView)
    requires
        l.wf(),
        env.scopes.len() >= 1,
    ensures
        follows(spec_assignment(l, env).lx, l),
        spec_assignment(l, env).res is Ok ==> spec_assignment(l, env).lx.remaining()
            < l.remaining(),
        same_but_innermost(spec_assignment(l, env).env, env),
    decreases l.remaining(), 0nat,
{
    lemma_advance(l);
    if l.cur == Token::Eq {
        lemma_val(l.advance(), env);
        let o = spec_val(l.advance(), env);
        match o.res {
            Ok(v) => {
                lemma_set_keeps(env, l.slice(), v);
            },
            Err(_) => {},
        }
    }
}

/// Reads a value.
pub fn val<RT: Runtime>(lx: &mut Lexer, env: &mut Env<RT>) -> (r: Result<Val, &'static str>)
    requires
        old(lx)@.wf(),
        old(env)@.scopes.len() >= 1,
    ensures
        final(lx)@ == spec_val(old(lx)@, old(env)@).lx,
        final(lx)@.wf(),
        final(env)@ == old(env)@,
        match r {
            Ok(v) => spec_val(old(lx)@, old(env)@).res == Ok::<ValView, &'static str>(v@),
            Err(e) => spec_val(old(lx)@, old(env)@).res == Err::<ValView, &'static str>(e),
        },
        old(env)@.wf() ==> (r matches Ok(v) ==> v@.wf()),
    decreases old(lx)@.remaining(), 1nat,
{
    proof {
        lemma_val(lx@, env@);
    }
    match lx.lookahead() {
        Token::OpenSq => bar(lx, env),
        Token::OpenCrl => sequence(lx, env),
        Token::OpenParen => trigger(lx),
        Token::Sym | Token::Digits => alias(lx, env),
        Token::Eof => Err("woah, the input ran out"),
        Token::Error => Err("we couldn't figure this symbol out"),
        _ => Err("we are looking for a value, like a trigger, a bar or a sequence"),
    }
}

fn sequence<RT: Runtime>(lx: &mut Lexer, env: &mut Env<RT>) -> (r: Result<Val, &'static str>)
    requires
        old(lx)@.wf(),
        old(lx)@.cur == Token::OpenCrl,
        old(env)@.scopes.len() >= 1,
    ensures
        final(lx)@ == spec_sequence(old(lx)@, old(env)@).lx,
        final(lx)@.wf(),
        final(env)@ == old(env)@,
        match r {
            Ok(v) => spec_sequence(old(lx)@, old(env)@).res == Ok::<ValView, &'static str>(v@),
            Err(e) => spec_sequence(old(lx)@, old(env)@).res == Err::<ValView, &'static str>(e),
        },
    decreases old(lx)@.remaining(), 0nat,
{
    proof {
        lemma_advance(lx@);
        lemma_seq_assignments(lx@.advance(), env@.step_in());
    }
    lx.advance();
    let mut lb = LineBuilder::default();
    env.step_in();
    let heads = seq_assignments(lx, env);
    proof {
        assert(env@.scopes.drop_last() =~= old(env)@.scopes);
    }
    match heads {
        Ok(()) => {},
        Err(e) => {
            env.step_out();
            assert(env@.scopes =~= old(env)@.scopes);
            return Err(e);
        },
    }
    let rows = seq_bars(lx, env, &mut lb);
    env.step_out();
    assert(env@.scopes =~= old(env)@.scopes);
    match rows {
        Ok(()) => {},
        Err(e) => {
            return Err(e);
        },
    }
    match lx.expect(Token::CloseCrl) {
        Ok(()) => {},
        Err(_) => {
            return Err("we need a '}' to finish the sequence");
        },
    }
    let (len, evs) = lb.done();
    Ok(Val::Bar(len, evs))
}

fn seq_assignments<RT: Runtime>(lx: &mut Lexer, env: &mut Env<RT>) -> (r: Result<
    (),
    &'static str,
>)
    requires
        old(lx)@.wf(),
        old(env)@.scopes.len() >= 1,
    ensures
        (EnvOutcome { lx: final(lx)@, env: final(env)@, res: r }) == spec_seq_assignments(
            old(lx)@,
            old(env)@,
        ),
        final(lx)@.wf(),
    decreases old(lx)@.remaining(), 0nat,
{
    loop
        invariant
            lx@.wf(),
            env@.scopes.len() >= 1,
            lx@.remaining() <= old(lx)@.remaining(),
            spec_seq_assignments(lx@, env@) == spec_seq_assignments(old(lx)@, old(env)@),
        decreases lx@.remaining(),
    {
        proof {
            lemma_advance(lx@);
            lemma_assignment(lx@.advance(), env@);
        }
        match lx.lookahead() {
            Token::Eol => lx.advance(),
            Token::Sym | Token::Digits => {
                lx.advance();
                match assignment(lx, env) {
                    Ok(()) => {},
                    Err(e) => {
                        return Err(e);
                    },
                }
            },
            Token::OpenSq => {
                return Ok(());
            },
            Token::Error => {
                return Err("we couldn't figure this symbol out");
            },
            Token::Eof => {
                return Err("woah, the input ran out");
            },
            _ => {
                return Err(
                    "we are looking for a value, like a trigger or bar, or another sequence",
                );
            },
        }
    }
}

/// Reads an assignment from behind its name and binds the name.
pub fn assignment<RT: Runtime>(lx: &mut Lexer, env: &mut Env<RT>) -> (r: Result<(), &'static str>)
    requires
        old(lx)@.wf(),
        old(env)@.scopes.len() >= 1,
    ensures
        (EnvOutcome { lx: final(lx)@, env: final(env)@, res: r }) == spec_assignment(
            old(lx)@,
            old(env)@,
        ),
        final(lx)@.wf(),
    decreases old(lx)@.remaining(), 0nat,
{
    let name_start = lx.span_start();
    let name_end = lx.span_end();
    proof {
        lemma_advance(lx@);
    }
    match lx.expect(Token::Eq) {
        Ok(()) => {},
        Err(_) => {
            return Err("we need an '=' to assign a name");
        },
    }
    proof {
        lemma_val(lx@, env@);
    }
    let value = match val(lx, env) {
        Ok(v) => v,
        Err(e) => {
            return Err(e);
        },
    };
    let nm = vstd::slice::slice_subrange(lx.src(), name_start, name_end);
    env.bind(nm, value);
    Ok(())
}

/// A slot assignment: `<`, the slot number, `>`, `=`, and a value, which
/// must be a bar; the runtime is asked to give the slot that bar.
pub open spec fn spec_slot_assignment(l: LexerView, env: EnvView) -> EnvOutcome {
    let n = spec_number(
        l.advance(),
        "we need a number for this slot",
        "coldn't parse this slot number",
    );
    match n.res {
        Err(e) => EnvOutcome { lx: n.lx, env, res: Err(e) },
        Ok(snum) => {
            let l2 = n.lx;
            let l3 = l2.advance();
            let l4 = l3.advance();
            if l2.cur != Token::CloseAng {
                EnvOutcome {
                    lx: l3,
                    env,
                    res: Err("we need a closing angle for this slot number"),
                }
            } else if l3.cur != Token::Eq {
                EnvOutcome {
                    lx: l4,
                    env,
                    res: Err("we are looking for an equals sign to assign a slot"),
                }
            } else {
                let o = spec_val(l4, env);
                match o.res {
                    Ok(ValView::Bar(len, evs)) => EnvOutcome {
                        lx: o.lx,
                        env: env.asked(Command::AssignSlot(snum, len, evs)),
                        res: Ok(()),
                    },
                    Ok(_) => EnvOutcome {
                        lx: o.lx,
                        env,
                        res: Err("you can only assign bars or sequences to a slot"),
                    },
                    Err(e) => EnvOutcome { lx: o.lx, env, res: Err(e) },
                }
            }
        },
    }
}

fn slot_assignment<RT: Runtime>(lx: &mut Lexer, env: &mut Env<RT>) -> (r: Result<
    (),
    &'static str,
>)
    requires
        old(lx)@.wf(),
        old(env)@.scopes.len() >= 1,
    ensures
        (EnvOutcome { lx: final(lx)@, env: final(env)@, res: r }) == spec_slot_assignment(
            old(lx)@,
            old(env)@,
        ),
        final(lx)@.wf(),
{
    lx.advance();
    let snum = match number(lx, "we need a number for this slot", "coldn't parse this slot number") {
        Ok(n) => n,
        Err(e) => {
            return Err(e);
        },
    };
    match lx.expect(Token::CloseAng) {
        Ok(()) => {},
        Err(_) => {
            return Err("we need a closing angle for this slot number");
        },
    }
    match lx.expect(Token::Eq) {
        Ok(()) => {},
        Err(_) => {
            return Err("we are looking for an equals sign to assign a slot");
        },
    }
    let (len, evs) = match val(lx, env) {
        Ok(Val::Bar(len, evs)) => (len, evs),
        Ok(_) => {
            return Err("you can only assign bars or sequences to a slot");
        },
        Err(e) => {
            return Err(e);
        },
    };
    env.assign_slot(snum, len, evs);
    Ok(())
}

/// The tokens that start a statement which binds a name or asks something
/// of the runtime.
pub open spec fn starts_statement(t: Token) -> bool {
    t == Token::Sym || t == Token::Digits || t == Token::OpenAng || t == Token::Bpm || t
        == Token::Div || t == Token::Sync || t == Token::Play || t == Token::Stop || t
        == Token::ListOuts || t == Token::OpenOut || t == Token::SetOut || t == Token::FindLps
        || t == Token::OpenLp
}

/// One statement, by the token that starts it: a name starts an
/// assignment, `<` a slot assignment, a keyword its command.
pub open spec fn spec_statement(l: LexerView, env: EnvView) -> EnvOutcome {
    match l.cur {
        Token::OpenAng => spec_slot_assignment(l, env),
        Token::Bpm => spec_bpm(l, env),
        Token::Div => spec_div(l, env),
        Token::Sync => spec_sync(l, env),
        Token::Play => spec_play(l, env),
        Token::Stop => spec_stop(l, env),
        Token::ListOuts => spec_list_outs(l, env),
        Token::OpenOut => spec_open_out(l, env),
        Token::SetOut => spec_set_out(l, env),
        Token::FindLps => spec_list_lps(l, env),
        Token::OpenLp => spec_open_lp(l, env),
        _ => spec_assignment(l.advance(), env),
    }
}

/// A statement leaves the lexer well formed and further on. It keeps the
/// number of scopes and a well-formed environment well formed; a statement
/// at fault leaves the environment as it was.
pub proof fn lemma_statement(l: LexerView, env: EnvView)
    requires
        l.wf(),
        env.scopes.len() >= 1,
        starts_statement(l.cur),
    ensures
        follows(spec_statement(l, env).lx, l),
        spec_statement(l, env).lx.remaining() < l.remaining(),
        spec_statement(l, env).env.scopes.len() == env.scopes.len(),
        env.wf() ==> spec_statement(l, env).env.wf(),
        spec_statement(l, env).res is Err ==> spec_statement(l, env).env == env,
{
    lemma_advance(l);
    let l1 = l.advance();
    lemma_advance(l1);
    lemma_advance(l1.advance());
    lemma_advance(l1.advance().advance());
    match l.cur {
        Token::OpenAng => {
            let l4 = l1.advance().advance().advance();
            lemma_val(l4, env);
        },
        Token::Sym | Token::Digits => {
            lemma_assignment(l1, env);
        },
        _ => {},
    }
}

/// The bar that a slot assignment hands to the runtime is valid, where the
/// values bound are: no event of it starts at or beyond its length.
pub proof fn law_slot_gets_valid_bar(l: LexerView, env: EnvView)
    requires
        l.wf(),
        env.wf(),
        spec_slot_assignment(l, env).res is Ok,
    ensures
        spec_slot_assignment(l, env).env.log.len() == env.log.len() + 1,
        spec_slot_assignment(l, env).env.log.last() matches Command::AssignSlot(_, len, evs)
            && crate::seq_types::bar_wf(len, evs),
{
    let l1 = l.advance();
    lemma_advance(l);
    lemma_advance(l1);
    lemma_advance(l1.advance());
    lemma_advance(l1.advance().advance());
    lemma_val(l1.advance().advance().advance(), env);
}

/// How reading a source went on: to its end, or up to a `do_file`, whose
/// path stands in the source from the first offset to the second.
#[derive(Debug, Copy, Clone, PartialEq, Eq, Structural)]
pub enum Flow {
    Done,
    File(usize, usize),
}

/// What reading a source comes to.
pub struct RootOutcome {
    pub lx: LexerView,
    pub env: EnvView,
    pub res: Result<Flow, ParseError>,
}

/// The statements of a source, one after another, up to the end of the
/// input, the first statement at fault, or the first `do_file`, which is
/// handed back with the lexer behind it. Line ends between statements are
/// passed over.
pub open spec fn spec_root(l: LexerView, env: EnvView) -> RootOutcome
    decreases l.remaining(),
    when l.wf() && env.scopes.len() >= 1
{
    if l.cur == Token::Eol {
        proof {
            lemma_advance(l);
        }
        spec_root(l.advance(), env)
    } else if l.cur == Token::Eof {
        RootOutcome { lx: l, env, res: Ok(Flow::Done) }
    } else if l.cur == Token::DoFile {
        let p = spec_do_file(l);
        match p.res {
            Err(e) => RootOutcome { lx: p.lx, env, res: Err(e) },
            Ok((s, e)) => RootOutcome { lx: p.lx, env, res: Ok(Flow::File(s, e)) },
        }
    } else if starts_statement(l.cur) {
        let o = spec_statement(l, env);
        match o.res {
            Err(e) => RootOutcome { lx: o.lx, env: o.env, res: Err(ParseError::Msg(e)) },
            Ok(()) => {
                proof {
                    lemma_statement(l, env);
                }
                spec_root(o.lx, o.env)
            },
        }
    } else {
        RootOutcome { lx: l, env, res: Err(ParseError::Msg("unknown symbol")) }
    }
}

/// Reading a source leaves the lexer well formed and no further back, and
/// a well-formed environment well formed. A path handed back lies inside
/// the source.
pub proof fn lemma_root(l: LexerView, env: EnvView)
    requires
        l.wf(),
        env.scopes.len() >= 1,
    ensures
        follows(spec_root(l, env).lx, l),
        spec_root(l, env).env.scopes.len() == env.scopes.len(),
        env.wf() ==> spec_root(l, env).env.wf(),
        spec_root(l, env).res matches Ok(Flow::File(s, e)) ==> s <= e <= l.src.len()
            && spec_root(l, env).lx.remaining() < l.remaining(),
        spec_root(l, env).res matches Err(e) ==> e is Msg,
    decreases l.remaining(),
{
    lemma_advance(l);
    if l.cur == Token::Eol {
        lemma_root(l.advance(), env);
    } else if l.cur == Token::DoFile {
        lemma_to_line_end(l.advance());
    } else if starts_statement(l.cur) {
        lemma_statement(l, env);
        let o = spec_statement(l, env);
        if o.res is Ok {
            lemma_root(o.lx, o.env);
        }
    }
}

/// Reads one statement and carries it out.
fn statement<RT: Runtime>(lx: &mut Lexer, env: &mut Env<RT>) -> (r: Result<(), &'static str>)
    requires
        old(lx)@.wf(),
        old(env)@.scopes.len() >= 1,
        starts_statement(old(lx)@.cur),
    ensures
        (EnvOutcome { lx: final(lx)@, env: final(env)@, res: r }) == spec_statement(
            old(lx)@,
            old(env)@,
        ),
        final(lx)@.wf(),
{
    match lx.lookahead() {
        Token::OpenAng => slot_assignment(lx, env),
        Token::Bpm => crate::keywords::bpm(lx, env),
        Token::Div => crate::keywords::div(lx, env),
        Token::Sync => crate::keywords::sync(lx, env),
        Token::Play => crate::keywords::play(lx, env),
        Token::Stop => crate::keywords::stop(lx, env),
        Token::ListOuts => crate::keywords::list_outs(lx, env),
        Token::OpenOut => crate::keywords::open_out(lx, env),
        Token::SetOut => crate::keywords::set_out(lx, env),
        Token::FindLps => crate::keywords::list_lps(lx, env),
        Token::OpenLp => crate::keywords::open_lp(lx, env),
        _ => {
            lx.advance();
            assignment(lx, env)
        },
    }
}

fn is_statement_start(t: Token) -> (r: bool)
    ensures
        r == starts_statement(t),
{
    match t {
        Token::Sym | Token::Digits | Token::OpenAng | Token::Bpm | Token::Div | Token::Sync
        | Token::Play | Token::Stop | Token::ListOuts | Token::OpenOut | Token::SetOut
        | Token::FindLps | Token::OpenLp => true,
        _ => false,
    }
}

/// Reads statements and carries them out, up to the end of the input, the
/// first statement at fault, or the first `do_file`.
pub fn root<RT: Runtime>(lx: &mut Lexer, env: &mut Env<RT>) -> (r: Result<Flow, ParseError>)
    requires
        old(lx)@.wf(),
        old(env)@.scopes.len() >= 1,
    ensures
        (RootOutcome { lx: final(lx)@, env: final(env)@, res: r }) == spec_root(
            old(lx)@,
            old(env)@,
        ),
        final(lx)@.wf(),
{
    loop
        invariant
            lx@.wf(),
            env@.scopes.len() >= 1,
            spec_root(lx@, env@) == spec_root(old(lx)@, old(env)@),
        decreases lx@.remaining(),
    {
        proof {
            lemma_advance(lx@);
            if starts_statement(lx@.cur) {
                lemma_statement(lx@, env@);
            }
        }
        let t = lx.lookahead();
        if t == Token::Eol {
            lx.advance();
        } else if t == Token::Eof {
            return Ok(Flow::Done);
        } else if t == Token::DoFile {
            return match crate::keywords::do_file(lx) {
                Ok((s, e)) => Ok(Flow::File(s, e)),
                Err(e) => Err(e),
            };
        } else if is_statement_start(t) {
            match statement(lx, env) {
                Ok(()) => {},
                Err(e) => {
                    return Err(ParseError::Msg(e));
                },
            }
        } else {
            return Err(ParseError::Msg("unknown symbol"));
        }
    }
}

} // verus!
