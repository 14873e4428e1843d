//! Bars: `[ ... ]`, a row of rests, triggers and earlier bars laid out on a
//! line of time-steps.

use crate::env::{lemma_lookup_wf, Env, EnvView};
use crate::lex::{after_run, lemma_advance, lemma_after_run, run_len, Lexer, LexerView, Token};
use crate::seq_types::{
    lemma_merge_wf, lemma_rests_wf, lemma_trig_wf, Line, LineBuilder, Val, ValView,
};
use crate::Runtime;
use vstd::prelude::*;

verus! {

/// What reading a part of a bar comes to: where the lexer stands, what the
/// line holds, and whether the part was well formed.
pub struct BarOutcome {
    pub lx: LexerView,
    pub line: Line,
    pub res: Result<(), &'static str>,
}

/// A bar or a row of rests would run past the largest offset there is.
pub open spec fn too_long() -> &'static str {
    "this bar is too long"
}

/// A row of dashes: as many rests as there are dashes.
pub open spec fn spec_bar_rests(l: LexerView, line: Line) -> BarOutcome {
    let l1 = l.advance();
    if l.cur != Token::Dash {
        BarOutcome { lx: l1, line, res: Err("somehow missed the first '-'") }
    } else {
        let count = 1 + run_len(l1, Token::Dash);
        let l2 = after_run(l1, Token::Dash);
        if line.cursor + count > usize::MAX {
            BarOutcome { lx: l2, line, res: Err(too_long()) }
        } else {
            BarOutcome { lx: l2, line: line.rests(count as usize), res: Ok(()) }
        }
    }
}

/// A name, then ties (`=`), then perhaps a legato mark (`>`). A trigger
/// becomes one note that lasts one step and one more for each tie. A bar is
/// laid over the line, and each tie behind it is one rest.
pub open spec fn spec_bar_trigger(l: LexerView, env: EnvView, line: Line) -> BarOutcome {
    let l1 = l.advance();
    match env.lookup(l1.slice()) {
        None => BarOutcome { lx: l1, line, res: Err("we couldn't find a value with this name") },
        Some(v) => {
            let ties = run_len(l1, Token::Eq);
            let l2 = after_run(l1, Token::Eq);
            let legato = l2.cur == Token::CloseAng;
            let l3 = if legato {
                l2.advance()
            } else {
                l2
            };
            match v {
                ValView::Trigger(t) => if line.cursor + ties + 1 > usize::MAX {
                    BarOutcome { lx: l3, line, res: Err(too_long()) }
                } else {
                    BarOutcome {
                        lx: l3,
                        line: line.trig(t.nn, t.vel, ties as usize, legato),
                        res: Ok(()),
                    }
                },
                ValView::Bar(len, evs) => if line.cursor + len + ties > usize::MAX {
                    BarOutcome { lx: l3, line, res: Err(too_long()) }
                } else {
                    BarOutcome {
                        lx: l3,
                        line: line.merge(len, evs).rests(ties as usize),
                        res: Ok(()),
                    }
                },
            }
        },
    }
}

/// The items of a bar up to and with its closing bracket.
pub open spec fn spec_bar_items(l: LexerView, env: EnvView, line: Line) -> BarOutcome
    decreases l.remaining(),
    when l.wf()
{
    match l.cur {
        Token::CloseSq => BarOutcome { lx: l.advance(), line, res: Ok(()) },
        Token::Dash => {
            let o = spec_bar_rests(l, line);
            if o.res is Err {
                o
            } else {
                proof {
                    lemma_bar_rests(l, line);
                }
                spec_bar_items(o.lx, env, o.line)
            }
        },
        Token::Sym | Token::Digits => {
            let o = spec_bar_trigger(l, env, line);
            if o.res is Err {
                o
            } else {
                proof {
                    lemma_bar_trigger(l, env, line);
                }
                spec_bar_items(o.lx, env, o.line)
            }
        },
        Token::Error => BarOutcome { lx: l, line, res: Err("we couldn't figure this symbol out") },
        Token::Eof => BarOutcome { lx: l, line, res: Err("woah, the input ended") },
        _ => BarOutcome {
            lx: l.advance(),
            line,
            res: Err("we are working on a bar, meaning we need a name or a - or ]"),
        },
    }
}

/// A bar: `[`, its items, `]`.
pub open spec fn spec_bar(l: LexerView, env: EnvView, line: Line) -> BarOutcome {
    let l1 = l.advance();
    if l.cur != Token::OpenSq {
        BarOutcome { lx: l1, line, res: Err("somehow missed the '['") }
    } else {
        spec_bar_items(l1, env, line)
    }
}

/// A row of rests leaves the lexer well formed and, read from a dash,
/// further on; it keeps a valid line valid.
pub proof fn lemma_bar_rests(l: LexerView, line: Line)
    requires
        l.wf(),
    ensures
        spec_bar_rests(l, line).lx.wf(),
        spec_bar_rests(l, line).lx.src == l.src,
        spec_bar_rests(l, line).lx.remaining() <= l.remaining(),
        l.cur != Token::Eof ==> spec_bar_rests(l, line).lx.remaining() < l.remaining(),
        line.wf() ==> spec_bar_rests(l, line).line.wf(),
{
    lemma_advance(l);
    lemma_after_run(l.advance(), Token::Dash);
}

/// A named item leaves the lexer well formed and, unless the input had
/// ended, further on; it keeps a valid line valid where the values bound
/// are valid.
pub proof fn lemma_bar_trigger(l: LexerView, env: EnvView, line: Line)
    requires
        l.wf(),
    ensures
        spec_bar_trigger(l, env, line).lx.wf(),
        spec_bar_trigger(l, env, line).lx.src == l.src,
        spec_bar_trigger(l, env, line).lx.remaining() <= l.remaining(),
        l.cur != Token::Eof ==> spec_bar_trigger(l, env, line).lx.remaining() < l.remaining(),
        line.wf() && env.wf() ==> spec_bar_trigger(l, env, line).line.wf(),
{
    lemma_advance(l);
    let l1 = l.advance();
    lemma_after_run(l1, Token::Eq);
    let l2 = after_run(l1, Token::Eq);
    lemma_advance(l2);
    if line.wf() && env.wf() {
        lemma_lookup_wf(env, l1.slice());
        let ties = run_len(l1, Token::Eq);
        match env.lookup(l1.slice()) {
            None => {},
            Some(v) => {
                let legato = l2.cur == Token::CloseAng;
                match v {
                    ValView::Trigger(t) => {
                        if line.cursor + ties + 1 <= usize::MAX {
                            lemma_trig_wf(line, t.nn, t.vel, ties as usize, legato);
                        }
                    },
                    ValView::Bar(len, evs) => {
                        if line.cursor + len + ties <= usize::MAX {
                            lemma_merge_wf(line, len, evs);
                            lemma_rests_wf(line.merge(len, evs), ties as usize);
                        }
                    },
                }
            },
        }
    }
}

/// The items of a bar leave the lexer well formed and no further back; a
/// valid line stays valid where the values bound are valid.
pub proof fn lemma_bar_items(l: LexerView, env: EnvView, line: Line)
    requires
        l.wf(),
    ensures
        spec_bar_items(l, env, line).lx.wf(),
        spec_bar_items(l, env, line).lx.src == l.src,
        spec_bar_items(l, env, line).lx.remaining() <= l.remaining(),
        spec_bar_items(l, env, line).res is Ok ==> spec_bar_items(l, env, line).lx.remaining()
            < l.remaining(),
        line.wf() && env.wf() ==> spec_bar_items(l, env, line).line.wf(),
    decreases l.remaining(),
{
    lemma_advance(l);
    match l.cur {
        Token::Dash => {
            lemma_bar_rests(l, line);
            let o = spec_bar_rests(l, line);
            if o.res is Ok {
                lemma_bar_items(o.lx, env, o.line);
            }
        },
        Token::Sym | Token::Digits => {
            lemma_bar_trigger(l, env, line);
            let o = spec_bar_trigger(l, env, line);
            if o.res is Ok {
                lemma_bar_items(o.lx, env, o.line);
            }
        },
        _ => {},
    }
}

/// A bar leaves the lexer well formed and, where it was well formed itself,
/// further on; a valid line stays valid where the values bound are valid.
pub proof fn lemma_bar(l: LexerView, env: EnvView, line: Line)
    requires
        l.wf(),
    ensures
        spec_bar(l, env, line).lx.wf(),
        spec_bar(l, env, line).lx.src == l.src,
        spec_bar(l, env, line).lx.remaining() <= l.remaining(),
        spec_bar(l, env, line).res is Ok ==> spec_bar(l, env, line).lx.remaining()
            < l.remaining(),
        line.wf() && env.wf() ==> spec_bar(l, env, line).line.wf(),
{
    lemma_advance(l);
    lemma_bar_items(l.advance(), env, line);
}

/// Reads a bar from its opening bracket on and lays its items on `line`.
pub fn parse<RT: Runtime>(lx: &mut Lexer, env: &Env<RT>, line: &mut LineBuilder) -> (r: Result<
    (),
    &'static str,
>)
    requires
        old(lx)@.wf(),
    ensures
        (BarOutcome { lx: final(lx)@, line: final(line)@, res: r }) == spec_bar(
            old(lx)@,
            env@,
            old(line)@,
        ),
        final(lx)@.wf(),
{
    proof {
        lemma_advance(lx@);
    }
    match lx.expect(Token::OpenSq) {
        Ok(()) => {},
        Err(_) => {
            return Err("somehow missed the '['");
        },
    }
    loop
        invariant
            lx@.wf(),
            spec_bar_items(lx@, env@, line@) == spec_bar(old(lx)@, env@, old(line)@),
        decreases lx@.remaining(),
    {
        let ghost l0 = lx@;
        let ghost line0 = line@;
        proof {
            lemma_advance(l0);
        }
        let step = match lx.lookahead() {
            Token::CloseSq => {
                lx.advance();
                return Ok(());
            },
            Token::Dash => {
                proof {
                    lemma_bar_rests(l0, line0);
                }
                bar_rests(lx, line)
            },
            Token::Sym | Token::Digits => {
                proof {
                    lemma_bar_trigger(l0, env@, line0);
                }
                bar_trigger(lx, env, line)
            },
            Token::Error => {
                return Err("we couldn't figure this symbol out");
            },
            Token::Eof => {
                return Err("woah, the input ended");
            },
            _ => {
                lx.advance();
                return Err("we are working on a bar, meaning we need a name or a - or ]");
            },
        };
        match step {
            Ok(()) => {},
            Err(e) => {
                return Err(e);
            },
        }
    }
}

fn bar_rests(lx: &mut Lexer, line: &mut LineBuilder) -> (r: Result<(), &'static str>)
    requires
        old(lx)@.wf(),
    ensures
        (BarOutcome { lx: final(lx)@, line: final(line)@, res: r }) == spec_bar_rests(
            old(lx)@,
            old(line)@,
        ),
        final(lx)@.wf(),
{
    proof {
        lemma_advance(lx@);
        lemma_after_run(lx@.advance(), Token::Dash);
    }
    match lx.expect(Token::Dash) {
        Ok(()) => {},
        Err(_) => {
            return Err("somehow missed the first '-'");
        },
    }
    let more = lx.skip_run(Token::Dash);
    let count = more + 1;
    if count > usize::MAX - line.position() {
        return Err("this bar is too long");
    }
    line.rests(count);
    Ok(())
}

fn bar_trigger<RT: Runtime>(lx: &mut Lexer, env: &Env<RT>, line: &mut LineBuilder) -> (r: Result<
    (),
    &'static str,
>)
    requires
        old(lx)@.wf(),
    ensures
        (BarOutcome { lx: final(lx)@, line: final(line)@, res: r }) == spec_bar_trigger(
            old(lx)@,
            env@,
            old(line)@,
        ),
        final(lx)@.wf(),
{
    proof {
        lemma_advance(lx@);
        lemma_after_run(lx@.advance(), Token::Eq);
        lemma_advance(after_run(lx@.advance(), Token::Eq));
    }
    lx.advance();
    let nm = lx.slice();
    let val = match env.find(nm) {
        Some(v) => v,
        None => {
            return Err("we couldn't find a value with this name");
        },
    };
    let ties = lx.skip_run(Token::Eq);
    let legato = if lx.lookahead() == Token::CloseAng {
        lx.advance();
        true
    } else {
        false
    };
    let room = usize::MAX - line.position();
    match val {
        Val::Trigger(t) => {
            if ties >= room {
                return Err("this bar is too long");
            }
            line.trig(t.nn, t.vel, ties, legato)
        },
        Val::Bar(len, evs) => {
            if *len > room || ties > room - *len {
                return Err("this bar is too long");
            }
            line.merge(*len, evs);
            line.rests(ties);
        },
    };
    Ok(())
}

} // verus!
