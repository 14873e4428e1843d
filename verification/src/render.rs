//! Values as text, in the notation they are written in: a trigger as
//! `(pitch velocity)`, a bar as one bracketed row for each voice.

use crate::seq_types::{lanes, SeqNote, Val, ValView};
use std::collections::HashMap;
use vstd::prelude::*;
use vstd::string::StringExecFns;

verus! {

/// The character of a decimal digit.
pub open spec fn digit_char(d: nat) -> char {
    if d == 0 {
        '0'
    } else if d == 1 {
        '1'
    } else if d == 2 {
        '2'
    } else if d == 3 {
        '3'
    } else if d == 4 {
        '4'
    } else if d == 5 {
        '5'
    } else if d == 6 {
        '6'
    } else if d == 7 {
        '7'
    } else if d == 8 {
        '8'
    } else {
        '9'
    }
}

/// A number in base ten, without leading zeros.
pub open spec fn decimal_text(n: nat) -> Seq<char>
    decreases n,
{
    if n < 10 {
        seq![digit_char(n)]
    } else {
        decimal_text(n / 10).push(digit_char(n % 10))
    }
}

/// A trigger: `(pitch velocity)`.
pub open spec fn trigger_text(nn: u8, vel: u8) -> Seq<char> {
    seq!['('] + decimal_text(nn as nat) + seq![' '] + decimal_text(vel as nat) + seq![')']
}

/// What a row remembers from step to step: how many ties the note written
/// last still has to show, and whether it is legato.
pub struct Carry {
    pub ties: usize,
    pub leg: bool,
}

/// One step of a row, with what the row remembers behind it. Row `ln`
/// shows the note with that index of each step. A step that has such a note
/// shows it as a trigger. A step that has notes but not that many shows a
/// rest. A step without notes shows a tie while the note written last has
/// ties left, the last of them as `=>` where the note is legato, and a rest
/// after that.
pub open spec fn cell(evs: Map<usize, Seq<SeqNote>>, idx: usize, ln: nat, c: Carry) -> (
    Seq<char>,
    Carry,
) {
    if evs.contains_key(idx) {
        let ts = evs[idx];
        if ln < ts.len() {
            (
                trigger_text(ts[ln as int].nn, ts[ln as int].vel) + seq![' '],
                Carry { ties: (ts[ln as int].duration - 1) as usize, leg: ts[ln as int].legato },
            )
        } else {
            (seq!['-', ' '], c)
        }
    } else if c.ties == 0 {
        (seq!['-', ' '], c)
    } else if c.ties == 1 && c.leg {
        (seq!['=', '>'], Carry { ties: 0, leg: c.leg })
    } else {
        (seq!['=', ' '], Carry { ties: (c.ties - 1) as usize, leg: c.leg })
    }
}

/// The first `n` steps of row `ln`.
pub open spec fn cells(evs: Map<usize, Seq<SeqNote>>, n: nat, ln: nat, c: Carry) -> (
    Seq<char>,
    Carry,
)
    decreases n,
{
    if n == 0 {
        (Seq::empty(), c)
    } else {
        let before = cells(evs, (n - 1) as nat, ln, c);
        let here = cell(evs, (n - 1) as usize, ln, before.1);
        (before.0 + here.0, here.1)
    }
}

/// The first `n` rows of a bar of `len` steps, each in brackets on a line
/// of its own. What a row remembers passes on to the next.
pub open spec fn rows(evs: Map<usize, Seq<SeqNote>>, len: usize, n: nat, c: Carry) -> (
    Seq<char>,
    Carry,
)
    decreases n,
{
    if n == 0 {
        (Seq::empty(), c)
    } else {
        let before = rows(evs, len, (n - 1) as nat, c);
        let row = cells(evs, len as nat, (n - 1) as nat, before.1);
        (before.0 + seq!['['] + row.0 + seq![']', '\n'], row.1)
    }
}

/// The largest number of notes that any of the first `n` steps has; 1 at
/// least.
pub open spec fn voices(evs: Map<usize, Seq<SeqNote>>, n: nat) -> nat
    decreases n,
{
    if n == 0 {
        1
    } else {
        let before = voices(evs, (n - 1) as nat);
        let k = (n - 1) as usize;
        if evs.contains_key(k) && evs[k].len() > before {
            evs[k].len()
        } else {
            before
        }
    }
}

/// A value as text. A bar has one row for each voice: as many rows as its
/// fullest step has notes, and one at least.
pub open spec fn rendered(v: ValView) -> Seq<char> {
    match v {
        ValView::Trigger(t) => trigger_text(t.nn, t.vel),
        ValView::Bar(len, evs) => rows(
            evs,
            len,
            voices(evs, len as nat),
            Carry { ties: 0, leg: false },
        ).0,
    }
}

/// The text of one digit.
fn digit(d: u8) -> (r: &'static str)
    requires
        d < 10,
    ensures
        r@ == seq![digit_char(d as nat)],
{
    proof {
        reveal_strlit("0");
        reveal_strlit("1");
        reveal_strlit("2");
        reveal_strlit("3");
        reveal_strlit("4");
        reveal_strlit("5");
        reveal_strlit("6");
        reveal_strlit("7");
        reveal_strlit("8");
        reveal_strlit("9");
    }
    let r = if d == 0 {
        "0"
    } else if d == 1 {
        "1"
    } else if d == 2 {
        "2"
    } else if d == 3 {
        "3"
    } else if d == 4 {
        "4"
    } else if d == 5 {
        "5"
    } else if d == 6 {
        "6"
    } else if d == 7 {
        "7"
    } else if d == 8 {
        "8"
    } else {
        "9"
    };
    assert(r@ =~= seq![digit_char(d as nat)]);
    r
}

/// Writes `n` in base ten behind `out`.
fn put_number(out: &mut String, n: u8)
    ensures
        final(out)@ == old(out)@ + decimal_text(n as nat),
{
    let ghost start = out@;
    if n >= 100 {
        out.append(digit(n / 100));
    }
    if n >= 10 {
        out.append(digit((n / 10) % 10));
    }
    out.append(digit(n % 10));
    proof {
        let m = n as nat;
        if m >= 100 {
            assert(decimal_text(m / 100) =~= seq![digit_char(m / 100)]);
            assert(decimal_text(m / 10) =~= decimal_text(m / 100).push(digit_char((m / 10) % 10)));
            assert(decimal_text(m) =~= decimal_text(m / 10).push(digit_char(m % 10)));
        } else if m >= 10 {
            assert(decimal_text(m / 10) =~= seq![digit_char(m / 10)]);
            assert(decimal_text(m) =~= decimal_text(m / 10).push(digit_char(m % 10)));
        }
        assert(out@ =~= start + decimal_text(m));
    }
}

/// Writes a trigger behind `out`.
fn put_trigger(out: &mut String, nn: u8, vel: u8)
    ensures
        final(out)@ == old(out)@ + trigger_text(nn, vel),
{
    let ghost start = out@;
    proof {
        reveal_strlit("(");
        reveal_strlit(" ");
        reveal_strlit(")");
    }
    out.append("(");
    put_number(out, nn);
    out.append(" ");
    put_number(out, vel);
    out.append(")");
    assert(out@ =~= start + trigger_text(nn, vel));
}

/// The largest number of notes that any step of the bar has; 1 at least.
fn count_voices(len: usize, evs: &HashMap<usize, Vec<SeqNote>>) -> (r: usize)
    ensures
        r == voices(lanes(evs@), len as nat),
{
    let mut lines: usize = 1;
    let mut idx: usize = 0;
    while idx < len
        invariant
            idx <= len,
            lines == voices(lanes(evs@), idx as nat),
        decreases len - idx,
    {
        match evs.get(&idx) {
            Some(ts) => {
                if ts.len() > lines {
                    lines = ts.len();
                }
            },
            None => {},
        }
        idx = idx + 1;
    }
    lines
}

impl Val {
    /// The value as text.
    pub fn to_string(&self) -> (r: String)
        requires
            self@.wf(),
        ensures
            r@ == rendered(self@),
    {
        let mut out = String::new();
        match self {
            Val::Trigger(t) => {
                put_trigger(&mut out, t.nn, t.vel);
                assert(out@ =~= rendered(self@));
            },
            Val::Bar(len, evs) => {
                let ghost m = lanes(evs@);
                let lines = count_voices(*len, evs);
                let mut ties: usize = 0;
                let mut leg = false;
                let mut ln: usize = 0;
                proof {
                    reveal_strlit("[");
                    reveal_strlit("]\n");
                    reveal_strlit("- ");
                    reveal_strlit("=>");
                    reveal_strlit("= ");
                    reveal_strlit(" ");
                }
                while ln < lines
                    invariant
                        ln <= lines,
                        m == lanes(evs@),
                        crate::seq_types::bar_wf(*len, m),
                        "["@ == seq!['['],
                        "]\n"@ == seq![']', '\n'],
                        "- "@ == seq!['-', ' '],
                        "=>"@ == seq!['=', '>'],
                        "= "@ == seq!['=', ' '],
                        " "@ == seq![' '],
                        (out@, (Carry { ties, leg })) == rows(
                            m,
                            *len,
                            ln as nat,
                            (Carry { ties: 0, leg: false }),
                        ),
                    decreases lines - ln,
                {
                    let ghost head = out@;
                    let ghost c0 = Carry { ties, leg };
                    out.append("[");
                    let mut idx: usize = 0;
                    while idx < *len
                        invariant
                            idx <= *len,
                            m == lanes(evs@),
                            crate::seq_types::bar_wf(*len, m),
                            "- "@ == seq!['-', ' '],
                            "=>"@ == seq!['=', '>'],
                            "= "@ == seq!['=', ' '],
                            " "@ == seq![' '],
                            out@ == head + seq!['['] + cells(m, idx as nat, ln as nat, c0).0,
                            (Carry { ties, leg }) == cells(m, idx as nat, ln as nat, c0).1,
                        decreases *len - idx,
                    {
                        let ghost row = out@;
                        let ghost c1 = Carry { ties, leg };
                        match evs.get(&idx) {
                            Some(ts) => {
                                if ln < ts.len() {
                                    let n = ts[ln];
                                    put_trigger(&mut out, n.nn, n.vel);
                                    out.append(" ");
                                    assert(m[idx][ln as int].duration >= 1);
                                    ties = n.duration - 1;
                                    leg = n.legato;
                                } else {
                                    out.append("- ");
                                }
                            },
                            None => {
                                if ties == 0 {
                                    out.append("- ");
                                } else if ties == 1 && leg {
                                    out.append("=>");
                                    ties = ties - 1;
                                } else {
                                    out.append("= ");
                                    ties = ties - 1;
                                }
                            },
                        }
                        proof {
                            let here = cell(m, idx, ln as nat, c1);
                            assert(out@ =~= row + here.0);
                            assert((Carry { ties, leg }) == here.1);
                            assert(out@ =~= head + seq!['['] + cells(
                                m,
                                (idx + 1) as nat,
                                ln as nat,
                                c0,
                            ).0);
                        }
                        idx = idx + 1;
                    }
                    out.append("]\n");
                    proof {
                        let row = cells(m, *len as nat, ln as nat, c0);
                        assert(out@ =~= head + seq!['['] + row.0 + seq![']', '\n']);
                    }
                    ln = ln + 1;
                }
            },
        }
        out
    }
}

} // verus!
