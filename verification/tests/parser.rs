use liveseq::bar;
use liveseq::env::Env;
use liveseq::err::{Error, ParseError};
use liveseq::keywords;
use liveseq::lex::{Lexer, Token};
use liveseq::parse_fsm::{assignment, note_to_u8, root, val, Flow};
use liveseq::seq_types::{LineBuilder, SeqNote, Trigger, Val};
use liveseq::{parse, resume, NullRt, Parsed, Runtime};
use std::collections::HashMap;

/// A runtime that writes down what it is asked.
#[derive(Default)]
struct Rec {
    asked: Vec<String>,
}

impl Runtime for Rec {
    fn assign_slot(&mut self, snum: usize, len: usize, evs: HashMap<usize, Vec<SeqNote>>) {
        let mut keys: Vec<usize> = evs.keys().copied().collect();
        keys.sort();
        self.asked.push(format!("assign {} {} {:?}", snum, len, keys));
    }
    fn set_bpm(&mut self, bpm_num: usize) {
        self.asked.push(format!("bpm {}", bpm_num));
    }
    fn set_div(&mut self, slot: usize, div_num: usize) {
        self.asked.push(format!("div {} {}", slot, div_num));
    }
    fn set_sync(&mut self, slot: usize, sync_num: usize) {
        self.asked.push(format!("sync {} {}", slot, sync_num));
    }
    fn set_output(&mut self, slot: usize, out_num: usize) {
        self.asked.push(format!("set_output {} {}", slot, out_num));
    }
    fn play_slot(&mut self, slot: usize) {
        self.asked.push(format!("play {}", slot));
    }
    fn stop_slot(&mut self, slot: usize) {
        self.asked.push(format!("stop {}", slot));
    }
    fn list_outs(&mut self) {
        self.asked.push(format!("list_outs"));
    }
    fn list_lps(&mut self) {
        self.asked.push(format!("find_lps"));
    }
    fn open_out(&mut self, out_num: usize, channel: u8) {
        self.asked.push(format!("open_output {} {}", out_num, channel));
    }
    fn open_lp(&mut self, lp_num: usize) {
        self.asked.push(format!("open_lp {}", lp_num));
    }
}

#[test]
fn test_bar() {
    let mut env = Env::new(NullRt::new());
    env.set("X", Val::Trigger(Trigger { nn: 1, vel: 1 }));

    let mut lb = LineBuilder::default();
    let input = "[X - - -]";
    let mut lx = Lexer::new(input);

    bar::parse(&mut lx, &env, &mut lb).expect("shouldn't error");
    let (len, evs) = lb.done();
    assert_eq!(len, 4);
    assert_eq!(evs.len(), 1);
    assert_eq!(evs.get(&0).unwrap().len(), 1);

    env.set("bounce", Val::Bar(len, evs));
    let mut lb = LineBuilder::default();
    let input = "[bounce bounce bounce bounce]";
    let mut lx = Lexer::new(input);
    bar::parse(&mut lx, &env, &mut lb).expect("shouldn't error");
    let (len, evs) = lb.done();
    assert_eq!(len, 16);
    assert_eq!(evs.len(), 4);
    assert_eq!(evs.get(&0).unwrap().len(), 1);
    assert_eq!(evs.get(&4).unwrap().len(), 1);
    assert_eq!(evs.get(&8).unwrap().len(), 1);
    assert_eq!(evs.get(&12).unwrap().len(), 1);
}


fn env_with_x() -> Env<Rec> {
    let mut env = Env::new(Rec::default());
    env.set("X", Val::Trigger(Trigger { nn: 1, vel: 1 }));
    env
}

fn run(src: &str) -> (Vec<String>, Result<(), String>) {
    let mut env = env_with_x();
    let res = match parse(src, &mut env) {
        Ok(Parsed::Done) => Ok(()),
        Ok(Parsed::File { start, end, .. }) => Err(format!("file {}..{}", start, end)),
        Err(e) => Err(e.msg().to_string()),
    };
    (asked(env), res)
}

fn asked(env: Env<Rec>) -> Vec<String> {
    env.runtime().asked.clone()
}

fn value(src: &str) -> Result<Val, &'static str> {
    let mut env = env_with_x();
    let mut lx = Lexer::new(src);
    val(&mut lx, &mut env)
}

fn bar_of(src: &str) -> (usize, HashMap<usize, Vec<SeqNote>>) {
    match value(src) {
        Ok(Val::Bar(len, evs)) => (len, evs),
        Ok(Val::Trigger(_)) => panic!("a trigger, not a bar"),
        Err(e) => panic!("{}", e),
    }
}

#[test]
fn a_bar_of_a_trigger_and_rests() {
    let (len, evs) = bar_of("[X - - -]");
    assert_eq!(len, 4);
    assert_eq!(evs.len(), 1);
    let notes = evs.get(&0).unwrap();
    assert_eq!(notes.len(), 1);
    assert_eq!(notes[0], SeqNote { nn: 1, vel: 1, duration: 1, legato: false });
}

#[test]
fn ties_make_the_note_longer() {
    let (len, evs) = bar_of("[X = = =]");
    assert_eq!(len, 4);
    assert_eq!(evs.len(), 1);
    assert_eq!(evs.get(&0).unwrap()[0], SeqNote { nn: 1, vel: 1, duration: 4, legato: false });

    let (len, evs) = bar_of("[X==> X]");
    assert_eq!(len, 4);
    assert_eq!(evs.get(&0).unwrap()[0], SeqNote { nn: 1, vel: 1, duration: 3, legato: true });
    assert_eq!(evs.get(&3).unwrap()[0], SeqNote { nn: 1, vel: 1, duration: 1, legato: false });
}

#[test]
fn an_empty_bar_has_no_length() {
    let (len, evs) = bar_of("[]");
    assert_eq!(len, 0);
    assert!(evs.is_empty());
}

#[test]
fn ties_behind_a_bar_are_rests() {
    let mut env = env_with_x();
    let mut lx = Lexer::new("b = [X -]\n[b = = X]");
    assert_eq!(lx.next(), Token::Sym);
    assignment(&mut lx, &mut env).expect("the name is bound");
    assert_eq!(lx.next(), Token::Eol);
    match val(&mut lx, &mut env) {
        Ok(Val::Bar(len, evs)) => {
            assert_eq!(len, 5);
            assert_eq!(evs.len(), 2);
            assert_eq!(evs.get(&0).unwrap()[0].duration, 1);
            assert_eq!(evs.get(&4).unwrap()[0].duration, 1);
        }
        _ => panic!("a bar"),
    }
}

#[test]
fn rows_of_a_sequence_are_layered() {
    let (len, evs) = bar_of("{ [X - -] [- X - - X] }");
    assert_eq!(len, 5);
    let mut keys: Vec<usize> = evs.keys().copied().collect();
    keys.sort();
    assert_eq!(keys, vec![0, 1, 4]);

    let (len, evs) = bar_of("{\n[X X X]\n[- - - - -]\n}");
    assert_eq!(len, 5);
    let mut keys: Vec<usize> = evs.keys().copied().collect();
    keys.sort();
    assert_eq!(keys, vec![0, 1, 2]);

    let (len, evs) = bar_of("{ [X] [X] }");
    assert_eq!(len, 1);
    assert_eq!(evs.get(&0).unwrap().len(), 2);
}

#[test]
fn names_of_a_sequence_hold_inside_it_only() {
    let mut env = env_with_x();
    let mut lx = Lexer::new("{ k = (60 100) \n X = (61 101) [k X] } k");
    match val(&mut lx, &mut env) {
        Ok(Val::Bar(len, evs)) => {
            assert_eq!(len, 2);
            assert_eq!(evs.get(&0).unwrap()[0].nn, 60);
            assert_eq!(evs.get(&1).unwrap()[0].nn, 61);
        }
        _ => panic!("a bar"),
    }
    assert!(env.lookup("k").is_none());
    assert!(matches!(env.lookup("X"), Some(Val::Trigger(Trigger { nn: 1, vel: 1 }))));
    assert!(matches!(val(&mut lx, &mut env), Err("we couldn't find a value with this name")));
}

#[test]
fn names_of_a_sequence_are_gone_after_an_error_too() {
    let mut env = env_with_x();
    let before = env.depth();
    let mut lx = Lexer::new("{ k = (60 100) [k nope] }");
    assert!(matches!(val(&mut lx, &mut env), Err("we couldn't find a value with this name")));
    assert_eq!(env.depth(), before);
    assert!(env.lookup("k").is_none());

    let mut lx = Lexer::new("{ k = ");
    assert!(matches!(val(&mut lx, &mut env), Err("woah, the input ran out")));
    assert_eq!(env.depth(), before);
}

#[test]
fn trigger_literals() {
    assert!(matches!(value("(C#2 127)"), Ok(Val::Trigger(Trigger { nn: 49, vel: 127 }))));
    assert!(matches!(value("(    66 44     )"), Ok(Val::Trigger(Trigger { nn: 66, vel: 44 }))));
    assert!(matches!(value("(0 0)"), Ok(Val::Trigger(Trigger { nn: 0, vel: 0 }))));
    assert!(matches!(value("(127 127)"), Ok(Val::Trigger(Trigger { nn: 127, vel: 127 }))));
    assert!(matches!(value("(44 127"), Err("somehow missed the ')' in a trigger")));
    assert!(matches!(value("(#? 127)"), Err("we couldn't figure this symbol out")));
    assert!(matches!(
        value("(breep 127)"),
        Err("we need some numbers or a note like C#4 or something")
    ));
    assert!(matches!(
        value("(200 127)"),
        Err("this note number is out of range, should be 0-127")
    ));
    assert!(matches!(value("(128 1)"), Err("this note number is out of range, should be 0-127")));
    assert!(matches!(value("(256 127)"), Err("couldn't parse this note number")));
    assert!(matches!(
        value("(99999999999999999999999999 1)"),
        Err("couldn't parse this note number")
    ));
    assert!(matches!(
        value("(66 corn)"),
        Err("we are looking for a trigger velocity, like a number between 0-127")
    ));
    assert!(matches!(value("(66 129)"), Err("this velocity is out of range, should be 0-127")));
    assert!(matches!(value("(66 300)"), Err("coudln't parse this velocity")));
    assert!(matches!(value("(66 #"), Err("we couldn't figure this symbol out")));
    assert!(matches!(value("(66"), Err("couldn't parse this velocity")));
    assert!(matches!(value("("), Err("woah, the input ran out")));
    let mut lx = Lexer::new("44 127)");
    assert!(matches!(liveseq::parse_fsm::trigger(&mut lx), Err("somehow we lost the '('")));
}

#[test]
fn pitch_names_count_from_c() {
    assert_eq!(note_to_u8(b"C_0"), 24);
    assert_eq!(note_to_u8(b"c_0"), 24);
    assert_eq!(note_to_u8(b"C#2"), 49);
    assert_eq!(note_to_u8(b"Cb0"), 23);
    assert_eq!(note_to_u8(b"D_1"), 38);
    assert_eq!(note_to_u8(b"e_1"), 40);
    assert_eq!(note_to_u8(b"F_1"), 41);
    assert_eq!(note_to_u8(b"g_1"), 43);
    assert_eq!(note_to_u8(b"A_4"), 81);
    assert_eq!(note_to_u8(b"B_3"), 71);
    assert_eq!(note_to_u8(b"bb3"), 70);
    assert_eq!(note_to_u8(b"B#8"), 132);
    assert!(matches!(value("(G_8 1)"), Ok(Val::Trigger(Trigger { nn: 127, vel: 1 }))));
    assert!(matches!(
        value("(G#8 1)"),
        Err("this note number is out of range, should be 0-127")
    ));
}

#[test]
fn values_that_are_none() {
    assert!(matches!(value(""), Err("woah, the input ran out")));
    assert!(matches!(value("#"), Err("we couldn't figure this symbol out")));
    assert!(matches!(
        value("]"),
        Err("we are looking for a value, like a trigger, a bar or a sequence")
    ));
    assert!(matches!(value("nope"), Err("we couldn't find a value with this name")));
    assert!(matches!(value("X"), Ok(Val::Trigger(Trigger { nn: 1, vel: 1 }))));
}

#[test]
fn bars_at_fault() {
    assert!(matches!(value("[X"), Err("woah, the input ended")));
    assert!(matches!(value("[X #]"), Err("we couldn't figure this symbol out")));
    assert!(matches!(
        value("[X (]"),
        Err("we are working on a bar, meaning we need a name or a - or ]")
    ));
    assert!(matches!(value("[X nope]"), Err("we couldn't find a value with this name")));
    let env = env_with_x();
    let mut lb = LineBuilder::default();
    let mut lx = Lexer::new("X]");
    assert!(matches!(bar::parse(&mut lx, &env, &mut lb), Err("somehow missed the '['")));
}

#[test]
fn sequences_at_fault() {
    assert!(matches!(value("{ [X] "), Err("woah, teh input ran out")));
    assert!(matches!(value("{ [X] # }"), Err("we couldn't figure this symbol out")));
    assert!(matches!(value("{ [X] X }"), Err("we are looking for some bars!")));
    assert!(matches!(value("{ "), Err("woah, the input ran out")));
    assert!(matches!(value("{ # }"), Err("we couldn't figure this symbol out")));
    assert!(matches!(
        value("{ } "),
        Err("we are looking for a value, like a trigger or bar, or another sequence")
    ));
    assert!(matches!(value("{ k (1 1) [k] }"), Err("we need an '=' to assign a name")));
}

#[test]
fn a_bar_never_runs_past_the_largest_offset() {
    let mut env = env_with_x();
    env.set("huge", Val::Bar(usize::MAX, HashMap::new()));
    env.set("big", Val::Bar(usize::MAX - 1, HashMap::new()));
    let mut lx = Lexer::new("[- huge]");
    assert!(matches!(val(&mut lx, &mut env), Err("this bar is too long")));
    let mut lx = Lexer::new("[X huge]");
    assert!(matches!(val(&mut lx, &mut env), Err("this bar is too long")));
    let mut lx = Lexer::new("[- big =]");
    assert!(matches!(val(&mut lx, &mut env), Err("this bar is too long")));
    let mut lx = Lexer::new("{ [X] [huge =] }");
    assert!(matches!(val(&mut lx, &mut env), Err("this bar is too long")));
    env.set("long", Val::Bar(100_000, HashMap::new()));
    let mut lx = Lexer::new("[long long =]");
    assert!(matches!(val(&mut lx, &mut env), Ok(Val::Bar(200_001, _))));
}

#[test]
fn statements_reach_the_runtime() {
    let (asked, res) = run(
        "bpm 120\ndiv 1 12\nsync 2 96\nplay 3\nstop 4\nlist_outs\nopen_output 0 15\n\
         set_output 5 1\nfind_lps\nopen_lp 0\n<7> = [X - X -]\n",
    );
    assert_eq!(res, Ok(()));
    assert_eq!(
        asked,
        vec![
            "bpm 120",
            "div 1 12",
            "sync 2 96",
            "play 3",
            "stop 4",
            "list_outs",
            "open_output 0 15",
            "set_output 5 1",
            "find_lps",
            "open_lp 0",
            "assign 7 4 [0, 2]",
        ]
    );
}

#[test]
fn a_statement_at_fault_ends_the_run_and_keeps_what_was_done() {
    let (asked, res) = run("bpm 90\nplay\nbpm 100");
    assert_eq!(res, Err("we need a slot number".to_string()));
    assert_eq!(asked, vec!["bpm 90"]);
}

#[test]
fn commands_at_fault() {
    let cases: Vec<(&str, &str)> = vec![
        ("bpm", "expected a bpm value, like 120"),
        ("bpm x", "expected a bpm value, like 120"),
        ("bpm 99999999999999999999999999", "couldn't parse the bpm number"),
        ("div", "we need a slot number"),
        ("div 99999999999999999999999999 1", "couldn't parse this slot number"),
        ("div 1", "we need a time division"),
        ("div 1 99999999999999999999999999", "couldn't parse this time division"),
        ("sync x", "we need a slot number"),
        ("sync 1 x", "we need a sync division"),
        ("sync 1 99999999999999999999999999", "couldn't parse the sync division"),
        ("play x", "we need a slot number"),
        ("stop x", "we need a slot number"),
        ("stop 99999999999999999999999999", "couldn't parse this slot number"),
        ("open_output", "we need an output number"),
        ("open_output 99999999999999999999999999", "couldn't parse this output num"),
        ("open_output 0", "we need a channel number"),
        ("open_output 0 16", "channel is out of range, must be 0 - 15"),
        ("open_output 0 255", "channel is out of range, must be 0 - 15"),
        ("open_output 0 256", "couldn't parse this channel num"),
        ("set_output x", "we need a slot number"),
        ("set_output 1 x", "we need an out_number"),
        ("set_output 1 99999999999999999999999999", "couldn't parse the out numver"),
        ("open_lp", "we need a launchpad number"),
        ("open_lp 99999999999999999999999999", "couldn't parse this launchpad number"),
        ("<x> = [X]", "we need a number for this slot"),
        ("<99999999999999999999999999> = [X]", "coldn't parse this slot number"),
        ("<1 = [X]", "we need a closing angle for this slot number"),
        ("<1> [X]", "we are looking for an equals sign to assign a slot"),
        ("<1> = (1 1)", "you can only assign bars or sequences to a slot"),
        ("<1> = X", "you can only assign bars or sequences to a slot"),
        ("<1> = nope", "we couldn't find a value with this name"),
        ("y (1 1)", "we need an '=' to assign a name"),
        ("y = ", "woah, the input ran out"),
        ("= 1", "unknown symbol"),
        ("#", "unknown symbol"),
        ("do_file", "we need a path to the file"),
        ("do_file\nbpm 1", "we need a path to the file"),
    ];
    for (src, msg) in cases {
        let (asked, res) = run(src);
        assert_eq!(res, Err(msg.to_string()), "{}", src);
        assert!(asked.is_empty(), "{}", src);
    }
}

#[test]
fn assignments_bind_names() {
    let mut env = Env::new(NullRt::new());
    let r = parse("k = (C_4 100)\nb = [k - k =]\nc = b\n120 = [b b]\n", &mut env);
    assert!(matches!(r, Ok(Parsed::Done)));
    assert!(matches!(env.lookup("k"), Some(Val::Trigger(Trigger { nn: 72, vel: 100 }))));
    match env.lookup("b") {
        Some(Val::Bar(len, evs)) => {
            assert_eq!(*len, 4);
            assert_eq!(evs.len(), 2);
            assert_eq!(evs.get(&2).unwrap()[0].duration, 2);
        }
        _ => panic!("b is a bar"),
    }
    assert!(matches!(env.lookup("c"), Some(Val::Bar(4, _))));
    assert!(matches!(env.lookup("120"), Some(Val::Bar(8, _))));
    assert!(env.find(b"K").is_none());
}

#[test]
fn a_name_is_bound_anew_in_place() {
    let mut env = Env::new(NullRt::new());
    env.set("a", Val::Trigger(Trigger { nn: 1, vel: 1 }));
    env.set("b", Val::Trigger(Trigger { nn: 2, vel: 2 }));
    env.set("a", Val::Trigger(Trigger { nn: 3, vel: 3 }));
    assert!(matches!(env.lookup("a"), Some(Val::Trigger(Trigger { nn: 3, vel: 3 }))));
    assert!(matches!(env.lookup("b"), Some(Val::Trigger(Trigger { nn: 2, vel: 2 }))));
    env.step_in();
    assert!(matches!(env.lookup("a"), Some(Val::Trigger(Trigger { nn: 3, vel: 3 }))));
    env.set("a", Val::Trigger(Trigger { nn: 4, vel: 4 }));
    assert!(matches!(env.lookup("a"), Some(Val::Trigger(Trigger { nn: 4, vel: 4 }))));
    assert_eq!(env.depth(), 2);
    env.step_out();
    assert!(matches!(env.lookup("a"), Some(Val::Trigger(Trigger { nn: 3, vel: 3 }))));
    assert_eq!(env.depth(), 1);
}

#[test]
fn do_file_hands_the_path_back() {
    let src = "bpm 90\ndo_file  songs/a b.txt \nbpm 100\n";
    let mut env = env_with_x();
    let rest = match parse(src, &mut env) {
        Ok(Parsed::File { start, end, rest }) => {
            assert_eq!(&src[start..end], "songs/a b.txt");
            rest
        }
        _ => panic!("the statement names a file"),
    };
    assert!(matches!(resume(rest, &mut env), Ok(Parsed::Done)));
    assert_eq!(asked(env), vec!["bpm 90", "bpm 100"]);

    let src = "do_file x";
    let mut lx = Lexer::new(src);
    let mut env = env_with_x();
    assert!(matches!(root(&mut lx, &mut env), Ok(Flow::File(8, 9))));
    assert!(matches!(root(&mut lx, &mut env), Ok(Flow::Done)));
    let mut lx = Lexer::new("do_file x\n");
    assert!(matches!(keywords::do_file(&mut lx), Ok((8, 9))));
    assert_eq!(lx.lookahead(), Token::Eol);
}

#[test]
fn an_error_shows_where_it_is() {
    let src = "bpm 90\n  play x 3\nstop 1";
    let mut env = env_with_x();
    let e = match parse(src, &mut env) {
        Err(e) => e,
        Ok(_) => panic!("the second line is at fault"),
    };
    assert!(e.file_path().is_none());
    assert_eq!(e.msg(), "we need a slot number");
    assert_eq!(e.line_num(), 2);
    assert_eq!(e.pre_txt(), b"  play ");
    assert_eq!(e.txt(), b"x");
    assert_eq!(e.post_txt(), b" 3");
}

#[test]
fn lines_are_counted_from_one() {
    let src = b"ab\ncd\n\nef";
    let at = |s: usize, e: usize| Error::Root(src, s, e, "m");
    assert_eq!(at(0, 2).line_num(), 1);
    assert_eq!(at(1, 2).line_num(), 1);
    assert_eq!(at(2, 3).line_num(), 1);
    assert_eq!(at(3, 5).line_num(), 2);
    assert_eq!(at(6, 6).line_num(), 3);
    assert_eq!(at(7, 9).line_num(), 4);
    assert_eq!(at(9, 9).line_num(), 4);
    assert_eq!(at(3, 5).pre_txt(), b"");
    assert_eq!(at(4, 5).pre_txt(), b"c");
    assert_eq!(at(4, 5).txt(), b"d");
    assert_eq!(at(4, 5).post_txt(), b"");
    assert_eq!(at(3, 4).post_txt(), b"d");
    assert_eq!(at(7, 8).post_txt(), b"f");
    assert_eq!(at(6, 6).pre_txt(), b"");
    assert_eq!(at(6, 6).post_txt(), b"");
}

#[test]
fn an_error_in_a_file_keeps_the_text_of_that_file() {
    let src = b"do_file a.txt";
    let inner = ParseError::Msg("unknown symbol").in_file(b"x\n#".to_vec(), 2, 3);
    let outer = inner.in_file(b"do_file b.txt".to_vec(), 8, 13);
    let e = Error::report(outer, src, 8, 13);
    assert_eq!(e.file_path(), Some(&b"a.txt"[..]));
    assert_eq!(e.msg(), "unknown symbol");
    assert_eq!(e.line_num(), 2);
    assert_eq!(e.txt(), b"#");
    assert_eq!(e.pre_txt(), b"");
    assert_eq!(e.post_txt(), b"");
    let plain = Error::report(ParseError::from("m"), src, 0, 7);
    assert!(matches!(plain, Error::Root(_, 0, 7, "m")));
    assert_eq!(plain.txt(), b"do_file");
}
