use liveseq::seq_types::{LineBuilder, Trigger, Val};
use std::collections::HashMap;

#[test]
fn a_trigger_as_text() {
    assert_eq!(Val::Trigger(Trigger { nn: 1, vel: 1 }).to_string(), "(1 1)");
    assert_eq!(Val::Trigger(Trigger { nn: 127, vel: 0 }).to_string(), "(127 0)");
    assert_eq!(Val::Trigger(Trigger { nn: 49, vel: 100 }).to_string(), "(49 100)");
    assert_eq!(Val::Trigger(Trigger { nn: 10, vel: 99 }).to_string(), "(10 99)");
}

#[test]
fn a_bar_as_text() {
    let mut bld = LineBuilder::default();
    bld.trig(60, 100, 2, true);
    bld.trig(62, 90, 0, false);
    bld.rests(1);
    let (len, evs) = bld.done();
    assert_eq!(Val::Bar(len, evs).to_string(), "[(60 100) = =>(62 90) - ]\n");

    let mut bld = LineBuilder::default();
    bld.trig(60, 100, 2, false);
    bld.rests(1);
    let (len, evs) = bld.done();
    assert_eq!(Val::Bar(len, evs).to_string(), "[(60 100) = = - ]\n");
}

#[test]
fn a_bar_of_two_voices_as_text() {
    let mut bld = LineBuilder::default();
    bld.trig(60, 100, 2, true);
    bld.trig(62, 90, 0, false);
    bld.rests(1);
    bld.cr();
    bld.trig(64, 80, 0, false);
    let (len, evs) = bld.done();
    assert_eq!(
        Val::Bar(len, evs).to_string(),
        "[(60 100) = =>(62 90) - ]\n[(64 80) - - - - ]\n"
    );
}

#[test]
fn an_empty_bar_as_text() {
    assert_eq!(Val::Bar(0, HashMap::new()).to_string(), "[]\n");
    assert_eq!(Val::Bar(3, HashMap::new()).to_string(), "[- - - ]\n");
}

#[test]
fn a_copy_of_a_value_is_the_same_value() {
    let mut bld = LineBuilder::default();
    bld.trig(60, 100, 2, true);
    bld.rests(2);
    let (len, evs) = bld.done();
    let v = Val::Bar(len, evs);
    let w = v.clone();
    assert_eq!(v.to_string(), w.to_string());
    match (v, w) {
        (Val::Bar(a, x), Val::Bar(b, y)) => {
            assert_eq!(a, b);
            assert_eq!(x, y);
        }
        _ => panic!("bars"),
    }
}
