use liveseq::seq_types::{LineBuilder, SeqNote};

#[test]
fn test_line_builder() {
    let mut bld = LineBuilder::default();
    bld.trig(10, 10, 4, true);
    bld.rests(5);
    bld.trig(11, 11, 4, false);
    bld.cr();
    bld.trig(12, 12, 4, false);
    bld.rests(15);
    let (len, map) = bld.done();
    assert_eq!(len, 20);
    let trigs1 = map.get(&0).expect("should have a vec here");
    assert_eq!(trigs1.len(), 2);
    assert!(matches!(trigs1[0], SeqNote { nn: 10, vel: 10, duration: 5, legato: true }));
    assert!(matches!(trigs1[1], SeqNote { nn: 12, vel: 12, duration: 5, legato: false }));

    let trigs2 = map.get(&10).expect("should have a vec here");
    assert!(matches!(trigs2[0], SeqNote { nn: 11, vel: 11, duration: 5, legato: false }));
}

#[test]
fn rests_then_done_is_an_empty_bar_of_that_length() {
    for n in [0usize, 1, 7, 384] {
        let mut bld = LineBuilder::default();
        bld.rests(n);
        let (len, map) = bld.done();
        assert_eq!(len, n);
        assert!(map.is_empty());
    }
}

#[test]
fn trigger_with_ties_is_one_note_of_that_many_steps_more() {
    for k in [0usize, 1, 3, 9] {
        let mut bld = LineBuilder::default();
        bld.rests(2);
        bld.trig(60, 100, k, false);
        assert_eq!(bld.position(), 2 + k + 1);
        let (len, map) = bld.done();
        assert_eq!(len, 2 + k + 1);
        assert_eq!(map.len(), 1);
        let notes = map.get(&2).expect("the note starts at the cursor");
        assert_eq!(notes.len(), 1);
        assert_eq!(notes[0], SeqNote { nn: 60, vel: 100, duration: k + 1, legato: false });
    }
}

#[test]
fn merge_shifts_every_event_by_the_cursor() {
    let mut inner = LineBuilder::default();
    inner.trig(1, 2, 0, false);
    inner.rests(1);
    inner.trig(3, 4, 1, true);
    let (m, other) = inner.done();
    assert_eq!(m, 4);

    let mut bld = LineBuilder::default();
    bld.rests(5);
    bld.merge(m, &other);
    assert_eq!(bld.position(), 9);
    let (len, map) = bld.done();
    assert_eq!(len, 9);
    assert_eq!(map.len(), 2);
    assert_eq!(map.get(&5).unwrap()[0], SeqNote { nn: 1, vel: 2, duration: 1, legato: false });
    assert_eq!(map.get(&7).unwrap()[0], SeqNote { nn: 3, vel: 4, duration: 2, legato: true });
    assert!(map.get(&0).is_none());
    assert!(map.get(&2).is_none());
}

#[test]
fn merge_of_an_empty_bar_moves_nothing() {
    let (m, other) = LineBuilder::default().done();
    assert_eq!(m, 0);
    let mut bld = LineBuilder::default();
    bld.trig(9, 9, 0, false);
    bld.merge(m, &other);
    assert_eq!(bld.position(), 1);
    let (len, map) = bld.done();
    assert_eq!(len, 1);
    assert_eq!(map.len(), 1);
}

#[test]
fn merge_adds_behind_the_notes_already_there() {
    let mut inner = LineBuilder::default();
    inner.trig(50, 51, 0, false);
    let (m, other) = inner.done();

    let mut bld = LineBuilder::default();
    bld.trig(40, 41, 0, false);
    bld.cr();
    bld.merge(m, &other);
    let (len, map) = bld.done();
    assert_eq!(len, 1);
    let notes = map.get(&0).unwrap();
    assert_eq!(notes.len(), 2);
    assert_eq!(notes[0].nn, 40);
    assert_eq!(notes[1].nn, 50);
}

#[test]
fn no_event_at_or_beyond_the_length() {
    let mut bld = LineBuilder::default();
    bld.trig(1, 1, 2, false);
    bld.rests(3);
    bld.trig(2, 2, 0, true);
    bld.cr();
    bld.rests(1);
    bld.trig(3, 3, 0, false);
    let (len, map) = bld.done();
    assert_eq!(len, 7);
    for k in map.keys() {
        assert!(*k < len);
    }
}

#[test]
fn cr_keeps_the_longest_row() {
    let mut bld = LineBuilder::default();
    bld.rests(5);
    bld.cr();
    assert_eq!(bld.position(), 0);
    bld.rests(3);
    bld.cr();
    let (len, _) = bld.done();
    assert_eq!(len, 5);
}
