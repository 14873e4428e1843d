use liveseq::player::controllers::{lpad_cb, Color, LpadError, Lpadout};
use liveseq::player::sequencer::Sequencer;
use liveseq::player::slot::{Slot, SlotState};
use liveseq::player::voicer::{MidiMsg, Voicer};
use liveseq::player::{apply, SeqCmd, SeqRsp};
use liveseq::seq_types::{LineBuilder, SeqNote};
use liveseq::sequence_types::{MapSeq, Sequence};
use std::collections::HashMap;

fn on(ch: u8, pitch: u8, vel: u8) -> MidiMsg {
    MidiMsg { status: 0x90 | ch, data1: pitch, data2: vel }
}

fn off(ch: u8, pitch: u8, vel: u8) -> MidiMsg {
    MidiMsg { status: 0x80 | ch, data1: pitch, data2: vel }
}

fn pattern(rows: &[(usize, u8, usize, bool)], len: usize) -> Box<MapSeq> {
    let mut notes: HashMap<usize, Vec<SeqNote>> = HashMap::new();
    for (at, nn, duration, legato) in rows {
        notes
            .entry(*at)
            .or_default()
            .push(SeqNote { nn: *nn, vel: 100, duration: *duration, legato: *legato });
    }
    Box::new(MapSeq::new(notes, len))
}

#[test]
fn a_note_of_three_ticks_ends_on_the_third_tick_after_it() {
    let mut v = Voicer::new(0);
    v.play_note(60, 100, 100, 3, false);
    assert_eq!(v.take_messages(), vec![on(0, 60, 100)]);
    // the tick in which the note started ends, and the first tick after it starts
    v.tick();
    v.pre_tick();
    assert_eq!(v.take_messages(), vec![]);
    v.tick();
    v.pre_tick();
    assert_eq!(v.take_messages(), vec![]);
    v.tick();
    v.pre_tick();
    assert_eq!(v.take_messages(), vec![off(0, 60, 100)]);
    v.tick();
    v.pre_tick();
    v.tick();
    assert_eq!(v.take_messages(), vec![]);
}

#[test]
fn a_legato_note_gets_no_note_off_of_its_own() {
    let mut v = Voicer::new(3);
    v.play_note(60, 100, 90, 1, true);
    v.tick();
    v.pre_tick();
    assert_eq!(v.take_messages(), vec![on(3, 60, 100)]);
    v.play_note(62, 100, 90, 1, false);
    v.tick();
    assert_eq!(v.take_messages(), vec![on(3, 62, 100)]);
    v.pre_tick();
    assert_eq!(v.take_messages(), vec![off(3, 62, 90)]);
    v.tick();
    v.pre_tick();
    v.tick();
    assert_eq!(v.take_messages(), vec![]);
}

#[test]
fn a_legato_note_that_still_sounds_is_killed_with_the_rest() {
    let mut v = Voicer::new(3);
    v.play_note(60, 100, 90, 2, true);
    v.tick();
    v.pre_tick();
    v.take_messages();
    v.kill_all();
    assert_eq!(v.take_messages(), vec![off(3, 60, 90)]);
}

#[test]
fn kill_all_ends_every_note() {
    let mut v = Voicer::new(9);
    v.play_note(60, 100, 1, 0, false);
    v.play_note(61, 100, 2, 5, true);
    v.play_note(62, 100, 3, 1000, false);
    v.play_note(63, 100, 4, 0, true);
    v.take_messages();
    v.kill_all();
    assert_eq!(
        v.take_messages(),
        vec![off(9, 60, 1), off(9, 61, 2), off(9, 62, 3), off(9, 63, 4)]
    );
    v.kill_all();
    v.pre_tick();
    v.tick();
    assert_eq!(v.take_messages(), vec![]);
}

#[test]
fn messages_are_three_bytes() {
    assert_eq!(on(5, 60, 100).bytes(), [0x95, 60, 100]);
    assert_eq!(off(15, 1, 2).bytes(), [0x8f, 1, 2]);
}

#[test]
fn toggling_a_synced_slot_waits_for_the_boundary() {
    let mut s = Slot::default();
    s.assign(pattern(&[(0, 60, 1, false)], 4));
    assert!(matches!(s.state(), SlotState::Stopped));
    s.set_sync(4);
    s.toggle();
    assert!(matches!(s.state(), SlotState::PlaySync));
    for t in [1usize, 2, 3, 5, 6, 7, 383] {
        s.sync(t);
        assert!(matches!(s.state(), SlotState::PlaySync));
    }
    s.sync(8);
    assert!(matches!(s.state(), SlotState::Stopped));
    s.sync(12);
    assert!(matches!(s.state(), SlotState::Stopped));

    s.toggle();
    assert!(matches!(s.state(), SlotState::PlaySync));
    s.toggle();
    assert!(matches!(s.state(), SlotState::Playing));
    s.sync(4);
    assert!(matches!(s.state(), SlotState::Playing));
    s.toggle();
    assert!(matches!(s.state(), SlotState::PlaySync));
    s.sync(0);
    assert!(matches!(s.state(), SlotState::Stopped));
}

#[test]
fn toggling_an_unsynced_slot_flips_it() {
    let mut s = Slot::default();
    assert!(matches!(s.state(), SlotState::Empty));
    s.assign(pattern(&[], 1));
    s.toggle();
    assert!(matches!(s.state(), SlotState::Playing));
    s.sync(0);
    assert!(matches!(s.state(), SlotState::Playing));
    s.toggle();
    assert!(matches!(s.state(), SlotState::Stopped));
    s.play();
    assert!(matches!(s.state(), SlotState::Playing));
    s.stop();
    assert!(matches!(s.state(), SlotState::Stopped));
}

#[test]
fn taking_the_sync_away_resolves_at_once() {
    let mut s = Slot::default();
    s.assign(pattern(&[], 1));
    s.set_sync(96);
    s.toggle();
    assert!(matches!(s.state(), SlotState::PlaySync));
    s.set_sync(0);
    assert!(matches!(s.state(), SlotState::Stopped));
    s.play();
    s.set_sync(0);
    assert!(matches!(s.state(), SlotState::Playing));
}

#[test]
fn a_slot_plays_its_steps_and_wraps() {
    let mut s = Slot::default();
    let mut v = Voicer::new(0);
    s.assign(pattern(&[(0, 60, 1, false), (0, 64, 2, true), (2, 67, 1, false)], 3));
    s.set_div(2);
    s.tick(Some(&mut v));
    assert_eq!(v.take_messages(), vec![]);
    s.play();
    let mut heard = vec![];
    for _ in 0..8 {
        s.tick(Some(&mut v));
        heard.push(v.take_messages());
    }
    assert_eq!(
        heard,
        vec![
            vec![on(0, 60, 100), on(0, 64, 100)],
            vec![],
            vec![],
            vec![],
            vec![on(0, 67, 100)],
            vec![],
            vec![on(0, 60, 100), on(0, 64, 100)],
            vec![],
        ]
    );
    // durations are in ticks: steps times the division
    v.kill_all();
    v.take_messages();
    let mut w = Voicer::new(0);
    s.stop();
    s.play();
    s.tick(Some(&mut w));
    w.take_messages();
    w.tick();
    w.pre_tick();
    assert_eq!(w.take_messages(), vec![]);
    w.tick();
    w.pre_tick();
    assert_eq!(w.take_messages(), vec![off(0, 60, 100)]);
    w.tick();
    w.pre_tick();
    w.tick();
    w.pre_tick();
    w.tick();
    w.pre_tick();
    assert_eq!(w.take_messages(), vec![]);
    w.kill_all();
    assert_eq!(w.take_messages(), vec![]);
}

#[test]
fn a_slot_without_an_output_still_moves_on() {
    let mut s = Slot::default();
    let mut v = Voicer::new(0);
    s.assign(pattern(&[(1, 60, 1, false)], 2));
    s.set_div(1);
    s.play();
    s.tick(None);
    s.tick(Some(&mut v));
    assert_eq!(v.take_messages(), vec![on(0, 60, 100)]);
}

#[test]
fn an_empty_pattern_plays_nothing_and_stays() {
    let mut s = Slot::default();
    let mut v = Voicer::new(0);
    s.assign(pattern(&[], 0));
    s.set_div(1);
    s.play();
    for _ in 0..5 {
        s.tick(Some(&mut v));
    }
    assert_eq!(v.take_messages(), vec![]);
    assert!(matches!(s.state(), SlotState::Playing));
}

#[test]
fn a_new_pattern_starts_at_its_first_step_and_keeps_the_transport() {
    let mut s = Slot::default();
    let mut v = Voicer::new(0);
    s.set_output(3);
    s.set_div(1);
    s.assign(pattern(&[(0, 60, 1, false), (1, 61, 1, false)], 2));
    s.play();
    s.tick(Some(&mut v));
    s.assign(pattern(&[(0, 70, 1, false), (1, 71, 1, false)], 2));
    assert!(matches!(s.state(), SlotState::Playing));
    assert_eq!(s.output(), 3);
    v.take_messages();
    s.tick(Some(&mut v));
    assert_eq!(v.take_messages(), vec![on(0, 70, 100)]);
}

#[test]
fn the_sequencer_runs_cut_play_release_in_that_order() {
    let mut seq = Sequencer::init(120, 64, None);
    assert_eq!(seq.bpm(), 120);
    assert_eq!(seq.push_output(Voicer::new(1)), 1);
    assert_eq!(seq.push_output(Voicer::new(2)), 2);
    assert_eq!(seq.output_count(), 2);
    seq.assign_slot(0, pattern(&[(0, 60, 1, false)], 1));
    seq.assign_slot(1, pattern(&[(0, 70, 1, true)], 1));
    seq.assign_slot(64, pattern(&[(0, 99, 1, true)], 1));
    seq.assign_slot_output(1, 1);
    seq.set_div(0, 3);
    seq.set_div(1, 3);
    seq.set_div(1, 0);
    seq.play_slot(0);
    seq.play_slot(1);
    seq.play_slot(64);
    let mut first = vec![];
    let mut second = vec![];
    for _ in 0..7 {
        assert!(seq.tick().is_ok());
        first.push(seq.take_output_messages(0));
        second.push(seq.take_output_messages(1));
    }
    assert_eq!(
        first,
        vec![
            vec![on(1, 60, 100)],
            vec![],
            vec![],
            vec![off(1, 60, 100), on(1, 60, 100)],
            vec![],
            vec![],
            vec![off(1, 60, 100), on(1, 60, 100)],
        ]
    );
    assert_eq!(
        second,
        vec![
            vec![on(2, 70, 100)],
            vec![],
            vec![],
            vec![on(2, 70, 100)],
            vec![],
            vec![],
            vec![on(2, 70, 100)],
        ]
    );
    assert_eq!(seq.take_output_messages(2), vec![]);
    seq.set_bpm(90);
    assert_eq!(seq.bpm(), 90);
    seq.tick().unwrap();
    assert_eq!(seq.take_output_messages(0), vec![]);
    seq.kill_all();
    assert_eq!(seq.take_output_messages(0), vec![off(1, 60, 100)]);
    assert_eq!(seq.take_output_messages(1), vec![off(2, 70, 100)]);
    seq.tick().unwrap();
    assert_eq!(seq.take_output_messages(0), vec![]);
}

#[test]
fn the_sync_count_runs_over_one_bar() {
    let mut seq = Sequencer::init(120, 1, None);
    seq.push_output(Voicer::new(0));
    seq.assign_slot(0, pattern(&[(0, 60, 1, false)], 1));
    seq.set_div(0, 1000);
    seq.set_sync(0, 384);
    seq.play_slot(0);
    for _ in 0..5 {
        seq.tick().unwrap();
    }
    seq.toggle_slot(0);
    seq.take_output_messages(0);
    // armed to stop at the next boundary: tick 384, which counts as 0 again
    for _ in 5..384 {
        seq.tick().unwrap();
    }
    seq.play_slot(0);
    seq.toggle_slot(0);
    seq.take_output_messages(0);
    seq.tick().unwrap();
    seq.toggle_slot(0);
    seq.toggle_slot(0);
    seq.tick().unwrap();
    // stopped on the boundary and made to play again: it starts from the first step
    assert_eq!(seq.take_output_messages(0), vec![on(0, 60, 100)]);
}

#[test]
fn the_grid_shows_the_slots() {
    let mut seq = Sequencer::init(120, 10, Some(Lpadout::new()));
    seq.assign_slot(1, pattern(&[], 1));
    seq.assign_slot(9, pattern(&[], 1));
    assert_eq!(seq.take_pad_messages(), vec![]);
    seq.play_slot(1);
    let lit = seq.take_pad_messages();
    assert_eq!(lit.len(), 10);
    assert_eq!(lit[0], MidiMsg { status: 0x90, data1: 0x00, data2: 0x00 });
    assert_eq!(lit[1], MidiMsg { status: 0x90, data1: 0x01, data2: 0x30 });
    assert_eq!(lit[8], MidiMsg { status: 0x90, data1: 0x10, data2: 0x00 });
    assert_eq!(lit[9], MidiMsg { status: 0x90, data1: 0x11, data2: 0x03 });
    seq.set_sync(9, 4);
    seq.toggle_slot(9);
    let lit = seq.take_pad_messages();
    assert_eq!(lit.len(), 20);
    assert_eq!(lit[19], MidiMsg { status: 0x90, data1: 0x11, data2: 0x10 });
    seq.stop_slot(1);
    assert_eq!(seq.take_pad_messages()[1].data2, 0x03);
    seq.stop_slot(10);
    seq.toggle_slot(10);
    seq.set_sync(10, 1);
    assert_eq!(seq.take_pad_messages(), vec![]);
    seq.sync_lp();
    assert_eq!(seq.take_pad_messages().len(), 10);
    seq.drop_lp();
    seq.play_slot(1);
    assert_eq!(seq.take_pad_messages(), vec![]);
    seq.add_lp(Lpadout::new());
    assert_eq!(seq.take_pad_messages()[1].data2, 0x30);
}

#[test]
fn pads_beyond_the_grid_count_as_its_edge() {
    let mut lp = Lpadout::new();
    lp.set_grid(0, 0, Color::Off);
    lp.set_grid(3, 5, Color::Red1);
    lp.set_grid(7, 7, Color::Red2);
    lp.set_grid(8, 9, Color::Red3);
    lp.set_grid(usize::MAX, usize::MAX, Color::Green1);
    lp.set_grid(1, 0, Color::Green2);
    lp.set_grid(0, 1, Color::Green3);
    lp.set_grid(0, 0, Color::Orange1);
    lp.set_grid(0, 0, Color::Orange2);
    lp.set_grid(0, 0, Color::Orange3);
    let m: Vec<[u8; 3]> = lp.take_messages().iter().map(|m| m.bytes()).collect();
    assert_eq!(
        m,
        vec![
            [0x90, 0x00, 0x00],
            [0x90, 0x35, 0x01],
            [0x90, 0x77, 0x02],
            [0x90, 0x77, 0x03],
            [0x90, 0x77, 0x10],
            [0x90, 0x10, 0x20],
            [0x90, 0x01, 0x30],
            [0x90, 0x00, 0x11],
            [0x90, 0x00, 0x22],
            [0x90, 0x00, 0x33],
        ]
    );
    assert_eq!(u8::from(Color::Orange3), 0x33);
    assert_eq!(lp.take_messages(), vec![]);
}

#[test]
fn a_pad_press_toggles_its_slot() {
    assert!(matches!(lpad_cb(&[0x90, 0x00, 127]), Some(SeqCmd::ToggleSlot(0))));
    assert!(matches!(lpad_cb(&[0x90, 0x07, 1]), Some(SeqCmd::ToggleSlot(7))));
    assert!(matches!(lpad_cb(&[0x90, 0x10, 127]), Some(SeqCmd::ToggleSlot(8))));
    assert!(matches!(lpad_cb(&[0x90, 0x35, 127]), Some(SeqCmd::ToggleSlot(29))));
    assert!(matches!(lpad_cb(&[0x90, 0x77, 127]), Some(SeqCmd::ToggleSlot(63))));
    assert!(matches!(lpad_cb(&[0x90, 0xff, 127]), Some(SeqCmd::ToggleSlot(135))));
    assert!(lpad_cb(&[0x90, 0x35, 0]).is_none());
    assert!(lpad_cb(&[0x90, 0x08, 127]).is_none());
    assert!(lpad_cb(&[0x90, 0x78, 127]).is_none());
}

#[test]
fn commands_are_carried_out() {
    let mut seq = Sequencer::init(120, 4, Some(Lpadout::new()));
    assert!(!apply(&mut seq, SeqCmd::PushOutput(Voicer::new(0))));
    assert!(!apply(&mut seq, SeqCmd::SetBpm(100)));
    assert_eq!(seq.bpm(), 100);
    assert!(!apply(&mut seq, SeqCmd::AssignSlot(2, pattern(&[(0, 60, 2, false)], 1))));
    assert!(!apply(&mut seq, SeqCmd::AssignOutput(2, 0)));
    assert!(!apply(&mut seq, SeqCmd::SetDiv(2, 1)));
    assert!(!apply(&mut seq, SeqCmd::SetSync(2, 0)));
    assert!(!apply(&mut seq, SeqCmd::ToggleSlot(2)));
    seq.tick().unwrap();
    assert_eq!(seq.take_output_messages(0), vec![on(0, 60, 100)]);
    assert!(!apply(&mut seq, SeqCmd::StopSlot(2)));
    seq.tick().unwrap();
    assert_eq!(seq.take_output_messages(0), vec![]);
    assert!(!apply(&mut seq, SeqCmd::PlaySlot(2)));
    seq.tick().unwrap();
    assert_eq!(seq.take_output_messages(0), vec![off(0, 60, 100), on(0, 60, 100)]);
    seq.take_pad_messages();
    assert!(!apply(&mut seq, SeqCmd::Launchpad(Lpadout::new())));
    assert_eq!(seq.take_pad_messages().len(), 4);
    assert!(apply(&mut seq, SeqCmd::Quit));
    assert_eq!(seq.take_output_messages(0), vec![off(0, 60, 100)]);
    seq.tick().unwrap();
    assert_eq!(seq.take_output_messages(0), vec![]);
    assert_ne!(SeqRsp::Done, SeqRsp::Failed(1));
}

#[test]
fn a_note_too_long_for_the_clock_is_held_as_long_as_can_be() {
    let mut s = Slot::default();
    let mut v = Voicer::new(0);
    s.assign(pattern(&[(0, 60, usize::MAX, false)], 1));
    s.set_div(2);
    s.play();
    s.tick(Some(&mut v));
    assert_eq!(v.take_messages(), vec![on(0, 60, 100)]);
    v.tick();
    v.pre_tick();
    assert_eq!(v.take_messages(), vec![]);
}

#[test]
fn a_bar_from_the_builder_is_a_pattern() {
    let mut bld = LineBuilder::default();
    bld.trig(60, 100, 1, false);
    bld.rests(1);
    let mut seq = MapSeq::from(bld.done());
    assert_eq!(seq.len(), 3);
    assert_eq!(seq.events(0).unwrap().len(), 1);
    assert!(seq.events(1).is_none());
}

#[test]
fn controller_errors_in_words() {
    assert_eq!(LpadError::InPort.message(), "couldn't make an input");
    assert_eq!(LpadError::InFind.message(), "couldn't find a launchpad");
    assert_eq!(LpadError::InConnect.message(), "coudln't connect to the input");
    assert_eq!(LpadError::OutPort.message(), "couldn't make an output");
    assert_eq!(LpadError::OutFind.message(), "couldn't find a launchpad");
    assert_eq!(LpadError::OutConnect.message(), "couldn't connect to output");
}
