//! The grid controller: the messages that light its pads, and what a pad
//! press asks for.

use crate::player::voicer::MidiMsg;
use crate::player::SeqCmd;
use vstd::prelude::*;

verus! {

/// The colours a pad can show.
#[derive(Debug, Copy, Clone, PartialEq, Eq, Structural)]
pub enum Color {
    Off,
    Red1,
    Red2,
    Red3,
    Green1,
    Green2,
    Green3,
    Orange1,
    Orange2,
    Orange3,
}

impl Color {
    /// The velocity byte that shows the colour.
    pub open spec fn code(self) -> u8 {
        match self {
            Color::Off => 0x00,
            Color::Red1 => 0x01,
            Color::Red2 => 0x02,
            Color::Red3 => 0x03,
            Color::Green1 => 0x10,
            Color::Green2 => 0x20,
            Color::Green3 => 0x30,
            Color::Orange1 => 0x11,
            Color::Orange2 => 0x22,
            Color::Orange3 => 0x33,
        }
    }
}

impl From<Color> for u8 {
    fn from(x: Color) -> (r: u8) {
        match x {
            Color::Off => 0x00,
            Color::Red1 => 0x01,
            Color::Red2 => 0x02,
            Color::Red3 => 0x03,
            Color::Green1 => 0x10,
            Color::Green2 => 0x20,
            Color::Green3 => 0x30,
            Color::Orange1 => 0x11,
            Color::Orange2 => 0x22,
            Color::Orange3 => 0x33,
        }
    }
}

impl vstd::std_specs::convert::FromSpecImpl<Color> for u8 {
    open spec fn obeys_from_spec() -> bool {
        true
    }

    open spec fn from_spec(x: Color) -> u8 {
        x.code()
    }
}

/// Why a grid controller could not be opened.
#[derive(Debug, Copy, Clone, PartialEq, Eq, Structural)]
pub enum LpadError {
    InPort,
    InFind,
    InConnect,
    OutPort,
    OutFind,
    OutConnect,
}

impl LpadError {
    /// The error in words.
    pub fn message(&self) -> (m: &'static str)
        ensures
            m@ == match *self {
                LpadError::InPort => "couldn't make an input"@,
                LpadError::InFind => "couldn't find a launchpad"@,
                LpadError::InConnect => "coudln't connect to the input"@,
                LpadError::OutPort => "couldn't make an output"@,
                LpadError::OutFind => "couldn't find a launchpad"@,
                LpadError::OutConnect => "couldn't connect to output"@,
            },
    {
        match self {
            LpadError::InPort => "couldn't make an input",
            LpadError::InFind => "couldn't find a launchpad",
            LpadError::InConnect => "coudln't connect to the input",
            LpadError::OutPort => "couldn't make an output",
            LpadError::OutFind => "couldn't find a launchpad",
            LpadError::OutConnect => "couldn't connect to output",
        }
    }
}

/// A row or column of the grid: 7 for every number from 7 on.
pub open spec fn min7(x: usize) -> u8 {
    if x >= 7 {
        7u8
    } else {
        x as u8
    }
}

/// The message that sets the pad in `row` and `col` to `color`. Rows and
/// columns beyond the eighth count as the eighth.
pub open spec fn grid_msg(row: usize, col: usize, color: Color) -> MidiMsg {
    MidiMsg { status: 0x90, data1: (min7(row) << 4) | min7(col), data2: color.code() }
}

/// The output side of a grid controller: the messages written for it that
/// wait to be put on the wire.
#[derive(Debug)]
pub struct Lpadout {
    outbox: Vec<MidiMsg>,
}

impl View for Lpadout {
    type V = Seq<MidiMsg>;

    closed spec fn view(&self) -> Seq<MidiMsg> {
        self.outbox@
    }
}

impl Lpadout {
    /// A controller with nothing written for it.
    pub fn new() -> (r: Self)
        ensures
            r@ == Seq::<MidiMsg>::empty(),
    {
        Self { outbox: Vec::new() }
    }

    /// Writes the message that sets one pad of the grid.
    pub fn set_grid(&mut self, row: usize, col: usize, color: Color)
        ensures
            final(self)@ == old(self)@.push(grid_msg(row, col, color)),
    {
        let row: u8 = if row >= 7 {
            7
        } else {
            row as u8
        };
        let col: u8 = if col >= 7 {
            7
        } else {
            col as u8
        };
        let nn: u8 = (row << 4) | col;
        self.outbox.push(MidiMsg { status: 0x90, data1: nn, data2: u8::from(color) });
    }

    /// Hands over the messages written since the last call, oldest first.
    pub fn take_messages(&mut self) -> (msgs: Vec<MidiMsg>)
        ensures
            msgs@ == old(self)@,
            final(self)@ == Seq::<MidiMsg>::empty(),
    {
        let mut msgs: Vec<MidiMsg> = Vec::new();
        std::mem::swap(&mut msgs, &mut self.outbox);
        msgs
    }
}

/// The row of the pad that a note number names.
pub open spec fn pad_row(nn: u8) -> u8 {
    (nn & 0xF0) >> 4
}

/// The column of the pad that a note number names; 8 is the column of
/// round buttons beside the grid.
pub open spec fn pad_col(nn: u8) -> u8 {
    nn & 0x0F
}

/// What a note message from the controller asks for: a press (velocity not
/// 0) of a pad of the grid toggles the slot of that pad, eight slots to the
/// row. A release, or a button of the side column, asks for nothing.
pub open spec fn pad_command(nn: u8, vel: u8) -> Option<usize> {
    if pad_col(nn) != 8 && vel != 0 {
        Some((pad_row(nn) * 8 + pad_col(nn)) as usize)
    } else {
        None
    }
}

/// Reads one message from the controller. It must be a note message of
/// three bytes; others are not expected from this device.
pub fn lpad_cb(msg: &[u8]) -> (cmd: Option<SeqCmd>)
    requires
        msg@.len() == 3,
        msg@[0] == 0x90,
    ensures
        match pad_command(msg@[1], msg@[2]) {
            Some(slot) => cmd matches Some(SeqCmd::ToggleSlot(n)) && n == slot,
            None => cmd is None,
        },
{
    let nn = msg[1];
    let vel = msg[2];
    let row: u8 = (nn & 0xF0) >> 4;
    let col: u8 = nn & 0x0F;
    let hit = vel != 0;
    assert(row <= 15 && col <= 15) by (bit_vector)
        requires
            row == (nn & 0xF0) >> 4,
            col == nn & 0x0F,
    ;
    if col == 8 {
        None
    } else {
        let slot: u8 = (row * 8) + col;
        if hit {
            Some(SeqCmd::ToggleSlot(slot as usize))
        } else {
            None
        }
    }
}

} // verus!
