//! What a slot plays: anything that can say how long it is and which notes
//! start at a given step.

use crate::seq_types::SeqNote;
use std::collections::HashMap;
use vstd::prelude::*;

verus! {

/// A pattern that a slot can play.
pub trait Sequence: Send {
    /// The number of steps after which the pattern repeats.
    open spec fn length(&self) -> usize {
        vstd::pervasive::arbitrary()
    }

    /// The notes that start at `step`, if any do.
    open spec fn notes(&self, step: usize) -> Option<Seq<SeqNote>> {
        vstd::pervasive::arbitrary()
    }

    /// The notes that start at `step`. A pattern may change as it is read,
    /// but never its length.
    fn events(&mut self, step: usize) -> (r: Option<&[SeqNote]>)
        ensures
            match r {
                Some(s) => old(self).notes(step) == Some(s@),
                None => old(self).notes(step).is_none(),
            },
            final(self).length() == old(self).length(),
    ;

    fn len(&self) -> (n: usize)
        ensures
            n == self.length(),
    ;
}

/// A compiled bar as a pattern: a fixed map from step to notes.
#[derive(Debug)]
pub struct MapSeq {
    notes: HashMap<usize, Vec<SeqNote>>,
    len: usize,
}

impl MapSeq {
    /// The pattern of `len` steps with the events `notes`.
    pub closed spec fn of(notes: HashMap<usize, Vec<SeqNote>>, len: usize) -> MapSeq {
        MapSeq { notes, len }
    }

    /// A pattern of `len` steps that has, at each step, the notes that
    /// `notes` has there.
    pub fn new(notes: HashMap<usize, Vec<SeqNote>>, len: usize) -> (r: Self)
        ensures
            r == MapSeq::of(notes, len),
            r.length() == len,
            forall|k: usize|
                r.notes(k) == if notes@.contains_key(k) {
                    Some(notes@[k]@)
                } else {
                    None
                },
    {
        Self { notes, len }
    }
}

impl Sequence for MapSeq {
    closed spec fn length(&self) -> usize {
        self.len
    }

    closed spec fn notes(&self, step: usize) -> Option<Seq<SeqNote>> {
        if self.notes@.contains_key(step) {
            Some(self.notes@[step]@)
        } else {
            None
        }
    }

    fn len(&self) -> usize {
        self.len
    }

    fn events(&mut self, step: usize) -> (r: Option<&[SeqNote]>) {
        match self.notes.get(&step) {
            Some(v) => Some(v.as_slice()),
            None => None,
        }
    }
}

impl From<(usize, HashMap<usize, Vec<SeqNote>>)> for MapSeq {
    fn from(pair: (usize, HashMap<usize, Vec<SeqNote>>)) -> (r: Self) {
        Self::new(pair.1, pair.0)
    }
}

impl vstd::std_specs::convert::FromSpecImpl<(usize, HashMap<usize, Vec<SeqNote>>)> for MapSeq {
    open spec fn obeys_from_spec() -> bool {
        true
    }

    open spec fn from_spec(pair: (usize, HashMap<usize, Vec<SeqNote>>)) -> MapSeq {
        MapSeq::of(pair.1, pair.0)
    }
}

} // verus!
