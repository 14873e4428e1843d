//! The environment: a stack of scopes that bind names to values, and the
//! runtime that commands are handed to.

use crate::seq_types::{lanes, SeqNote, Val, ValView};
use crate::{Command, Runtime};
use std::collections::HashMap;
use vstd::prelude::*;
use vstd::string::StringSliceAdditionalSpecFns;

verus! {

/// A name with the value bound to it.
#[derive(Debug)]
pub struct Binding {
    pub name: Vec<u8>,
    pub val: Val,
}

/// The index of the first of `bs` that binds `name`; the length of `bs` if
/// none does.
pub open spec fn index_of(bs: Seq<Binding>, name: Seq<u8>) -> int
    decreases bs.len(),
{
    if bs.len() == 0 {
        0
    } else if bs[0].name@ == name {
        0
    } else {
        1 + index_of(bs.drop_first(), name)
    }
}

/// The bindings of one scope as a map from name to value.
pub open spec fn scope_map(bs: Seq<Binding>) -> Map<Seq<u8>, ValView> {
    Map::new(
        |n: Seq<u8>| index_of(bs, n) < bs.len(),
        |n: Seq<u8>| bs[index_of(bs, n)].val@,
    )
}

/// The value that `name` has in the first `n` of `scopes`: that of the
/// innermost of them that binds it.
pub open spec fn find_in(scopes: Seq<Map<Seq<u8>, ValView>>, name: Seq<u8>, n: nat) -> Option<
    ValView,
>
    decreases n,
{
    if n == 0 || n > scopes.len() {
        None
    } else if scopes[n - 1].contains_key(name) {
        Some(scopes[n - 1][name])
    } else {
        find_in(scopes, name, (n - 1) as nat)
    }
}

/// An environment as plain mathematics.
pub struct EnvView {
    /// The scopes, outermost first.
    pub scopes: Seq<Map<Seq<u8>, ValView>>,
    /// What has been asked of the runtime, oldest first.
    pub log: Seq<Command>,
}

impl EnvView {
    /// There is always a scope, and every value bound is valid.
    pub open spec fn wf(self) -> bool {
        &&& self.scopes.len() >= 1
        &&& forall|i: int, n: Seq<u8>|
            0 <= i < self.scopes.len() && #[trigger] self.scopes[i].contains_key(n)
                ==> self.scopes[i][n].wf()
    }

    /// The value of `name`: that of the innermost scope that binds it.
    pub open spec fn lookup(self, name: Seq<u8>) -> Option<ValView> {
        find_in(self.scopes, name, self.scopes.len())
    }

    /// With `name` bound to `val` in the innermost scope.
    pub open spec fn set(self, name: Seq<u8>, val: ValView) -> EnvView {
        EnvView {
            scopes: self.scopes.update(
                self.scopes.len() - 1,
                self.scopes[self.scopes.len() - 1].insert(name, val),
            ),
            log: self.log,
        }
    }

    /// With a new, empty innermost scope.
    pub open spec fn step_in(self) -> EnvView {
        EnvView { scopes: self.scopes.push(Map::empty()), log: self.log }
    }

    /// Without the innermost scope.
    pub open spec fn step_out(self) -> EnvView {
        EnvView { scopes: self.scopes.drop_last(), log: self.log }
    }

    /// With one more request made of the runtime.
    pub open spec fn asked(self, c: Command) -> EnvView {
        EnvView { scopes: self.scopes, log: self.log.push(c) }
    }
}

/// What is found is valid, in a well-formed environment.
pub proof fn lemma_lookup_wf(e: EnvView, name: Seq<u8>)
    requires
        e.wf(),
    ensures
        e.lookup(name) matches Some(v) ==> v.wf(),
{
    lemma_find_in_wf(e, name, e.scopes.len());
}

proof fn lemma_find_in_wf(e: EnvView, name: Seq<u8>, n: nat)
    requires
        e.wf(),
        n <= e.scopes.len(),
    ensures
        find_in(e.scopes, name, n) matches Some(v) ==> v.wf(),
    decreases n,
{
    if n > 0 && !e.scopes[n - 1].contains_key(name) {
        lemma_find_in_wf(e, name, (n - 1) as nat);
    }
}

/// A name has the value it was bound to last, and binding it changes the
/// value of no other name.
pub proof fn law_set_then_lookup(e: EnvView, name: Seq<u8>, val: ValView, other: Seq<u8>)
    requires
        e.scopes.len() >= 1,
    ensures
        e.set(name, val).lookup(name) == Some(val),
        other != name ==> e.set(name, val).lookup(other) == e.lookup(other),
{
    let after = e.set(name, val);
    let top = e.scopes.len() - 1;
    if other != name {
        assert(after.scopes[top].contains_key(other) == e.scopes[top].contains_key(other));
        lemma_find_in_same(after.scopes, e.scopes, other, top as nat);
    }
}

proof fn lemma_find_in_same(
    a: Seq<Map<Seq<u8>, ValView>>,
    b: Seq<Map<Seq<u8>, ValView>>,
    name: Seq<u8>,
    n: nat,
)
    requires
        n <= a.len(),
        n <= b.len(),
        forall|i: int| 0 <= i < n ==> a[i] == b[i],
    ensures
        find_in(a, name, n) == find_in(b, name, n),
    decreases n,
{
    if n > 0 {
        lemma_find_in_same(a, b, name, (n - 1) as nat);
    }
}

/// What is bound inside a scope is gone when the scope is closed, and what
/// was bound outside is as it was: a name bound inside hides the same name
/// outside only while the scope is open.
pub proof fn law_scope_is_local(e: EnvView, name: Seq<u8>, val: ValView, other: Seq<u8>)
    requires
        e.scopes.len() >= 1,
    ensures
        e.step_in().step_out() == e,
        e.step_in().set(name, val).step_out() == e,
        e.step_in().set(name, val).lookup(name) == Some(val),
        e.step_in().lookup(other) == e.lookup(other),
{
    assert(e.step_in().step_out().scopes =~= e.scopes);
    assert(e.step_in().set(name, val).step_out().scopes =~= e.scopes);
    lemma_find_in_same(e.step_in().scopes, e.scopes, other, e.scopes.len());
}

/// The scopes of a program and the runtime that its commands go to.
#[derive(Debug)]
pub struct Env<T> {
    stack: Vec<Vec<Binding>>,
    rt: T,
}

impl<T: Runtime> View for Env<T> {
    type V = EnvView;

    closed spec fn view(&self) -> EnvView {
        EnvView {
            scopes: Seq::new(self.stack@.len(), |i: int| scope_map(self.stack@[i]@)),
            log: self.rt.log(),
        }
    }
}

/// Whether two byte strings are the same.
fn same_bytes(a: &[u8], b: &[u8]) -> (r: bool)
    ensures
        r == (a@ == b@),
{
    if a.len() != b.len() {
        return false;
    }
    let mut i: usize = 0;
    while i < a.len()
        invariant
            a@.len() == b@.len(),
            i <= a@.len(),
            forall|j: int| 0 <= j < i ==> a@[j] == b@[j],
        decreases a.len() - i,
    {
        if a[i] != b[i] {
            return false;
        }
        i = i + 1;
    }
    assert(a@ =~= b@);
    true
}

/// The index of the first of `bs` that binds `name`; the length of `bs` if
/// none does.
fn position(bs: &Vec<Binding>, name: &[u8]) -> (r: usize)
    ensures
        r == index_of(bs@, name@),
        r <= bs@.len(),
{
    let mut i: usize = 0;
    assert(bs@.subrange(0, bs@.len() as int) =~= bs@);
    while i < bs.len()
        invariant
            i <= bs@.len(),
            index_of(bs@, name@) == i + index_of(bs@.subrange(i as int, bs@.len() as int), name@),
        decreases bs.len() - i,
    {
        let ghost rest = bs@.subrange(i as int, bs@.len() as int);
        assert(rest[0] == bs@[i as int]);
        if same_bytes(bs[i].name.as_slice(), name) {
            return i;
        }
        assert(rest.drop_first() =~= bs@.subrange(i + 1, bs@.len() as int));
        i = i + 1;
    }
    assert(bs@.subrange(i as int, bs@.len() as int).len() == 0);
    i
}

proof fn lemma_index_of_bounds(bs: Seq<Binding>, name: Seq<u8>)
    ensures
        0 <= index_of(bs, name) <= bs.len(),
        index_of(bs, name) < bs.len() ==> bs[index_of(bs, name)].name@ == name,
        forall|j: int| 0 <= j < index_of(bs, name) ==> (#[trigger] bs[j]).name@ != name,
    decreases bs.len(),
{
    if bs.len() > 0 && bs[0].name@ != name {
        lemma_index_of_bounds(bs.drop_first(), name);
        assert forall|j: int| 0 <= j < index_of(bs, name) implies (#[trigger] bs[j]).name@
            != name by {
            if j > 0 {
                assert(bs[j] == bs.drop_first()[j - 1]);
            }
        }
    }
}

/// The index of a name is the first index at which it stands.
proof fn lemma_index_of_is(bs: Seq<Binding>, name: Seq<u8>, i: int)
    requires
        0 <= i <= bs.len(),
        forall|j: int| 0 <= j < i ==> (#[trigger] bs[j]).name@ != name,
        i < bs.len() ==> bs[i].name@ == name,
    ensures
        index_of(bs, name) == i,
    decreases bs.len(),
{
    if bs.len() > 0 && i > 0 {
        assert(bs[0].name@ != name);
        let rest = bs.drop_first();
        assert forall|j: int| 0 <= j < i - 1 implies (#[trigger] rest[j]).name@ != name by {
            assert(rest[j] == bs[j + 1]);
        }
        lemma_index_of_is(rest, name, i - 1);
    }
}

impl<T: Runtime> Env<T> {
    /// An environment with one empty scope, over the runtime `rt`.
    pub fn new(rt: T) -> (r: Self)
        ensures
            r@ == (EnvView { scopes: seq![Map::<Seq<u8>, ValView>::empty()], log: rt.log() }),
            r@.wf(),
    {
        let mut stack: Vec<Vec<Binding>> = Vec::new();
        stack.push(Vec::new());
        let r = Env { stack, rt };
        assert(r@.scopes[0] =~= Map::<Seq<u8>, ValView>::empty());
        assert(r@.scopes =~= seq![Map::<Seq<u8>, ValView>::empty()]);
        r
    }

    /// The value bound to the name `nm`, looked for from the innermost
    /// scope outwards.
    pub fn lookup(&self, nm: &str) -> (r: Option<&Val>)
        ensures
            match r {
                Some(v) => self@.lookup(nm.spec_bytes()) == Some(v@),
                None => self@.lookup(nm.spec_bytes()).is_none(),
            },
    {
        self.find(nm.as_bytes())
    }

    /// `lookup` for a name given as bytes.
    pub fn find(&self, nm: &[u8]) -> (r: Option<&Val>)
        ensures
            match r {
                Some(v) => self@.lookup(nm@) == Some(v@),
                None => self@.lookup(nm@).is_none(),
            },
    {
        let mut n: usize = self.stack.len();
        while n > 0
            invariant
                n <= self.stack@.len(),
                self@.lookup(nm@) == find_in(self@.scopes, nm@, n as nat),
            decreases n,
        {
            let scope = &self.stack[n - 1];
            let i = position(scope, nm);
            if i < scope.len() {
                return Some(&scope[i].val);
            }
            n = n - 1;
        }
        None
    }

    /// Opens a new innermost scope.
    pub fn step_in(&mut self)
        ensures
            final(self)@ == old(self)@.step_in(),
    {
        self.stack.push(Vec::new());
        assert(scope_map(Seq::<Binding>::empty()) =~= Map::<Seq<u8>, ValView>::empty());
        assert(self@.scopes =~= old(self)@.step_in().scopes);
    }

    /// Closes the innermost scope. The outermost scope is never closed.
    pub fn step_out(&mut self)
        requires
            old(self)@.scopes.len() >= 2,
        ensures
            final(self)@ == old(self)@.step_out(),
    {
        self.stack.pop();
        assert(self@.scopes =~= old(self)@.step_out().scopes);
    }

    /// Binds the name `nm` to `val` in the innermost scope, in place of what
    /// it was bound to there.
    pub fn set(&mut self, nm: &str, val: Val)
        requires
            old(self)@.scopes.len() >= 1,
        ensures
            final(self)@ == old(self)@.set(nm.spec_bytes(), val@),
    {
        self.bind(nm.as_bytes(), val)
    }

    /// `set` for a name given as bytes.
    pub fn bind(&mut self, nm: &[u8], val: Val)
        requires
            old(self)@.scopes.len() >= 1,
        ensures
            final(self)@ == old(self)@.set(nm@, val@),
    {
        let top = self.stack.len() - 1;
        let ghost before = self.stack@[top as int]@;
        let i = position(&self.stack[top], nm);
        proof {
            lemma_index_of_bounds(before, nm@);
        }
        if i < self.stack[top].len() {
            self.stack[top][i].val = val;
        } else {
            let name = vstd::slice::slice_to_vec(nm);
            self.stack[top].push(Binding { name, val });
        }
        proof {
            let after = self.stack@[top as int]@;
            assert(self.stack@.len() == old(self).stack@.len());
            assert(forall|j: int|
                0 <= j < self.stack@.len() && j != top ==> self.stack@[j] == old(self).stack@[j]);
            if i < before.len() {
                assert(after.len() == before.len());
                assert(forall|j: int|
                    0 <= j < before.len() ==> (#[trigger] after[j]).name == before[j].name);
                assert(forall|j: int|
                    0 <= j < before.len() && j != i ==> (#[trigger] after[j]).val == before[j].val);
                assert(after[i as int].val == val);
            } else {
                assert(after =~= before.push(after[before.len() as int]));
                assert(after[before.len() as int].name@ == nm@);
                assert(after[before.len() as int].val == val);
            }
            assert forall|k: Seq<u8>|
                index_of(after, k) < after.len() <==> (index_of(before, k) < before.len() || k
                    == nm@) by {
                lemma_index_of_bounds(before, k);
                lemma_index_of_bounds(after, k);
                if index_of(before, k) < before.len() {
                    lemma_index_of_is(after, k, index_of(before, k));
                } else if k == nm@ {
                    lemma_index_of_is(after, k, before.len() as int);
                } else {
                    lemma_index_of_is(after, k, after.len() as int);
                }
            }
            assert forall|k: Seq<u8>| index_of(after, k) < after.len() implies after[index_of(
                after,
                k,
            )].val@ == (if k == nm@ {
                val@
            } else {
                before[index_of(before, k)].val@
            }) by {
                lemma_index_of_bounds(before, k);
                lemma_index_of_bounds(after, k);
                if index_of(before, k) < before.len() {
                    lemma_index_of_is(after, k, index_of(before, k));
                } else if k == nm@ {
                    lemma_index_of_is(after, k, before.len() as int);
                }
            }
            assert(scope_map(after) =~= scope_map(before).insert(nm@, val@));
            assert(self@.scopes =~= old(self)@.set(nm@, val@).scopes);
        }
    }

    /// Asks the runtime to give slot `snum` the bar of `len` steps with the events `evs`.
    pub fn assign_slot(&mut self, snum: usize, len: usize, evs: HashMap<usize, Vec<SeqNote>>)
        ensures
            final(self)@ == old(self)@.asked(Command::AssignSlot(snum, len, lanes(evs@))),
    {
        self.rt.assign_slot(snum, len, evs);
    }

    /// Asks the runtime to set the tempo.
    pub fn set_bpm(&mut self, bpm_num: usize)
        ensures
            final(self)@ == old(self)@.asked(Command::SetBpm(bpm_num)),
    {
        self.rt.set_bpm(bpm_num);
    }

    /// Asks the runtime to set how many ticks make a step of `slot`.
    pub fn set_div(&mut self, slot: usize, div_num: usize)
        ensures
            final(self)@ == old(self)@.asked(Command::SetDiv(slot, div_num)),
    {
        self.rt.set_div(slot, div_num);
    }

    /// Asks the runtime to set the sync quantum of `slot`.
    pub fn set_sync(&mut self, slot: usize, sync_num: usize)
        ensures
            final(self)@ == old(self)@.asked(Command::SetSync(slot, sync_num)),
    {
        self.rt.set_sync(slot, sync_num);
    }

    /// Asks the runtime to start a slot.
    pub fn play_slot(&mut self, slot_num: usize)
        ensures
            final(self)@ == old(self)@.asked(Command::PlaySlot(slot_num)),
    {
        self.rt.play_slot(slot_num);
    }

    /// Asks the runtime to stop a slot.
    pub fn stop_slot(&mut self, slot_num: usize)
        ensures
            final(self)@ == old(self)@.asked(Command::StopSlot(slot_num)),
    {
        self.rt.stop_slot(slot_num)
    }

    /// Asks the runtime to list the outputs there are.
    pub fn list_outs(&mut self)
        ensures
            final(self)@ == old(self)@.asked(Command::ListOuts),
    {
        self.rt.list_outs()
    }

    /// Asks the runtime to list the grid controllers there are.
    pub fn list_lps(&mut self)
        ensures
            final(self)@ == old(self)@.asked(Command::ListLps),
    {
        self.rt.list_lps()
    }

    /// Asks the runtime to open output `out_num` on MIDI channel `channel`.
    pub fn open_out(&mut self, out_num: usize, channel: u8)
        ensures
            final(self)@ == old(self)@.asked(Command::OpenOut(out_num, channel)),
    {
        self.rt.open_out(out_num, channel)
    }

    /// Asks the runtime to assign `slot` to the output `output`.
    pub fn set_output(&mut self, slot: usize, output: usize)
        ensures
            final(self)@ == old(self)@.asked(Command::SetOutput(slot, output)),
    {
        self.rt.set_output(slot, output)
    }

    /// Asks the runtime to open grid controller `lp_num`.
    pub fn open_lp(&mut self, lp_num: usize)
        ensures
            final(self)@ == old(self)@.asked(Command::OpenLp(lp_num)),
    {
        self.rt.open_lp(lp_num)
    }

    /// The number of scopes that are open.
    pub fn depth(&self) -> (n: usize)
        ensures
            n == self@.scopes.len(),
    {
        self.stack.len()
    }

    /// The runtime.
    pub fn runtime(&self) -> (r: &T)
        ensures
            r.log() == self@.log,
    {
        &self.rt
    }
}

} // verus!
