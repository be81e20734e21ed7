use crate::breakpoints::{spec_trap_word, Breakpoints};
use crate::traces::{bump_address, TraceMap};
use vstd::prelude::*;

verus! {

/// Where the tracing of one child process stands.
#[derive(Clone, Copy, Debug, PartialEq, Eq, Structural)]
pub enum TestState {
    /// The child was started and has not yet stopped after replacing its image.
    Init,
    /// The traps are planted and the child runs.
    Running,
    /// The child is gone; its exit code.
    End(i32),
}

/// What waiting on the child reported.
#[derive(Clone, Copy, Debug, PartialEq, Eq, Structural)]
pub enum WaitEvent {
    /// Stopped by a trap; the instruction pointer at the stop.
    Trapped(u64),
    /// Stopped by another signal, which is to be delivered.
    Stopped(i32),
    /// Exited with this code.
    Exited(i32),
    /// Killed by this signal.
    Signaled(i32),
    /// Any other state change.
    Other,
}

/// What the tracer is to do to the child before waiting again.
#[derive(Clone, Copy, Debug, PartialEq, Eq, Structural)]
pub enum TraceAction {
    /// Plant the traps (see `TracerData::plant_all`), then resume.
    PlantAll,
    /// Resume, delivering the signal if there is one.
    Resume(Option<i32>),
    /// Write `original` back at `address`, move the instruction pointer back
    /// to `address` and resume.
    Rewind { address: u64, original: u64 },
    /// Nothing more: the child is gone.
    Finish,
}

/// The exit code of a child killed by signal `sig`, as a shell reports it.
pub open spec fn spec_signal_exit_code(sig: i32) -> i32 {
    if 0 < sig < 128 {
        (128 + sig) as i32
    } else {
        128
    }
}

/// The exit code of a child killed by signal `sig`: never 0.
pub fn signal_exit_code(sig: i32) -> (r: i32)
    ensures
        r == spec_signal_exit_code(sig),
        r != 0,
{
    if 0 < sig && sig < 128 {
        128 + sig
    } else {
        128
    }
}

impl TestState {
    /// Whether the child is gone.
    pub fn is_finished(&self) -> (r: bool)
        ensures
            r == (*self is End),
    {
        match self {
            TestState::End(_) => true,
            _ => false,
        }
    }
}

/// Everything that tracing one child owns: the coverage being collected, the
/// planted traps, the addresses to instrument and those that could not be.
#[derive(Debug)]
pub struct TracerData {
    pub traces: TraceMap,
    pub breakpoints: Breakpoints,
    pub addresses: Vec<u64>,
    pub failed: Vec<u64>,
}

/// The addresses `addresses[i]` whose word `originals[i]` could not be read.
pub open spec fn failed_addresses(addresses: Seq<u64>, originals: Seq<Option<u64>>) -> Seq<u64>
    decreases addresses.len(),
{
    if addresses.len() == 0 || originals.len() == 0 {
        Seq::empty()
    } else {
        let rest = failed_addresses(addresses.drop_last(), originals.drop_last());
        if originals.last() is None {
            rest.push(addresses.last())
        } else {
            rest
        }
    }
}

/// `originals[i]` is the first word read at `addresses[i]`.
pub open spec fn first_read(addresses: Seq<u64>, originals: Seq<Option<u64>>, i: int) -> bool {
    &&& originals[i] is Some
    &&& forall|j: int| 0 <= j < i ==> addresses[j] != addresses[i] || originals[j] is None
}

impl TracerData {
    /// Tracing state for a child to be instrumented at `addresses`, whose
    /// hits go into `traces`.
    pub fn new(traces: TraceMap, addresses: Vec<u64>) -> (r: TracerData)
        ensures
            r.traces == traces,
            r.addresses@ == addresses@,
            r.breakpoints@ == Map::<u64, u64>::empty(),
            r.failed@.len() == 0,
    {
        TracerData { traces, breakpoints: Breakpoints::new(), addresses, failed: Vec::new() }
    }

    /// Plants a trap at each address to instrument. `originals[i]` is the
    /// word read at `addresses[i]`, or `None` where it could not be read; such
    /// an address is recorded as failed and the others are planted. Returns
    /// the words to write, by address.
    pub fn plant_all(&mut self, originals: &Vec<Option<u64>>) -> (writes: Vec<(u64, u64)>)
        requires
            originals@.len() == old(self).addresses@.len(),
        ensures
            final(self).traces == old(self).traces,
            final(self).addresses@ == old(self).addresses@,
            final(self).breakpoints@.dom() == old(self).breakpoints@.dom() + Set::new(
                |a: u64|
                    exists|i: int|
                        0 <= i < originals@.len() && originals@[i] is Some
                            && #[trigger] old(self).addresses@[i] == a,
            ),
            forall|a: u64| #[trigger]
                old(self).breakpoints@.contains_key(a) ==> final(self).breakpoints@[a]
                    == old(self).breakpoints@[a],
            forall|i: int|
                0 <= i < originals@.len() && #[trigger] first_read(old(self).addresses@, originals@, i)
                    && !old(self).breakpoints@.contains_key(old(self).addresses@[i])
                    ==> final(self).breakpoints@[old(self).addresses@[i]] == originals@[i]->0,
            forall|j: int|
                0 <= j < writes@.len() ==> final(self).breakpoints@.contains_key(
                    (#[trigger] writes@[j]).0,
                ) && writes@[j].1 == spec_trap_word(final(self).breakpoints@[writes@[j].0]),
            forall|i: int|
                0 <= i < originals@.len() && #[trigger] originals@[i] is Some ==> exists|j: int|
                    0 <= j < writes@.len() && (#[trigger] writes@[j]).0 == old(self).addresses@[i],
            final(self).failed@ == old(self).failed@ + failed_addresses(
                old(self).addresses@,
                originals@,
            ),
    {
        let mut writes: Vec<(u64, u64)> = Vec::new();
        let n = self.addresses.len();
        let mut i: usize = 0;
        while i < n
            invariant
                n == self.addresses@.len(),
                n == originals@.len(),
                self.traces == old(self).traces,
                self.addresses@ == old(self).addresses@,
                i <= n,
                self.breakpoints@.dom() == old(self).breakpoints@.dom() + Set::new(
                    |a: u64|
                        exists|k: int|
                            0 <= k < i && originals@[k] is Some && #[trigger] old(
                                self,
                            ).addresses@[k] == a,
                ),
                forall|a: u64| #[trigger]
                    old(self).breakpoints@.contains_key(a) ==> self.breakpoints@[a]
                        == old(self).breakpoints@[a],
                forall|k: int|
                    0 <= k < i && #[trigger] first_read(old(self).addresses@, originals@, k)
                        && !old(self).breakpoints@.contains_key(old(self).addresses@[k])
                        ==> self.breakpoints@[old(self).addresses@[k]] == originals@[k]->0,
                forall|j: int|
                    0 <= j < writes@.len() ==> self.breakpoints@.contains_key(
                        (#[trigger] writes@[j]).0,
                    ) && writes@[j].1 == spec_trap_word(self.breakpoints@[writes@[j].0]),
                forall|k: int|
                    0 <= k < i && #[trigger] originals@[k] is Some ==> exists|j: int|
                        0 <= j < writes@.len() && (#[trigger] writes@[j]).0 == old(
                            self,
                        ).addresses@[k],
                self.failed@ == old(self).failed@ + failed_addresses(
                    old(self).addresses@.take(i as int),
                    originals@.take(i as int),
                ),
            decreases n - i,
        {
            let a = self.addresses[i];
            let ghost writes_before = writes@;
            proof {
                let ta = old(self).addresses@.take(i + 1);
                let to = originals@.take(i + 1);
                assert(ta.drop_last() == old(self).addresses@.take(i as int));
                assert(to.drop_last() == originals@.take(i as int));
                assert(ta.last() == a && to.last() == originals@[i as int]);
            }
            match originals[i] {
                Some(w) => {
                    let word = self.breakpoints.plant(a, w);
                    writes.push((a, word));
                    assert(writes@[writes@.len() - 1].0 == a);
                },
                None => {
                    self.failed.push(a);
                },
            }
            assert forall|k: int|
                0 <= k < i + 1 && #[trigger] originals@[k] is Some implies exists|j: int|
                    0 <= j < writes@.len() && (#[trigger] writes@[j]).0 == old(self).addresses@[k] by {
                if k < i {
                    let j = choose|j: int|
                        0 <= j < writes_before.len() && (#[trigger] writes_before[j]).0 == old(
                            self,
                        ).addresses@[k];
                    assert(writes@[j] == writes_before[j]);
                } else {
                    assert(writes@[writes@.len() - 1].0 == old(self).addresses@[k]);
                }
            }
            i = i + 1;
        }
        proof {
            assert(old(self).addresses@.take(n as int) == old(self).addresses@);
            assert(originals@.take(n as int) == originals@);
        }
        writes
    }

    /// Performs one transition: from `state` and what waiting reported, the
    /// next state and the action to take.
    pub fn step(&mut self, state: TestState, event: WaitEvent) -> (r: (TestState, TraceAction))
        requires
            old(self).traces.wf(),
        ensures
            final(self).traces.wf(),
            final(self).addresses@ == old(self).addresses@,
            final(self).failed@ == old(self).failed@,
            match (state, event) {
                (TestState::End(c), _) => {
                    &&& r == (TestState::End(c), TraceAction::Finish)
                    &&& final(self).traces@ == old(self).traces@
                    &&& final(self).breakpoints@ == old(self).breakpoints@
                },
                (_, WaitEvent::Exited(c)) => {
                    &&& r == (TestState::End(c), TraceAction::Finish)
                    &&& final(self).traces@ == old(self).traces@
                    &&& final(self).breakpoints@ == Map::<u64, u64>::empty()
                },
                (_, WaitEvent::Signaled(s)) => {
                    &&& r == (TestState::End(spec_signal_exit_code(s)), TraceAction::Finish)
                    &&& final(self).traces@ == old(self).traces@
                    &&& final(self).breakpoints@ == Map::<u64, u64>::empty()
                },
                (_, WaitEvent::Stopped(s)) => {
                    &&& r == (state, TraceAction::Resume(Some(s)))
                    &&& final(self).traces@ == old(self).traces@
                    &&& final(self).breakpoints@ == old(self).breakpoints@
                },
                (TestState::Init, WaitEvent::Trapped(_)) => {
                    &&& r == (TestState::Running, TraceAction::PlantAll)
                    &&& final(self).traces@ == old(self).traces@
                    &&& final(self).breakpoints@ == old(self).breakpoints@
                },
                (TestState::Running, WaitEvent::Trapped(pc)) => if pc > 0
                    && old(self).breakpoints@.contains_key((pc - 1) as u64) {
                    let a = (pc - 1) as u64;
                    &&& r == (
                        TestState::Running,
                        TraceAction::Rewind { address: a, original: old(self).breakpoints@[a] },
                    )
                    &&& final(self).traces@ == bump_address(old(self).traces@, a)
                    &&& final(self).breakpoints@ == old(self).breakpoints@.remove(a)
                } else {
                    &&& r == (TestState::Running, TraceAction::Resume(None))
                    &&& final(self).traces@ == old(self).traces@
                    &&& final(self).breakpoints@ == old(self).breakpoints@
                },
                (_, _) => {
                    &&& r == (state, TraceAction::Resume(None))
                    &&& final(self).traces@ == old(self).traces@
                    &&& final(self).breakpoints@ == old(self).breakpoints@
                },
            },
    {
        match (state, event) {
            (TestState::End(c), _) => (TestState::End(c), TraceAction::Finish),
            (_, WaitEvent::Exited(c)) => {
                self.breakpoints.clear();
                (TestState::End(c), TraceAction::Finish)
            },
            (_, WaitEvent::Signaled(s)) => {
                self.breakpoints.clear();
                (TestState::End(signal_exit_code(s)), TraceAction::Finish)
            },
            (_, WaitEvent::Stopped(s)) => (state, TraceAction::Resume(Some(s))),
            (TestState::Init, WaitEvent::Trapped(_)) => (TestState::Running, TraceAction::PlantAll),
            (TestState::Running, WaitEvent::Trapped(pc)) => {
                if pc > 0 {
                    let a = pc - 1;
                    match self.breakpoints.restore(a) {
                        Some(original) => {
                            self.traces.record_hit(a);
                            (TestState::Running, TraceAction::Rewind { address: a, original })
                        },
                        None => (TestState::Running, TraceAction::Resume(None)),
                    }
                } else {
                    (TestState::Running, TraceAction::Resume(None))
                }
            },
            (_, _) => (state, TraceAction::Resume(None)),
        }
    }
}

} // verus!
