//! Several cores on one `Once`: the initializer runs exactly once, and the state says
//! when it has.
use vstd::prelude::*;

use crate::machine::Word;
use crate::memory::Memory;
use crate::protocol::Protocol;
use crate::spinlock::{Once, OncePhase, ONCE_DONE, ONCE_RUNNING, ONCE_UNINIT};

verus! {

/// Cores that call one `Once` as `OncePhase` says, each operation taking effect at
/// once.
pub struct OnceSystem {
    /// The word of the `Once`.
    pub mem: Memory,
    /// What each core is about to do.
    pub phases: Seq<OncePhase>,
    /// How often the initializer has run.
    pub runs: nat,
}

impl OnceSystem {
    /// Every core is about to call.
    pub open spec fn init(self) -> bool {
        &&& self.mem.words[Word::OnceState] == ONCE_UNINIT
        &&& forall|i: int| 0 <= i < self.phases.len() ==> (#[trigger] self.phases[i]) is Check
        &&& self.runs == 0
    }

    /// Core `i`, whose call has returned, calls again.
    pub open spec fn recalls(self, next: Self, i: int) -> bool {
        &&& 0 <= i < self.phases.len()
        &&& self.phases[i] is Done
        &&& next == OnceSystem { phases: self.phases.update(i, OncePhase::Check), ..self }
    }

    /// Core `i` performs its next operation.
    pub open spec fn performs(self, next: Self, i: int, reply: u64) -> bool {
        let phase = self.phases[i];
        &&& 0 <= i < self.phases.len()
        &&& !phase.done()
        &&& self.mem.permits(phase.op(), reply)
        &&& next.mem == self.mem.after(phase.op(), reply)
        &&& next.phases == self.phases.update(i, phase.next(reply))
        &&& next.runs == if phase.op() is Initialize {
            self.runs + 1
        } else {
            self.runs
        }
    }

    /// One core does one thing.
    pub open spec fn step(self, next: Self) -> bool {
        ||| exists|i: int| #[trigger] self.recalls(next, i)
        ||| exists|i: int, reply: u64| #[trigger] self.performs(next, i, reply)
    }

    /// What holds after every step.
    pub open spec fn inv(self) -> bool {
        let state = self.mem.words[Word::OnceState];
        &&& state == ONCE_UNINIT || state == ONCE_RUNNING || state == ONCE_DONE
        &&& state == ONCE_UNINIT ==> self.runs == 0
        &&& state == ONCE_DONE ==> self.runs == 1
        &&& forall|i: int|
            0 <= i < self.phases.len() ==> match #[trigger] self.phases[i] {
                OncePhase::Run => state == ONCE_RUNNING && self.runs == 0,
                OncePhase::Publish => state == ONCE_RUNNING && self.runs == 1,
                OncePhase::Done => state == ONCE_DONE,
                _ => true,
            }
        &&& forall|i: int, j: int|
            0 <= i < self.phases.len() && 0 <= j < self.phases.len() && claims(
                #[trigger] self.phases[i],
            ) && claims(#[trigger] self.phases[j]) ==> i == j
        &&& self.runs <= 1
    }
}

/// Whether a core in this phase has claimed the initializer.
pub open spec fn claims(phase: OncePhase) -> bool {
    phase is Run || phase is Publish
}

/// A course of events on one `Once`, from the start.
pub open spec fn once_history(states: Seq<OnceSystem>) -> bool {
    &&& states.len() > 0
    &&& states[0].init()
    &&& forall|k: int|
        0 <= k < states.len() - 1 ==> (#[trigger] states[k]).step(states[k + 1])
}

proof fn lemma_performs(a: OnceSystem, b: OnceSystem, i: int, reply: u64)
    requires
        a.inv(),
        a.performs(b, i, reply),
    ensures
        b.inv(),
{
    let phase = a.phases[i];
    let state = a.mem.words[Word::OnceState];
    if phase is Check || phase is Await {
        assert(reply as u32 == ONCE_DONE ==> state == ONCE_DONE);
    }
    assert forall|k: int| 0 <= k < b.phases.len() implies match #[trigger] b.phases[k] {
        OncePhase::Run => b.mem.words[Word::OnceState] == ONCE_RUNNING && b.runs == 0,
        OncePhase::Publish => b.mem.words[Word::OnceState] == ONCE_RUNNING && b.runs == 1,
        OncePhase::Done => b.mem.words[Word::OnceState] == ONCE_DONE,
        _ => true,
    } by {
        if k != i {
            assert(b.phases[k] == a.phases[k]);
            if claims(phase) {
                assert(claims(a.phases[i]));
                assert(!claims(a.phases[k]));
            }
        }
    }
    assert forall|x: int, y: int|
        0 <= x < b.phases.len() && 0 <= y < b.phases.len() && claims(#[trigger] b.phases[x])
            && claims(#[trigger] b.phases[y]) implies x == y by {
        if x != i {
            assert(b.phases[x] == a.phases[x]);
        }
        if y != i {
            assert(b.phases[y] == a.phases[y]);
        }
        if x == i && y != i {
            assert(claims(phase) || state == ONCE_UNINIT);
        }
        if y == i && x != i {
            assert(claims(phase) || state == ONCE_UNINIT);
        }
    }
}

proof fn lemma_reachable(states: Seq<OnceSystem>, k: int)
    requires
        once_history(states),
        0 <= k < states.len(),
    ensures
        states[k].inv(),
    decreases k,
{
    if k > 0 {
        lemma_reachable(states, k - 1);
        let a = states[k - 1];
        let b = states[k];
        assert(a.step(b));
        if exists|i: int, reply: u64| #[trigger] a.performs(b, i, reply) {
            let (i, reply) = choose|i: int, reply: u64| #[trigger] a.performs(b, i, reply);
            lemma_performs(a, b, i, reply);
        }
    }
}

/// The initializer never runs twice, and where a call has returned it has run
/// exactly once.
pub proof fn law_once(states: Seq<OnceSystem>, k: int)
    requires
        once_history(states),
        0 <= k < states.len(),
    ensures
        states[k].runs <= 1,
        forall|i: int|
            0 <= i < states[k].phases.len() && (#[trigger] states[k].phases[i]) is Done
                ==> states[k].runs == 1,
{
    lemma_reachable(states, k);
}

/// The state, which a look whether initialization has completed reads, says `ONCE_DONE`
/// only once the initializer has run, and wherever a call has returned; and from the
/// first time it says so it goes on to.
pub proof fn law_once_completed(states: Seq<OnceSystem>, j: int, k: int)
    requires
        once_history(states),
        0 <= j <= k < states.len(),
    ensures
        states[k].mem.words[Word::OnceState] == ONCE_DONE ==> states[k].runs == 1,
        forall|i: int|
            0 <= i < states[k].phases.len() && (#[trigger] states[k].phases[i]) is Done
                ==> states[k].mem.words[Word::OnceState] == ONCE_DONE,
        states[j].mem.words[Word::OnceState] == ONCE_DONE
            ==> states[k].mem.words[Word::OnceState] == ONCE_DONE,
    decreases k - j,
{
    lemma_reachable(states, k);
    if j < k {
        law_once_completed(states, j, k - 1);
        lemma_reachable(states, k - 1);
        let a = states[k - 1];
        let b = states[k];
        assert(a.step(states[k - 1 + 1]));
        if exists|i: int, reply: u64| #[trigger] a.performs(b, i, reply) {
            let (i, reply) = choose|i: int, reply: u64| #[trigger] a.performs(b, i, reply);
            if a.mem.words[Word::OnceState] == ONCE_DONE {
                assert(!(a.phases[i] is Run));
                assert(!(a.phases[i] is Publish));
            }
        }
    }
}

/// A word that holds what a new `Once` starts with, while every core is about to call and
/// the initializer has not run, is where a course of events starts.
pub proof fn law_once_new(once: Once, system: OnceSystem)
    requires
        once == Once::unused(),
        system.mem.words[Word::OnceState] == once.state,
        forall|i: int| 0 <= i < system.phases.len() ==> (#[trigger] system.phases[i]) is Check,
        system.runs == 0,
    ensures
        system.init(),
{
}

} // verus!
