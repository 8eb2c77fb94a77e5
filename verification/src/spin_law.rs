//! Several cores on one spin lock: mutual exclusion, and interrupts while it is held.
use vstd::prelude::*;

use crate::machine::{Op, Word};
use crate::memory::Memory;
use crate::protocol::Protocol;
use crate::spinlock::{flag_set, restore_op, SpinLock, SpinPhase};

verus! {

/// Cores that go about one spin lock as `SpinPhase` says, each operation taking
/// effect at once.
pub struct SpinSystem {
    /// The word of the lock.
    pub mem: Memory,
    /// What each core is about to do.
    pub phases: Seq<SpinPhase>,
    /// Whether interrupts are enabled on each core.
    pub enabled: Seq<bool>,
    /// Whether they were when the core last set out for the lock, or chose since.
    pub previous: Seq<bool>,
}

/// Whether a core in this phase holds the lock.
pub open spec fn holds(phase: SpinPhase) -> bool {
    phase is Held || phase is Release
}

/// Whether interrupts are enabled on a core after an operation of it.
pub open spec fn enabled_after(enabled: bool, op: Op) -> bool {
    match op {
        Op::Cli => false,
        Op::Sti => true,
        _ => enabled,
    }
}

impl SpinSystem {
    /// Nobody has used the lock yet.
    pub open spec fn init(self) -> bool {
        &&& self.mem.words[Word::Locked] == 0
        &&& self.enabled.len() == self.phases.len()
        &&& self.previous == self.enabled
        &&& forall|i: int| 0 <= i < self.phases.len() ==> (#[trigger] self.phases[i]) is Idle
    }

    /// Core `i` sets out to acquire the lock, to try to, or to release it.
    pub open spec fn begins(self, next: Self, i: int, phase: SpinPhase) -> bool {
        &&& 0 <= i < self.phases.len()
        &&& match phase {
            SpinPhase::Flags => self.phases[i] is Idle,
            SpinPhase::TryFlags => self.phases[i] is Idle,
            SpinPhase::Release { was } => self.phases[i] == (SpinPhase::Held { was }),
            _ => false,
        }
        &&& next == SpinSystem { phases: self.phases.update(i, phase), ..self }
    }

    /// Core `i`, which has nothing to do with the lock, enables or disables interrupts.
    pub open spec fn switches(self, next: Self, i: int, enabled: bool) -> bool {
        &&& 0 <= i < self.phases.len()
        &&& self.phases[i] is Idle
        &&& next == SpinSystem {
            enabled: self.enabled.update(i, enabled),
            previous: self.previous.update(i, enabled),
            ..self
        }
    }

    /// Core `i` performs its next operation.
    pub open spec fn performs(self, next: Self, i: int, reply: u64) -> bool {
        let phase = self.phases[i];
        &&& 0 <= i < self.phases.len()
        &&& !phase.done()
        &&& self.mem.permits(phase.op(), reply)
        &&& phase.op() is ReadFlags ==> flag_set(reply) == self.enabled[i]
        &&& next.mem == self.mem.after(phase.op(), reply)
        &&& next.phases == self.phases.update(i, phase.next(reply))
        &&& next.enabled == self.enabled.update(i, enabled_after(self.enabled[i], phase.op()))
        &&& next.previous == self.previous
    }

    /// One core does one thing.
    pub open spec fn step(self, next: Self) -> bool {
        ||| exists|i: int, phase: SpinPhase| #[trigger] self.begins(next, i, phase)
        ||| exists|i: int, enabled: bool| #[trigger] self.switches(next, i, enabled)
        ||| exists|i: int, reply: u64| #[trigger] self.performs(next, i, reply)
    }

    /// What holds after every step.
    pub open spec fn inv(self) -> bool {
        &&& self.enabled.len() == self.phases.len()
        &&& self.previous.len() == self.phases.len()
        &&& self.exclusive()
        &&& self.held() <==> self.mem.words[Word::Locked] != 0
        &&& forall|i: int|
            0 <= i < self.phases.len() ==> tracked_interrupts(
                #[trigger] self.phases[i],
                self.enabled[i],
                self.previous[i],
            )
    }

    /// Whether some core holds the lock.
    pub open spec fn held(self) -> bool {
        exists|i: int| 0 <= i < self.phases.len() && holds(#[trigger] self.phases[i])
    }

    /// At most one core holds the lock.
    pub open spec fn exclusive(self) -> bool {
        forall|i: int, j: int|
            0 <= i < self.phases.len() && 0 <= j < self.phases.len() && holds(
                #[trigger] self.phases[i],
            ) && holds(#[trigger] self.phases[j]) ==> i == j
    }
}

/// How interrupts and the remembered flag of a core go with its phase.
pub open spec fn tracked_interrupts(phase: SpinPhase, enabled: bool, previous: bool) -> bool {
    match phase {
        SpinPhase::Idle => enabled == previous,
        SpinPhase::Flags => enabled == previous,
        SpinPhase::TryFlags => enabled == previous,
        SpinPhase::Disable { was } => enabled == previous && was == previous,
        SpinPhase::TryDisable { was } => enabled == previous && was == previous,
        SpinPhase::Acquire { was } => !enabled && was == previous,
        SpinPhase::Watch { was } => !enabled && was == previous,
        SpinPhase::Pause { was } => !enabled && was == previous,
        SpinPhase::TryAcquire { was } => !enabled && was == previous,
        SpinPhase::Held { was } => !enabled && was == previous,
        SpinPhase::Release { was } => !enabled && was == previous,
        SpinPhase::Restore { was } => !enabled && was == previous,
    }
}

/// A course of events on one lock, from the start.
pub open spec fn spin_history(states: Seq<SpinSystem>) -> bool {
    &&& states.len() > 0
    &&& states[0].init()
    &&& forall|k: int|
        0 <= k < states.len() - 1 ==> (#[trigger] states[k]).step(states[k + 1])
}

proof fn lemma_begins(a: SpinSystem, b: SpinSystem, i: int, phase: SpinPhase)
    requires
        a.inv(),
        a.begins(b, i, phase),
    ensures
        b.inv(),
{
    assert(holds(phase) == holds(a.phases[i]));
    lemma_held_others(a, b, i);
}

/// Whether the lock is held, where the other cores stay as they were.
proof fn lemma_held_others(a: SpinSystem, b: SpinSystem, i: int)
    requires
        0 <= i < a.phases.len(),
        a.exclusive(),
        b.phases == a.phases.update(i, b.phases[i]),
    ensures
        holds(a.phases[i]) ==> a.held() && b.held() == holds(b.phases[i]),
        !holds(a.phases[i]) ==> b.held() == (a.held() || holds(b.phases[i])),
{
    assert(holds(b.phases[i]) ==> b.held());
    if a.held() {
        let x = choose|x: int| 0 <= x < a.phases.len() && holds(#[trigger] a.phases[x]);
        assert(x != i ==> holds(b.phases[x]));
    }
    if b.held() {
        let x = choose|x: int| 0 <= x < b.phases.len() && holds(#[trigger] b.phases[x]);
        assert(x != i ==> holds(a.phases[x]));
    }
}

proof fn lemma_performs(a: SpinSystem, b: SpinSystem, i: int, reply: u64)
    requires
        a.inv(),
        a.performs(b, i, reply),
    ensures
        b.inv(),
{
    let phase = a.phases[i];
    let after = phase.next(reply);
    assert(tracked_interrupts(phase, a.enabled[i], a.previous[i]));
    assert forall|k: int| 0 <= k < b.phases.len() implies tracked_interrupts(
        #[trigger] b.phases[k],
        b.enabled[k],
        b.previous[k],
    ) by {
        if k != i {
            assert(b.phases[k] == a.phases[k]);
        }
    }
    assert(b.exclusive()) by {
        assert forall|x: int, y: int|
            0 <= x < b.phases.len() && 0 <= y < b.phases.len() && holds(#[trigger] b.phases[x])
                && holds(#[trigger] b.phases[y]) implies x == y by {
            if x != i && y != i {
                assert(holds(a.phases[x]) && holds(a.phases[y]));
            } else if x != y {
                let other = if x == i {
                    y
                } else {
                    x
                };
                assert(holds(a.phases[other]));
            }
        }
    }
    lemma_held_others(a, b, i);
}

proof fn lemma_reachable(states: Seq<SpinSystem>, k: int)
    requires
        spin_history(states),
        0 <= k < states.len(),
    ensures
        states[k].inv(),
    decreases k,
{
    if k > 0 {
        lemma_reachable(states, k - 1);
        let a = states[k - 1];
        let b = states[k];
        assert(a.step(b));
        if exists|i: int, phase: SpinPhase| #[trigger] a.begins(b, i, phase) {
            let (i, phase) = choose|i: int, phase: SpinPhase| #[trigger] a.begins(b, i, phase);
            lemma_begins(a, b, i, phase);
        } else if exists|i: int, reply: u64| #[trigger] a.performs(b, i, reply) {
            let (i, reply) = choose|i: int, reply: u64| #[trigger] a.performs(b, i, reply);
            lemma_performs(a, b, i, reply);
        } else {
            assert(b.phases == a.phases);
            assert(b.held() == a.held());
        }
    }
}

/// Restoring interrupts brings them to the given state whatever they were, and so undoes
/// disabling them: `disable_interrupts` returns `flag_set` of the flags it reads, which
/// show whether interrupts are enabled.
pub proof fn law_restore_interrupts(enabled: bool, was_enabled: bool)
    ensures
        enabled_after(enabled, restore_op(was_enabled)) == was_enabled,
        enabled_after(
            enabled_after(enabled_after(enabled, Op::ReadFlags), Op::Cli),
            restore_op(enabled),
        ) == enabled,
{
}

/// At no time do two cores hold the lock.
pub proof fn law_spin_exclusive(states: Seq<SpinSystem>, k: int)
    requires
        spin_history(states),
        0 <= k < states.len(),
    ensures
        states[k].exclusive(),
{
    lemma_reachable(states, k);
}

/// The flag, which a look whether the lock is held reads, is set exactly while some core
/// holds the lock.
pub proof fn law_spin_flag(states: Seq<SpinSystem>, k: int)
    requires
        spin_history(states),
        0 <= k < states.len(),
    ensures
        states[k].mem.words[Word::Locked] != 0 <==> states[k].held(),
{
    lemma_reachable(states, k);
}

/// A core that tries without waiting gets the lock exactly if nobody holds it. One that
/// waits gets it only where nobody holds it, and is told to go for it exactly then.
pub proof fn law_spin_acquire(states: Seq<SpinSystem>, k: int, i: int, reply: u64)
    requires
        spin_history(states),
        0 <= k < states.len(),
        0 <= i < states[k].phases.len(),
        states[k].mem.permits(states[k].phases[i].op(), reply),
    ensures
        states[k].phases[i] is TryAcquire ==> (states[k].phases[i].next(reply) is Held
            <==> !states[k].held()),
        states[k].phases[i] is Acquire ==> (states[k].phases[i].next(reply) is Held
            ==> !states[k].held()),
        states[k].phases[i] is Watch ==> (states[k].phases[i].next(reply) is Acquire
            <==> !states[k].held()),
{
    lemma_reachable(states, k);
}

/// Interrupts are disabled on a core that holds the lock. On a core that is through
/// with the lock, or failed to get it, they are as they were before.
pub proof fn law_spin_interrupts(states: Seq<SpinSystem>, k: int, i: int)
    requires
        spin_history(states),
        0 <= k < states.len(),
        0 <= i < states[k].phases.len(),
    ensures
        holds(states[k].phases[i]) ==> !states[k].enabled[i],
        states[k].phases[i] is Idle ==> states[k].enabled[i] == states[k].previous[i],
{
    lemma_reachable(states, k);
    assert(tracked_interrupts(
        states[k].phases[i],
        states[k].enabled[i],
        states[k].previous[i],
    ));
}

/// Whether data, in its course along the states, is changed by cores that hold the lock
/// only, where `by` says who takes each step.
pub open spec fn guarded<T>(states: Seq<SpinSystem>, datas: Seq<T>, by: Seq<int>) -> bool {
    &&& datas.len() == states.len()
    &&& forall|n: int|
        0 <= n < states.len() - 1 && datas[n + 1] != datas[n] ==> 0 <= #[trigger] by[n]
            < states[n].phases.len() && holds(states[n].phases[by[n]])
}

/// While a core holds the lock, nobody else changes the data.
pub proof fn law_spin_data<T>(
    states: Seq<SpinSystem>,
    datas: Seq<T>,
    by: Seq<int>,
    k: int,
    i: int,
)
    requires
        spin_history(states),
        guarded(states, datas, by),
        0 <= k < states.len() - 1,
        0 <= i < states[k].phases.len(),
        holds(states[k].phases[i]),
    ensures
        datas[k + 1] != datas[k] ==> by[k] == i,
{
    lemma_reachable(states, k);
    assert(states[k].exclusive());
    if datas[k + 1] != datas[k] {
        assert(holds(states[k].phases[by[k]]));
    }
}

/// Whoever acquires the lock finds the data as the last holder left it: it stays as it is
/// from one state to another where nobody holds the lock from the one until the other.
pub proof fn law_spin_handover<T>(
    states: Seq<SpinSystem>,
    datas: Seq<T>,
    by: Seq<int>,
    j: int,
    k: int,
)
    requires
        guarded(states, datas, by),
        0 <= j <= k < states.len(),
        forall|n: int, i: int|
            j <= n < k && 0 <= i < states[n].phases.len() ==> !holds(
                #[trigger] states[n].phases[i],
            ),
    ensures
        datas[k] == datas[j],
    decreases k - j,
{
    if j < k {
        law_spin_handover(states, datas, by, j, k - 1);
        if datas[k - 1 + 1] != datas[k - 1] {
            assert(holds(states[k - 1].phases[by[k - 1]]));
        }
    }
}

/// A word that holds what a new lock starts with, while every core is idle, is where a
/// course of events starts.
pub proof fn law_spin_new(lock: SpinLock, system: SpinSystem)
    requires
        lock == SpinLock::unused(),
        system.mem.words[Word::Locked] == if lock.locked {
            1u64
        } else {
            0
        },
        system.enabled.len() == system.phases.len(),
        system.previous == system.enabled,
        forall|i: int| 0 <= i < system.phases.len() ==> (#[trigger] system.phases[i]) is Idle,
    ensures
        system.init(),
{
}

} // verus!
