//! Several cores on one reader-writer lock: a writer is alone, and the state says who
//! holds the lock.
use vstd::prelude::*;

use crate::machine::Word;
use crate::memory::Memory;
use crate::protocol::Protocol;
use crate::spinlock::{RwLock, RwPhase, WRITER_BIT};

verus! {

/// Cores that go about one reader-writer lock as `RwPhase` says, each operation
/// taking effect at once.
pub struct RwSystem {
    /// The word of the lock.
    pub mem: Memory,
    /// What each core is about to do.
    pub phases: Seq<RwPhase>,
    /// The cores that read.
    pub readers: Set<int>,
}

/// Whether a core in this phase reads.
pub open spec fn reads(phase: RwPhase) -> bool {
    phase is Reading || phase is ReadLeave
}

/// Whether a core in this phase writes.
pub open spec fn writes(phase: RwPhase) -> bool {
    phase is Writing || phase is WriteLeave
}

impl RwSystem {
    /// Nobody has used the lock yet. There are fewer cores than the state can count
    /// readers.
    pub open spec fn init(self) -> bool {
        &&& self.mem.words[Word::RwState] == 0
        &&& self.phases.len() < WRITER_BIT
        &&& forall|i: int| 0 <= i < self.phases.len() ==> (#[trigger] self.phases[i]) is Idle
        &&& self.readers == Set::<int>::empty()
    }

    /// Core `i` sets out to acquire the lock, to try to, or to release it.
    pub open spec fn begins(self, next: Self, i: int, phase: RwPhase) -> bool {
        &&& 0 <= i < self.phases.len()
        &&& match phase {
            RwPhase::ReadLook => self.phases[i] is Idle,
            RwPhase::TryReadLook => self.phases[i] is Idle,
            RwPhase::WriteTake => self.phases[i] is Idle,
            RwPhase::TryWriteTake => self.phases[i] is Idle,
            RwPhase::ReadLeave => self.phases[i] is Reading,
            RwPhase::WriteLeave => self.phases[i] is Writing,
            _ => false,
        }
        &&& next == RwSystem { phases: self.phases.update(i, phase), ..self }
    }

    /// Core `i` performs its next operation.
    pub open spec fn performs(self, next: Self, i: int, reply: u64) -> bool {
        let phase = self.phases[i];
        &&& 0 <= i < self.phases.len()
        &&& !phase.done()
        &&& self.mem.permits(phase.op(), reply)
        &&& next.mem == self.mem.after(phase.op(), reply)
        &&& next.phases == self.phases.update(i, phase.next(reply))
        &&& next.readers == if reads(phase.next(reply)) {
            self.readers.insert(i)
        } else {
            self.readers.remove(i)
        }
    }

    /// One core does one thing.
    pub open spec fn step(self, next: Self) -> bool {
        ||| exists|i: int, phase: RwPhase| #[trigger] self.begins(next, i, phase)
        ||| exists|i: int, reply: u64| #[trigger] self.performs(next, i, reply)
    }

    /// Whether some core writes.
    pub open spec fn written(self) -> bool {
        exists|i: int| 0 <= i < self.phases.len() && writes(#[trigger] self.phases[i])
    }

    /// Whether some core holds the lock, to read or to write.
    pub open spec fn held(self) -> bool {
        exists|i: int|
            0 <= i < self.phases.len() && (writes(#[trigger] self.phases[i]) || reads(
                self.phases[i],
            ))
    }

    /// A core that writes is the only one that holds the lock.
    pub open spec fn exclusive(self) -> bool {
        forall|i: int, j: int|
            0 <= i < self.phases.len() && 0 <= j < self.phases.len() && writes(
                #[trigger] self.phases[i],
            ) && (writes(#[trigger] self.phases[j]) || reads(self.phases[j])) ==> i == j
    }

    /// What holds after every step.
    pub open spec fn inv(self) -> bool {
        let state = self.mem.words[Word::RwState];
        &&& self.phases.len() < WRITER_BIT
        &&& self.readers.finite()
        &&& forall|i: int| #[trigger]
            self.readers.contains(i) <==> 0 <= i < self.phases.len() && reads(self.phases[i])
        &&& self.exclusive()
        &&& state == WRITER_BIT <==> self.written()
        &&& state == WRITER_BIT ==> self.readers.len() == 0
        &&& state != WRITER_BIT ==> state == self.readers.len()
        &&& forall|i: int|
            0 <= i < self.phases.len() ==> match #[trigger] self.phases[i] {
                RwPhase::ReadTake { readers } => readers < WRITER_BIT,
                RwPhase::TryReadTake { readers } => readers < WRITER_BIT,
                _ => true,
            }
    }
}

/// A course of events on one lock, from the start.
pub open spec fn rw_history(states: Seq<RwSystem>) -> bool {
    &&& states.len() > 0
    &&& states[0].init()
    &&& forall|k: int|
        0 <= k < states.len() - 1 ==> (#[trigger] states[k]).step(states[k + 1])
}

proof fn lemma_begins(a: RwSystem, b: RwSystem, i: int, phase: RwPhase)
    requires
        a.inv(),
        a.begins(b, i, phase),
    ensures
        b.inv(),
{
    assert(reads(phase) == reads(a.phases[i]));
    assert(writes(phase) == writes(a.phases[i]));
    assert forall|k: int| #[trigger] b.readers.contains(k) <==> 0 <= k < b.phases.len() && reads(
        b.phases[k],
    ) by {
        assert(a.readers.contains(k) <==> 0 <= k < a.phases.len() && reads(a.phases[k]));
    }
    lemma_written_others(a, b, i);
}

/// Whether some core writes, where the other cores stay as they were.
proof fn lemma_written_others(a: RwSystem, b: RwSystem, i: int)
    requires
        0 <= i < a.phases.len(),
        a.exclusive(),
        b.phases == a.phases.update(i, b.phases[i]),
    ensures
        writes(a.phases[i]) ==> a.written() && b.written() == writes(b.phases[i]),
        !writes(a.phases[i]) ==> b.written() == (a.written() || writes(b.phases[i])),
        reads(a.phases[i]) ==> !a.written(),
{
    assert(writes(b.phases[i]) ==> b.written());
    if a.written() {
        let x = choose|x: int| 0 <= x < a.phases.len() && writes(#[trigger] a.phases[x]);
        assert(x != i ==> writes(b.phases[x]));
    }
    if b.written() {
        let x = choose|x: int| 0 <= x < b.phases.len() && writes(#[trigger] b.phases[x]);
        assert(x != i ==> writes(a.phases[x]));
    }
}

/// There are no more readers than cores.
proof fn lemma_few_readers(a: RwSystem)
    requires
        a.readers.finite(),
        forall|i: int| #[trigger]
            a.readers.contains(i) <==> 0 <= i < a.phases.len() && reads(a.phases[i]),
    ensures
        a.readers.len() <= a.phases.len(),
{
    let all = vstd::set_lib::set_int_range(0, a.phases.len() as int);
    vstd::set_lib::lemma_int_range(0, a.phases.len() as int);
    assert(a.readers.subset_of(all));
    vstd::set_lib::lemma_len_subset(a.readers, all);
}

proof fn lemma_performs(a: RwSystem, b: RwSystem, i: int, reply: u64)
    requires
        a.inv(),
        a.performs(b, i, reply),
    ensures
        b.inv(),
{
    let phase = a.phases[i];
    let after = phase.next(reply);
    let state = a.mem.words[Word::RwState];
    lemma_few_readers(a);
    assert(a.readers.contains(i) <==> reads(phase));
    assert forall|k: int| #[trigger] b.readers.contains(k) <==> 0 <= k < b.phases.len() && reads(
        b.phases[k],
    ) by {
        assert(a.readers.contains(k) <==> 0 <= k < a.phases.len() && reads(a.phases[k]));
    }
    lemma_few_readers(b);
    lemma_written_others(a, b, i);
    if reads(after) {
        assert(phase is ReadTake || phase is TryReadTake);
        assert(b.readers.len() == a.readers.len() + 1);
    } else if phase is ReadLeave {
        assert(b.readers.len() + 1 == a.readers.len());
        assert(state != WRITER_BIT);
    } else {
        assert(b.readers =~= a.readers);
    }
    if state == WRITER_BIT {
        assert(a.readers.len() == 0);
        assert(a.readers =~= Set::empty());
    }
    if writes(after) {
        assert(state == 0);
        assert(a.readers.len() == 0);
        assert(a.readers =~= Set::empty());
    }
    assert(b.exclusive()) by {
        assert forall|x: int, y: int|
            0 <= x < b.phases.len() && 0 <= y < b.phases.len() && writes(#[trigger] b.phases[x]) && (
            writes(#[trigger] b.phases[y]) || reads(b.phases[y])) implies x == y by {
            if x == i && y != i {
                assert(b.phases[y] == a.phases[y]);
                assert(a.readers.contains(y) <==> reads(a.phases[y]));
                assert(state == 0);
            } else if x != i && y == i {
                assert(writes(a.phases[x]));
                assert(state == WRITER_BIT);
            } else if x != i && y != i {
                assert(b.phases[x] == a.phases[x]);
                assert(b.phases[y] == a.phases[y]);
            }
        }
    }
}

proof fn lemma_reachable(states: Seq<RwSystem>, k: int)
    requires
        rw_history(states),
        0 <= k < states.len(),
    ensures
        states[k].inv(),
    decreases k,
{
    if k > 0 {
        lemma_reachable(states, k - 1);
        let a = states[k - 1];
        let b = states[k];
        assert(a.step(b));
        if exists|i: int, phase: RwPhase| #[trigger] a.begins(b, i, phase) {
            let (i, phase) = choose|i: int, phase: RwPhase| #[trigger] a.begins(b, i, phase);
            lemma_begins(a, b, i, phase);
        } else {
            let (i, reply) = choose|i: int, reply: u64| #[trigger] a.performs(b, i, reply);
            lemma_performs(a, b, i, reply);
        }
    }
}

/// A writer gets exclusive access: while one core writes, no other core writes or
/// reads.
pub proof fn law_rw_exclusive(states: Seq<RwSystem>, k: int)
    requires
        rw_history(states),
        0 <= k < states.len(),
    ensures
        states[k].exclusive(),
{
    lemma_reachable(states, k);
}

/// The state is `WRITER_BIT` exactly while a core writes, and otherwise the number of
/// cores that read; it is 0 exactly while nobody holds the lock.
pub proof fn law_rw_state(states: Seq<RwSystem>, k: int)
    requires
        rw_history(states),
        0 <= k < states.len(),
    ensures
        ({
            let now = states[k];
            let state = now.mem.words[Word::RwState];
            &&& state == WRITER_BIT <==> now.written()
            &&& !now.written() ==> state == now.readers.len()
            &&& state == 0 <==> !now.held()
            &&& forall|i: int| #[trigger]
                now.readers.contains(i) <==> 0 <= i < now.phases.len() && reads(now.phases[i])
        }),
{
    let now = states[k];
    lemma_reachable(states, k);
    if now.held() {
        let i = choose|i: int|
            0 <= i < now.phases.len() && (writes(#[trigger] now.phases[i]) || reads(
                now.phases[i],
            ));
        if reads(now.phases[i]) {
            assert(now.readers.contains(i));
        } else {
            assert(now.written());
        }
    } else {
        assert(!now.written());
        assert forall|i: int| !now.readers.contains(i) by {
            assert(now.readers.contains(i) <==> 0 <= i < now.phases.len() && reads(now.phases[i]));
        }
        assert(now.readers =~= Set::empty());
    }
}

/// A core that tries to write without waiting gets the lock exactly if nobody holds it,
/// to read or to write; one that waits gets it only then.
pub proof fn law_rw_write(states: Seq<RwSystem>, k: int, i: int, reply: u64)
    requires
        rw_history(states),
        0 <= k < states.len(),
        0 <= i < states[k].phases.len(),
        states[k].mem.permits(states[k].phases[i].op(), reply),
    ensures
        states[k].phases[i] is TryWriteTake ==> (states[k].phases[i].next(reply) is Writing
            <==> !states[k].held()),
        states[k].phases[i] is WriteTake ==> (states[k].phases[i].next(reply) is Writing
            ==> !states[k].held()),
{
    law_rw_state(states, k);
}

/// A core that looks in order to read goes on exactly if nobody writes, with the number
/// of readers it saw. Without waiting it is then let in exactly if still nobody writes
/// and there are as many readers as it saw: so always where nobody else goes for the
/// lock in between.
pub proof fn law_rw_read(states: Seq<RwSystem>, k: int, i: int, reply: u64)
    requires
        rw_history(states),
        0 <= k < states.len(),
        0 <= i < states[k].phases.len(),
        states[k].mem.permits(states[k].phases[i].op(), reply),
    ensures
        ({
            let now = states[k];
            let next = now.phases[i].next(reply);
            match now.phases[i] {
                RwPhase::TryReadLook => if now.written() {
                    next is Idle
                } else {
                    next == (RwPhase::TryReadTake { readers: now.readers.len() as u32 })
                        && now.readers.len() < WRITER_BIT
                },
                RwPhase::ReadLook => if now.written() {
                    next is ReadPause
                } else {
                    next == (RwPhase::ReadTake { readers: now.readers.len() as u32 })
                        && now.readers.len() < WRITER_BIT
                },
                RwPhase::TryReadTake { readers } => next is Reading <==> !now.written()
                    && now.readers.len() == readers,
                RwPhase::ReadTake { readers } => next is Reading ==> !now.written()
                    && now.readers.len() == readers,
                _ => true,
            }
        }),
{
    lemma_reachable(states, k);
    lemma_few_readers(states[k]);
}

/// Whether data, in its course along the states, is changed by cores that write only,
/// where `by` says who takes each step.
pub open spec fn guarded<T>(states: Seq<RwSystem>, datas: Seq<T>, by: Seq<int>) -> bool {
    &&& datas.len() == states.len()
    &&& forall|n: int|
        0 <= n < states.len() - 1 && datas[n + 1] != datas[n] ==> 0 <= #[trigger] by[n]
            < states[n].phases.len() && writes(states[n].phases[by[n]])
}

/// While a core writes, nobody else changes the data; while a core reads, nobody does.
pub proof fn law_rw_data<T>(states: Seq<RwSystem>, datas: Seq<T>, by: Seq<int>, k: int, i: int)
    requires
        rw_history(states),
        guarded(states, datas, by),
        0 <= k < states.len() - 1,
        0 <= i < states[k].phases.len(),
    ensures
        writes(states[k].phases[i]) && datas[k + 1] != datas[k] ==> by[k] == i,
        reads(states[k].phases[i]) ==> datas[k + 1] == datas[k],
{
    lemma_reachable(states, k);
    assert(states[k].exclusive());
    if datas[k + 1] != datas[k] {
        assert(writes(states[k].phases[by[k]]));
    }
}

/// Whoever acquires the lock finds the data as the last writer left it: it stays as it is
/// from one state to another where nobody writes from the one until the other.
pub proof fn law_rw_handover<T>(
    states: Seq<RwSystem>,
    datas: Seq<T>,
    by: Seq<int>,
    j: int,
    k: int,
)
    requires
        guarded(states, datas, by),
        0 <= j <= k < states.len(),
        forall|n: int| j <= n < k ==> !(#[trigger] states[n]).written(),
    ensures
        datas[k] == datas[j],
    decreases k - j,
{
    if j < k {
        law_rw_handover(states, datas, by, j, k - 1);
        if datas[k - 1 + 1] != datas[k - 1] {
            assert(writes(states[k - 1].phases[by[k - 1]]));
            assert(states[k - 1].written());
        }
    }
}

/// A word that holds what a new lock starts with, while every core is idle, is where a
/// course of events starts.
pub proof fn law_rw_new(lock: RwLock, system: RwSystem)
    requires
        lock == RwLock::unused(),
        system.mem.words[Word::RwState] == lock.state,
        system.phases.len() < WRITER_BIT,
        forall|i: int| 0 <= i < system.phases.len() ==> (#[trigger] system.phases[i]) is Idle,
        system.readers == Set::<int>::empty(),
    ensures
        system.init(),
{
}

} // verus!
