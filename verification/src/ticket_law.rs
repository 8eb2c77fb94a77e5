//! Several cores on one ticket lock: mutual exclusion, first come, first served, and what
//! the counters say.
use vstd::prelude::*;

use crate::machine::Word;
use crate::memory::{lemma_distinct_indices, word_values, Memory};
use crate::protocol::Protocol;
use crate::spinlock::{TicketLock, TicketPhase};

verus! {

/// Cores that go about one ticket lock as `TicketPhase` says, each operation taking
/// effect at once.
pub struct TicketSystem {
    /// The words of the lock.
    pub mem: Memory,
    /// What each core is about to do.
    pub phases: Seq<TicketPhase>,
    /// The cores that drew a ticket and did not release it, in the order they drew.
    pub queue: Seq<int>,
    /// How often the lock was released.
    pub released: nat,
    /// How often the lock had been released when a core last began to try without waiting.
    pub seen: Seq<nat>,
}

/// Whether a core in this phase has drawn a ticket and not released it.
pub open spec fn has_ticket(phase: TicketPhase) -> bool {
    phase is Wait || phase is Pause || phase is Held || phase is Leave
}

/// The ticket of a core that has drawn one.
pub open spec fn ticket_of(phase: TicketPhase) -> u64 {
    match phase {
        TicketPhase::Wait { ticket } => ticket,
        TicketPhase::Pause { ticket } => ticket,
        TicketPhase::Held { ticket } => ticket,
        TicketPhase::Leave { ticket } => ticket,
        _ => 0,
    }
}

/// Whether a core in this phase holds the lock.
pub open spec fn holds(phase: TicketPhase) -> bool {
    phase is Held || phase is Leave
}

impl TicketSystem {
    /// Nobody has used the lock yet.
    pub open spec fn init(self) -> bool {
        &&& self.mem.words[Word::NextTicket] == 0
        &&& self.mem.words[Word::NowServing] == 0
        &&& self.phases.len() <= u64::MAX
        &&& self.seen.len() == self.phases.len()
        &&& forall|i: int| 0 <= i < self.phases.len() ==> (#[trigger] self.phases[i]) is Idle
        &&& self.queue.len() == 0
        &&& self.released == 0
    }

    /// Core `i` sets out to acquire the lock, to try to, or to release it.
    pub open spec fn begins(self, next: Self, i: int, phase: TicketPhase) -> bool {
        &&& 0 <= i < self.phases.len()
        &&& match phase {
            TicketPhase::Enter => self.phases[i] is Idle,
            TicketPhase::TryServing => self.phases[i] is Idle,
            TicketPhase::Leave { ticket } => self.phases[i] == (TicketPhase::Held { ticket }),
            _ => false,
        }
        &&& next == TicketSystem { phases: self.phases.update(i, phase), ..self }
    }

    /// Core `i` performs its next operation.
    pub open spec fn performs(self, next: Self, i: int, reply: u64) -> bool {
        let phase = self.phases[i];
        &&& 0 <= i < self.phases.len()
        &&& !phase.done()
        &&& self.mem.permits(phase.op(), reply)
        &&& next.mem == self.mem.after(phase.op(), reply)
        &&& next.phases == self.phases.update(i, phase.next(reply))
        &&& next.queue == if !has_ticket(phase) && has_ticket(phase.next(reply)) {
            self.queue.push(i)
        } else if phase is Leave {
            self.queue.remove_value(i)
        } else {
            self.queue
        }
        &&& next.released == if phase is Leave {
            self.released + 1
        } else {
            self.released
        }
        &&& next.seen == if phase is TryServing {
            self.seen.update(i, self.released)
        } else {
            self.seen
        }
    }

    /// One core does one thing.
    pub open spec fn step(self, next: Self) -> bool {
        ||| exists|i: int, phase: TicketPhase| #[trigger] self.begins(next, i, phase)
        ||| exists|i: int, reply: u64| #[trigger] self.performs(next, i, reply)
    }

    /// Whether the counters did not go all the way round while some core was trying
    /// without waiting.
    pub open spec fn unlapped(self) -> bool {
        forall|i: int|
            0 <= i < self.phases.len() && ((#[trigger] self.phases[i]) is TryNext
                || self.phases[i] is TryTake) ==> self.released + self.queue.len() - self.seen[i]
                < word_values()
    }

    /// What holds after every step.
    pub open spec fn inv(self) -> bool {
        &&& self.phases.len() <= u64::MAX
        &&& self.seen.len() == self.phases.len()
        &&& self.queue.no_duplicates()
        &&& self.counted()
        &&& self.queued()
        &&& self.listed()
        &&& self.first_come_first_served()
        &&& self.witnessed()
    }

    /// The counters tell how many tickets were released and drawn.
    pub open spec fn counted(self) -> bool {
        &&& self.mem.words[Word::NowServing] == self.released as int % word_values()
        &&& self.mem.words[Word::NextTicket] == (self.released + self.queue.len()) as int
            % word_values()
    }

    /// The queue holds cores with consecutive tickets.
    pub open spec fn queued(self) -> bool {
        forall|j: int|
            0 <= j < self.queue.len() ==> {
                &&& 0 <= #[trigger] self.queue[j] < self.phases.len()
                &&& has_ticket(self.phases[self.queue[j]])
                &&& ticket_of(self.phases[self.queue[j]]) == (self.released + j) % word_values()
            }
    }

    /// Every core with a ticket is in the queue.
    pub open spec fn listed(self) -> bool {
        forall|i: int|
            0 <= i < self.phases.len() && has_ticket(#[trigger] self.phases[i])
                ==> self.queue.contains(i)
    }

    /// A core that tries without waiting compares against a count that was current.
    pub open spec fn witnessed(self) -> bool {
        forall|i: int|
            0 <= i < self.phases.len() ==> match #[trigger] self.phases[i] {
                TicketPhase::TryNext { serving } => self.seen[i] <= self.released && serving
                    == self.seen[i] as int % word_values(),
                TicketPhase::TryTake { ticket } => self.seen[i] <= self.released && ticket
                    == self.seen[i] as int % word_values(),
                _ => true,
            }
    }

    /// Whether some core has drawn a ticket and not released it.
    pub open spec fn wanted(self) -> bool {
        exists|i: int| 0 <= i < self.phases.len() && has_ticket(#[trigger] self.phases[i])
    }

    /// How many tickets were drawn.
    pub open spec fn drawn(self) -> int {
        (self.released + self.queue.len()) as int
    }

    /// At most one core holds the lock.
    pub open spec fn exclusive(self) -> bool {
        forall|i: int, j: int|
            0 <= i < self.phases.len() && 0 <= j < self.phases.len() && holds(
                #[trigger] self.phases[i],
            ) && holds(#[trigger] self.phases[j]) ==> i == j
    }

    /// Whoever holds the lock drew its ticket before everyone who waits.
    pub open spec fn first_come_first_served(self) -> bool {
        forall|i: int|
            0 <= i < self.phases.len() && holds(#[trigger] self.phases[i]) ==> self.queue.len() > 0
                && self.queue[0] == i
    }
}

/// Whether the state after `states[k]` comes from it by one step.
pub open spec fn follows(states: Seq<TicketSystem>, k: int) -> bool {
    states[k].step(states[k + 1])
}

/// A course of events on one lock, from the start.
pub open spec fn ticket_history(states: Seq<TicketSystem>) -> bool {
    &&& states.len() > 0
    &&& states[0].init()
    &&& forall|k: int| 0 <= k < states.len() - 1 ==> #[trigger] follows(states, k)
    &&& forall|k: int| 0 <= k < states.len() ==> (#[trigger] states[k]).unlapped()
}

proof fn lemma_begins(a: TicketSystem, b: TicketSystem, i: int, phase: TicketPhase)
    requires
        a.inv(),
        a.begins(b, i, phase),
    ensures
        b.inv(),
{
    assert(b.listed()) by {
        assert forall|k: int| 0 <= k < b.phases.len() && has_ticket(#[trigger] b.phases[k]) implies
            b.queue.contains(k) by {
            assert(has_ticket(a.phases[k]));
        }
    }
    assert(b.first_come_first_served()) by {
        assert forall|k: int| 0 <= k < b.phases.len() && holds(#[trigger] b.phases[k]) implies
            b.queue.len() > 0 && b.queue[0] == k by {
            assert(holds(a.phases[k]));
        }
    }
    assert(b.witnessed()) by {
        lemma_witnessed_others(a, b, i);
    }
}

/// What the other cores compare against stays as it was.
proof fn lemma_witnessed_others(a: TicketSystem, b: TicketSystem, i: int)
    requires
        a.witnessed(),
        0 <= i < a.phases.len(),
        b.phases.len() == a.phases.len(),
        forall|k: int|
            0 <= k < a.phases.len() && k != i ==> #[trigger] b.phases[k] == a.phases[k]
                && b.seen[k] == a.seen[k],
        b.released >= a.released,
        match b.phases[i] {
            TicketPhase::TryNext { serving } => b.seen[i] <= b.released && serving
                == b.seen[i] as int % word_values(),
            TicketPhase::TryTake { ticket } => b.seen[i] <= b.released && ticket
                == b.seen[i] as int % word_values(),
            _ => true,
        },
    ensures
        b.witnessed(),
{
    assert forall|k: int| 0 <= k < b.phases.len() implies match #[trigger] b.phases[k] {
        TicketPhase::TryNext { serving } => b.seen[k] <= b.released && serving == b.seen[k] as int
            % word_values(),
        TicketPhase::TryTake { ticket } => b.seen[k] <= b.released && ticket == b.seen[k] as int
            % word_values(),
        _ => true,
    } by {
        if k != i {
            assert(b.phases[k] == a.phases[k]);
        }
    }
}

/// A core releases the lock.
proof fn lemma_leaves(a: TicketSystem, b: TicketSystem, i: int, reply: u64)
    requires
        a.inv(),
        a.performs(b, i, reply),
        a.phases[i] is Leave,
    ensures
        b.inv(),
{
    assert(holds(a.phases[i]));
    assert(a.queue[0] == i);
    a.queue.index_of_first_ensures(i);
    assert(b.queue =~= a.queue.drop_first());
    assert(b.queued()) by {
        assert forall|j: int| 0 <= j < b.queue.len() implies {
            &&& 0 <= #[trigger] b.queue[j] < b.phases.len()
            &&& has_ticket(b.phases[b.queue[j]])
            &&& ticket_of(b.phases[b.queue[j]]) == (b.released + j) % word_values()
        } by {
            assert(b.queue[j] == a.queue[j + 1]);
            assert(a.queue[j + 1] != a.queue[0]);
        }
    }
    assert(b.listed()) by {
        assert forall|k: int| 0 <= k < b.phases.len() && has_ticket(#[trigger] b.phases[k]) implies
            b.queue.contains(k) by {
            assert(k != i);
            assert(b.phases[k] == a.phases[k]);
            let j = a.queue.index_of(k);
            assert(b.queue[j - 1] == k);
        }
    }
    assert(b.first_come_first_served()) by {
        assert forall|k: int| 0 <= k < b.phases.len() && holds(#[trigger] b.phases[k]) implies
            b.queue.len() > 0 && b.queue[0] == k by {
            assert(k != i);
            assert(holds(a.phases[k]));
        }
    }
    assert(b.counted());
    assert(b.witnessed()) by {
        lemma_witnessed_others(a, b, i);
    }
}

/// A core draws a ticket.
proof fn lemma_joins(a: TicketSystem, b: TicketSystem, i: int, reply: u64)
    requires
        a.inv(),
        a.unlapped(),
        a.performs(b, i, reply),
        !has_ticket(a.phases[i]),
        has_ticket(a.phases[i].next(reply)),
    ensures
        b.inv(),
{
    let phase = a.phases[i];
    assert(phase is Enter || phase is TryTake);
    lemma_distinct_indices(a.queue, a.phases.len());
    assert(!a.queue.contains(i)) by {
        if a.queue.contains(i) {
            let j = a.queue.index_of(i);
            assert(has_ticket(a.phases[a.queue[j]]));
        }
    }
    if phase is TryTake {
        let now = (a.released + a.queue.len()) as int;
        let then = a.seen[i] as int;
        assert(now % word_values() == then % word_values());
        assert(0 <= now - then < word_values());
        assert(now == then);
        assert(a.queue.len() == 0);
    }
    assert(b.queued()) by {
        assert forall|j: int| 0 <= j < b.queue.len() implies {
            &&& 0 <= #[trigger] b.queue[j] < b.phases.len()
            &&& has_ticket(b.phases[b.queue[j]])
            &&& ticket_of(b.phases[b.queue[j]]) == (b.released + j) % word_values()
        } by {
            if j < a.queue.len() {
                assert(b.queue[j] == a.queue[j]);
                assert(a.queue[j] != i);
            }
        }
    }
    assert(b.listed()) by {
        assert forall|k: int| 0 <= k < b.phases.len() && has_ticket(#[trigger] b.phases[k]) implies
            b.queue.contains(k) by {
            if k == i {
                assert(b.queue[a.queue.len() as int] == i);
            } else {
                assert(b.phases[k] == a.phases[k]);
                let j = a.queue.index_of(k);
                assert(b.queue[j] == k);
            }
        }
    }
    assert(b.first_come_first_served()) by {
        assert forall|k: int| 0 <= k < b.phases.len() && holds(#[trigger] b.phases[k]) implies
            b.queue.len() > 0 && b.queue[0] == k by {
            if k != i {
                assert(holds(a.phases[k]));
                assert(b.queue[0] == a.queue[0]);
            }
        }
    }
    assert(b.counted());
    assert(b.witnessed()) by {
        lemma_witnessed_others(a, b, i);
    }
}

/// A core neither draws nor releases a ticket.
proof fn lemma_stays(a: TicketSystem, b: TicketSystem, i: int, reply: u64)
    requires
        a.inv(),
        a.performs(b, i, reply),
        !(a.phases[i] is Leave),
        has_ticket(a.phases[i]) || !has_ticket(a.phases[i].next(reply)),
    ensures
        b.inv(),
{
    let phase = a.phases[i];
    let after = phase.next(reply);
    assert(has_ticket(phase) == has_ticket(after));
    assert(ticket_of(phase) == ticket_of(after));
    lemma_distinct_indices(a.queue, a.phases.len());
    assert(b.mem.words == a.mem.words);
    assert(b.queued()) by {
        assert forall|j: int| 0 <= j < b.queue.len() implies {
            &&& 0 <= #[trigger] b.queue[j] < b.phases.len()
            &&& has_ticket(b.phases[b.queue[j]])
            &&& ticket_of(b.phases[b.queue[j]]) == (b.released + j) % word_values()
        } by {
            assert(a.queue[j] == b.queue[j]);
        }
    }
    assert(b.listed()) by {
        assert forall|k: int| 0 <= k < b.phases.len() && has_ticket(#[trigger] b.phases[k]) implies
            b.queue.contains(k) by {
            assert(has_ticket(a.phases[k]));
        }
    }
    assert(b.first_come_first_served()) by {
        assert forall|k: int| 0 <= k < b.phases.len() && holds(#[trigger] b.phases[k]) implies
            b.queue.len() > 0 && b.queue[0] == k by {
            if k != i {
                assert(holds(a.phases[k]));
            } else {
                assert(has_ticket(a.phases[i]));
                let j = a.queue.index_of(i);
                assert(a.queue[j] == i);
                assert((a.released + j) % word_values() == a.released as int % word_values());
                assert(0 <= j < word_values());
                assert(j == 0);
            }
        }
    }
    assert(b.witnessed()) by {
        lemma_witnessed_others(a, b, i);
    }
}

proof fn lemma_reachable(states: Seq<TicketSystem>, k: int)
    requires
        ticket_history(states),
        0 <= k < states.len(),
    ensures
        states[k].inv(),
    decreases k,
{
    if k > 0 {
        lemma_reachable(states, k - 1);
        let a = states[k - 1];
        let b = states[k];
        assert(follows(states, k - 1));
        assert(a.unlapped());
        if exists|i: int, phase: TicketPhase| #[trigger] a.begins(b, i, phase) {
            let (i, phase) = choose|i: int, phase: TicketPhase| #[trigger] a.begins(b, i, phase);
            lemma_begins(a, b, i, phase);
        } else {
            let (i, reply) = choose|i: int, reply: u64| #[trigger] a.performs(b, i, reply);
            if a.phases[i] is Leave {
                lemma_leaves(a, b, i, reply);
            } else if has_ticket(a.phases[i]) || !has_ticket(a.phases[i].next(reply)) {
                lemma_stays(a, b, i, reply);
            } else {
                lemma_joins(a, b, i, reply);
            }
        }
    }
}

/// At no time do two cores hold the lock.
pub proof fn law_ticket_exclusive(states: Seq<TicketSystem>, k: int)
    requires
        ticket_history(states),
        0 <= k < states.len(),
    ensures
        states[k].exclusive(),
{
    lemma_reachable(states, k);
}

/// Whoever holds the lock drew its ticket before everyone who waits.
pub proof fn law_ticket_fifo(states: Seq<TicketSystem>, k: int)
    requires
        ticket_history(states),
        0 <= k < states.len(),
    ensures
        states[k].first_come_first_served(),
{
    lemma_reachable(states, k);
}

/// What a step does to the queue: nothing, or a core joins it at the end, or the first
/// core leaves it.
proof fn lemma_queue_step(a: TicketSystem, b: TicketSystem)
    requires
        a.inv(),
        a.step(b),
    ensures
        b.phases.len() == a.phases.len(),
        ({
            ||| b.queue == a.queue && b.released == a.released
            ||| b.queue == a.queue.push(b.queue.last()) && b.queue.len() == a.queue.len() + 1
                && b.released == a.released
            ||| a.queue.len() > 0 && b.queue == a.queue.drop_first() && b.released == a.released + 1
                && !has_ticket(b.phases[a.queue[0]])
        }),
{
    if exists|i: int, reply: u64| #[trigger] a.performs(b, i, reply) {
        let (i, reply) = choose|i: int, reply: u64| #[trigger] a.performs(b, i, reply);
        if a.phases[i] is Leave {
            assert(holds(a.phases[i]));
            a.queue.index_of_first_ensures(i);
            assert(b.queue =~= a.queue.drop_first());
        }
    }
}

/// Some core has a ticket exactly where the queue is not empty.
proof fn lemma_wanted(a: TicketSystem)
    requires
        a.inv(),
    ensures
        a.wanted() <==> a.queue.len() > 0,
        a.queue.len() < word_values(),
{
    lemma_distinct_indices(a.queue, a.phases.len());
    if a.queue.len() > 0 {
        assert(has_ticket(a.phases[a.queue[0]]));
    }
    if a.wanted() {
        let i = choose|i: int| 0 <= i < a.phases.len() && has_ticket(#[trigger] a.phases[i]);
        assert(a.queue.contains(i));
    }
}

/// Tickets are drawn and released, never given back.
proof fn lemma_drawn(states: Seq<TicketSystem>, j: int, k: int)
    requires
        ticket_history(states),
        0 <= j <= k < states.len(),
    ensures
        states[j].released <= states[k].released,
        states[j].drawn() <= states[k].drawn(),
        (forall|n: int| j <= n <= k ==> !(#[trigger] states[n]).wanted()) ==> states[k].drawn()
            == states[j].released,
    decreases k - j,
{
    lemma_reachable(states, k);
    lemma_wanted(states[k]);
    if j < k {
        lemma_drawn(states, j, k - 1);
        lemma_reachable(states, k - 1);
        lemma_wanted(states[k - 1]);
        assert(follows(states, k - 1));
        lemma_queue_step(states[k - 1], states[k]);
    }
}

/// The counters, and where they differ.
proof fn lemma_counters(states: Seq<TicketSystem>, j: int, k: int)
    requires
        ticket_history(states),
        0 <= j <= k < states.len(),
        states[j].released <= states[k].drawn() < states[j].released + word_values(),
    ensures
        states[j].mem.words[Word::NowServing] == states[k].mem.words[Word::NextTicket]
            <==> states[j].released == states[k].drawn(),
{
    lemma_reachable(states, j);
    lemma_reachable(states, k);
    let served = states[j].released as int;
    let drawn = states[k].drawn();
    assert(drawn % word_values() == served % word_values() ==> drawn == served);
}

/// Where some core has a ticket, more were drawn than released.
proof fn lemma_wanted_drawn(states: Seq<TicketSystem>, k: int)
    requires
        ticket_history(states),
        0 <= k < states.len(),
        states[k].wanted(),
    ensures
        states[k].released < states[k].drawn(),
{
    lemma_reachable(states, k);
    lemma_wanted(states[k]);
}

/// The two counters differ exactly while some core has a ticket: holds the lock or waits
/// for it.
pub proof fn law_ticket_counters(states: Seq<TicketSystem>, k: int)
    requires
        ticket_history(states),
        0 <= k < states.len(),
    ensures
        states[k].mem.words[Word::NowServing] != states[k].mem.words[Word::NextTicket]
            <==> states[k].wanted(),
        forall|i: int|
            0 <= i < states[k].phases.len() && holds(#[trigger] states[k].phases[i])
                ==> states[k].wanted(),
{
    let now = states[k];
    lemma_reachable(states, k);
    lemma_wanted(now);
    let served = now.released as int;
    assert(now.queue.len() > 0 ==> served % word_values() != now.drawn() % word_values());
}

/// A look whether the lock is held, which reads `now_serving` in one state and
/// `next_ticket` in a later one, says yes exactly if between the two some core had a
/// ticket, be it for one state: so always while one core holds the lock throughout, and
/// never on a lock that nobody goes for.
pub proof fn law_ticket_is_locked(states: Seq<TicketSystem>, j: int, k: int)
    requires
        ticket_history(states),
        0 <= j <= k < states.len(),
        states[k].drawn() - states[j].released < word_values(),
    ensures
        states[j].mem.words[Word::NowServing] != states[k].mem.words[Word::NextTicket]
            <==> exists|n: int| j <= n <= k && (#[trigger] states[n]).wanted(),
{
    lemma_drawn(states, j, k);
    lemma_counters(states, j, k);
    if exists|n: int| j <= n <= k && (#[trigger] states[n]).wanted() {
        let n = choose|n: int| j <= n <= k && (#[trigger] states[n]).wanted();
        lemma_wanted_drawn(states, n);
        lemma_drawn(states, j, n);
        lemma_drawn(states, n, k);
    }
}

/// While a core keeps the ticket it had when another had none, it stays ahead of the
/// other in the queue.
proof fn lemma_ahead(states: Seq<TicketSystem>, j: int, k: int, a: int, b: int) -> (at: int)
    requires
        ticket_history(states),
        0 <= j <= k < states.len(),
        0 <= a < states[j].phases.len(),
        0 <= b < states[j].phases.len(),
        !has_ticket(states[j].phases[b]),
        forall|n: int| j <= n <= k ==> has_ticket((#[trigger] states[n]).phases[a]),
    ensures
        states[k].phases.len() == states[j].phases.len(),
        0 <= at < states[k].queue.len(),
        states[k].queue[at] == a,
        forall|y: int|
            0 <= y < states[k].queue.len() && #[trigger] states[k].queue[y] == b ==> at < y,
    decreases k - j,
{
    lemma_reachable(states, k);
    let now = states[k];
    assert(has_ticket(now.phases[a]));
    if k == j {
        assert(now.queue.contains(a));
        assert forall|y: int| 0 <= y < now.queue.len() && #[trigger] now.queue[y] == b implies false by {
            assert(has_ticket(now.phases[now.queue[y]]));
        }
        now.queue.index_of(a)
    } else {
        let was = states[k - 1];
        let at = lemma_ahead(states, j, k - 1, a, b);
        lemma_reachable(states, k - 1);
        assert(follows(states, k - 1));
        lemma_queue_step(was, now);
        if now.queue == was.queue && now.released == was.released {
            at
        } else if now.released == was.released {
            assert(now.queue[at] == was.queue[at]);
            assert forall|y: int| 0 <= y < now.queue.len() && #[trigger] now.queue[y] == b implies at
                < y by {
                if y < was.queue.len() {
                    assert(was.queue[y] == b);
                }
            }
            at
        } else {
            assert(now.queue[at - 1] == was.queue[at]);
            assert forall|y: int| 0 <= y < now.queue.len() && #[trigger] now.queue[y] == b implies at
                - 1 < y by {
                assert(was.queue[y + 1] == b);
            }
            at - 1
        }
    }
}

/// Waiters acquire the lock in the order they requested it: where core `a` had its
/// ticket when core `b` had none yet, `b` does not hold the lock before `a` has given its
/// ticket back.
pub proof fn law_ticket_order(states: Seq<TicketSystem>, j: int, k: int, a: int, b: int)
    requires
        ticket_history(states),
        0 <= j <= k < states.len(),
        0 <= a < states[j].phases.len(),
        0 <= b < states[j].phases.len(),
        !has_ticket(states[j].phases[b]),
        forall|n: int| j <= n <= k ==> has_ticket((#[trigger] states[n]).phases[a]),
    ensures
        !holds(states[k].phases[b]),
{
    let at = lemma_ahead(states, j, k, a, b);
    lemma_reachable(states, k);
    if holds(states[k].phases[b]) {
        assert(states[k].queue[0] == b);
    }
}

/// A core that tries without waiting gets the lock exactly if nobody has had a ticket
/// since it first looked: as many were drawn as were released then. So it never gets a
/// lock that is held, and always one that nobody else goes for.
pub proof fn law_ticket_try(states: Seq<TicketSystem>, k: int, i: int, reply: u64)
    requires
        ticket_history(states),
        0 <= k < states.len(),
        0 <= i < states[k].phases.len(),
        states[k].phases[i] is TryNext || states[k].phases[i] is TryTake,
        states[k].mem.permits(states[k].phases[i].op(), reply),
    ensures
        states[k].phases[i] is TryNext ==> (states[k].phases[i].next(reply) is TryTake
            <==> states[k].drawn() == states[k].seen[i]),
        states[k].phases[i] is TryTake ==> (states[k].phases[i].next(reply) is Held
            <==> states[k].drawn() == states[k].seen[i]),
        states[k].drawn() == states[k].seen[i] ==> !states[k].wanted(),
{
    let now = states[k];
    lemma_reachable(states, k);
    lemma_wanted(now);
    assert(now.unlapped());
    let drawn = now.drawn();
    let seen = now.seen[i] as int;
    assert(drawn % word_values() == seen % word_values() ==> drawn == seen);
}

/// Whether data, in its course along the states, is changed by cores that hold the lock
/// only, where `by` says who takes each step.
pub open spec fn guarded<T>(states: Seq<TicketSystem>, datas: Seq<T>, by: Seq<int>) -> bool {
    &&& datas.len() == states.len()
    &&& forall|n: int|
        0 <= n < states.len() - 1 && datas[n + 1] != datas[n] ==> 0 <= #[trigger] by[n]
            < states[n].phases.len() && holds(states[n].phases[by[n]])
}

/// While a core holds the lock, nobody else changes the data.
pub proof fn law_ticket_data<T>(
    states: Seq<TicketSystem>,
    datas: Seq<T>,
    by: Seq<int>,
    k: int,
    i: int,
)
    requires
        ticket_history(states),
        guarded(states, datas, by),
        0 <= k < states.len() - 1,
        0 <= i < states[k].phases.len(),
        holds(states[k].phases[i]),
    ensures
        datas[k + 1] != datas[k] ==> by[k] == i,
{
    lemma_reachable(states, k);
    assert(states[k].exclusive());
    if datas[k + 1] != datas[k] {
        assert(holds(states[k].phases[by[k]]));
    }
}

/// Whoever acquires the lock finds the data as the last holder left it: it stays as it is
/// from one state to another where nobody holds the lock from the one until the other.
pub proof fn law_ticket_handover<T>(
    states: Seq<TicketSystem>,
    datas: Seq<T>,
    by: Seq<int>,
    j: int,
    k: int,
)
    requires
        guarded(states, datas, by),
        0 <= j <= k < states.len(),
        forall|n: int, i: int|
            j <= n < k && 0 <= i < states[n].phases.len() ==> !holds(
                #[trigger] states[n].phases[i],
            ),
    ensures
        datas[k] == datas[j],
    decreases k - j,
{
    if j < k {
        law_ticket_handover(states, datas, by, j, k - 1);
        if datas[k - 1 + 1] != datas[k - 1] {
            assert(holds(states[k - 1].phases[by[k - 1]]));
        }
    }
}

/// Words that hold what a new lock starts with, while every core is idle, are where a
/// course of events starts.
pub proof fn law_ticket_new(lock: TicketLock, system: TicketSystem)
    requires
        lock == TicketLock::unused(),
        system.mem.words[Word::NextTicket] == lock.next_ticket,
        system.mem.words[Word::NowServing] == lock.now_serving,
        system.phases.len() <= u64::MAX,
        system.seen.len() == system.phases.len(),
        forall|i: int| 0 <= i < system.phases.len() ==> (#[trigger] system.phases[i]) is Idle,
        system.queue.len() == 0,
        system.released == 0,
    ensures
        system.init(),
{
}

} // verus!
