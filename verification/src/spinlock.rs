//! SMP-safe synchronization primitives.
//!
//! Ticket locks (fair), spin locks with interrupt disable, reader-writer locks,
//! and one-time initialization. Each primitive is the way a core goes about its
//! shared words: the functions perform the accesses through a [`Machine`], and the
//! phases below say which access comes next and where its reply leads.
use vstd::prelude::*;

use crate::machine::{ops, Event, Machine, MemOrder, Op, Word};
use crate::protocol::{
    lemma_advance, lemma_follow, lemma_follow_run, lemma_run_join, lemma_run_start, lemma_run_step,
    may_stall, run, settles, Protocol,
};

verus! {

/// The interrupt flag (bit 9) of RFLAGS.
pub const RFLAGS_IF: u64 = 0x200;

/// Whether RFLAGS show interrupts as enabled.
pub open spec fn flag_set(rflags: u64) -> bool {
    rflags & RFLAGS_IF != 0
}

/// Read the RFLAGS register.
fn read_rflags<S, F: Fn(S, Op) -> (S, u64)>(m: &mut Machine<S, F>) -> (rflags: u64)
    requires
        old(m).wf(),
    ensures
        final(m).performed(*old(m), seq![Op::ReadFlags]),
        final(m).since(*old(m)) == seq![Event { op: Op::ReadFlags, reply: rflags }],
        call_ensures(old(m).io(), (old(m).state(), Op::ReadFlags), (final(m).state(), rflags)),
{
    m.perform(Op::ReadFlags)
}

/// Check if interrupts are enabled (IF flag, bit 9).
pub fn interrupts_enabled<S, F: Fn(S, Op) -> (S, u64)>(m: &mut Machine<S, F>) -> (enabled: bool)
    requires
        old(m).wf(),
    ensures
        final(m).performed(*old(m), seq![Op::ReadFlags]),
        enabled == flag_set(final(m).since(*old(m))[0].reply),
{
    (read_rflags(m) & RFLAGS_IF) != 0
}

/// Disable interrupts and return whether they were previously enabled.
pub fn disable_interrupts<S, F: Fn(S, Op) -> (S, u64)>(m: &mut Machine<S, F>) -> (was_enabled: bool)
    requires
        old(m).wf(),
    ensures
        final(m).performed(*old(m), seq![Op::ReadFlags, Op::Cli]),
        was_enabled == flag_set(final(m).since(*old(m))[0].reply),
{
    let was_enabled = interrupts_enabled(m);
    let ghost read = *m;
    m.perform(Op::Cli);
    proof {
        Machine::lemma_performed_push(*old(m), read, *m, seq![Op::ReadFlags], Op::Cli);
        assert(seq![Op::ReadFlags].push(Op::Cli) =~= seq![Op::ReadFlags, Op::Cli]);
        assert(ops(read.since(*old(m))).len() == 1);
    }
    was_enabled
}

/// Enable interrupts.
pub fn enable_interrupts<S, F: Fn(S, Op) -> (S, u64)>(m: &mut Machine<S, F>)
    requires
        old(m).wf(),
    ensures
        final(m).performed(*old(m), seq![Op::Sti]),
{
    m.perform(Op::Sti);
}

/// The operation that brings interrupts to the given state.
pub open spec fn restore_op(enabled: bool) -> Op {
    if enabled {
        Op::Sti
    } else {
        Op::Cli
    }
}

/// Restore interrupts to a previous state: enable them if they were enabled, disable
/// them if they were not.
pub fn restore_interrupts<S, F: Fn(S, Op) -> (S, u64)>(m: &mut Machine<S, F>, was_enabled: bool)
    requires
        old(m).wf(),
    ensures
        final(m).performed(*old(m), seq![restore_op(was_enabled)]),
{
    if was_enabled {
        enable_interrupts(m);
    } else {
        m.perform(Op::Cli);
    }
}

// ---------------------------------------------------------------------------
// TicketLock: fair FIFO spinlock
// ---------------------------------------------------------------------------
/// What a core is about to do with a ticket lock.
pub enum TicketPhase {
    /// Nothing: the core neither holds nor wants the lock.
    Idle,
    /// Draw a ticket.
    Enter,
    /// Look which ticket is served.
    Wait { ticket: u64 },
    /// Another ticket is served: spin.
    Pause { ticket: u64 },
    /// Look which ticket is served, to try without waiting.
    TryServing,
    /// Look which ticket is next, to try without waiting.
    TryNext { serving: u64 },
    /// The lock looked free: draw the next ticket if nobody else does.
    TryTake { ticket: u64 },
    /// Nothing: the core holds the lock.
    Held { ticket: u64 },
    /// Serve the next ticket.
    Leave { ticket: u64 },
}

impl Protocol for TicketPhase {
    open spec fn op(self) -> Op {
        match self {
            TicketPhase::Enter => Op::FetchAdd {
                word: Word::NextTicket,
                value: 1,
                order: MemOrder::Relaxed,
            },
            TicketPhase::Wait { .. } => Op::Load {
                word: Word::NowServing,
                order: MemOrder::Acquire,
            },
            TicketPhase::TryServing => Op::Load {
                word: Word::NowServing,
                order: MemOrder::Acquire,
            },
            TicketPhase::TryNext { .. } => Op::Load {
                word: Word::NextTicket,
                order: MemOrder::Relaxed,
            },
            TicketPhase::TryTake { ticket } => Op::CompareExchange {
                word: Word::NextTicket,
                expected: ticket,
                desired: wrapping_next(ticket),
                weak: false,
                success: MemOrder::Acquire,
                failure: MemOrder::Relaxed,
            },
            TicketPhase::Leave { .. } => Op::FetchAdd {
                word: Word::NowServing,
                value: 1,
                order: MemOrder::Release,
            },
            _ => Op::SpinHint,
        }
    }

    open spec fn next(self, reply: u64) -> Self {
        match self {
            TicketPhase::Enter => TicketPhase::Wait { ticket: reply },
            TicketPhase::Wait { ticket } => if reply == ticket {
                TicketPhase::Held { ticket }
            } else {
                TicketPhase::Pause { ticket }
            },
            TicketPhase::Pause { ticket } => TicketPhase::Wait { ticket },
            TicketPhase::TryServing => TicketPhase::TryNext { serving: reply },
            TicketPhase::TryNext { serving } => if reply == serving {
                TicketPhase::TryTake { ticket: reply }
            } else {
                TicketPhase::Idle
            },
            TicketPhase::TryTake { ticket } => if reply != 0 {
                TicketPhase::Held { ticket }
            } else {
                TicketPhase::Idle
            },
            TicketPhase::Leave { .. } => TicketPhase::Idle,
            _ => self,
        }
    }

    open spec fn done(self) -> bool {
        self is Idle || self is Held
    }
}

/// The word after `value`, wrapping.
pub open spec fn wrapping_next(value: u64) -> u64 {
    if value == u64::MAX {
        0
    } else {
        (value + 1) as u64
    }
}

/// A fair (FIFO) ticket-based spinlock.
///
/// Waiters acquire the lock in the order they requested it. Uses two counters:
/// `next_ticket` (incremented on lock attempt) and `now_serving` (incremented on
/// unlock). The fields are what the counters start with.
pub struct TicketLock {
    pub next_ticket: u64,
    pub now_serving: u64,
}

impl TicketLock {
    /// A lock that nobody has used yet.
    pub open spec fn unused() -> Self {
        TicketLock { next_ticket: 0, now_serving: 0 }
    }

    /// Create a new ticket lock.
    pub fn new() -> (lock: Self)
        ensures
            lock == Self::unused(),
    {
        Self { next_ticket: 0, now_serving: 0 }
    }

    /// Acquire the lock, spinning until it is our turn.
    pub fn lock<S, F: Fn(S, Op) -> (S, u64)>(m: &mut Machine<S, F>) -> (guard: TicketLockGuard)
        requires
            old(m).wf(),
            settles(old(m).io(), old(m).state(), TicketPhase::Enter),
        ensures
            final(m).continues(*old(m)),
            run(
                TicketPhase::Enter,
                final(m).since(*old(m)),
                TicketPhase::Held { ticket: guard.ticket() },
            ),
    {
        let ghost start = TicketPhase::Enter;
        let ghost mut bound: nat = choose|n: nat|
            !#[trigger] may_stall(m.io(), m.state(), start, n);
        proof {
            m.lemma_continues_self();
            lemma_run_start(start);
        }
        let ticket = m.perform(
            Op::FetchAdd { word: Word::NextTicket, value: 1, order: MemOrder::Relaxed },
        );
        let ghost wait = TicketPhase::Wait { ticket };
        proof {
            lemma_follow(start, start, *old(m), *old(m), *m, ticket, bound);
            bound = (bound - 1) as nat;
        }
        loop
            invariant_except_break
                m.continues(*old(m)),
                start == TicketPhase::Enter,
                wait == (TicketPhase::Wait { ticket }),
                run(start, m.since(*old(m)), wait),
                !may_stall(m.io(), m.state(), wait, bound),
            ensures
                m.continues(*old(m)),
                run(start, m.since(*old(m)), TicketPhase::Held { ticket }),
            decreases bound,
        {
            let ghost before = *m;
            let serving = m.perform(
                Op::Load { word: Word::NowServing, order: MemOrder::Acquire },
            );
            proof {
                lemma_follow(start, wait, *old(m), before, *m, serving, bound);
                bound = (bound - 1) as nat;
            }
            if serving == ticket {
                break;
            }
            let ghost busy = *m;
            let reply = m.perform(Op::SpinHint);
            proof {
                let pause = TicketPhase::Pause { ticket };
                lemma_follow(start, pause, *old(m), busy, *m, reply, bound);
                bound = (bound - 1) as nat;
            }
        }
        TicketLockGuard { ticket }
    }

    /// Try to acquire the lock without spinning. Returns `None` if busy.
    pub fn try_lock<S, F: Fn(S, Op) -> (S, u64)>(m: &mut Machine<S, F>) -> (guard: Option<
        TicketLockGuard,
    >)
        requires
            old(m).wf(),
        ensures
            final(m).continues(*old(m)),
            run(
                TicketPhase::TryServing,
                final(m).since(*old(m)),
                match guard {
                    Some(guard) => TicketPhase::Held { ticket: guard.ticket() },
                    None => TicketPhase::Idle,
                },
            ),
    {
        let ghost start = TicketPhase::TryServing;
        proof {
            m.lemma_continues_self();
            lemma_run_start(start);
        }
        let current = m.perform(Op::Load { word: Word::NowServing, order: MemOrder::Acquire });
        let ghost m1 = *m;
        proof {
            lemma_advance(start, start, *old(m), *old(m), *m, current);
        }
        let next = m.perform(Op::Load { word: Word::NextTicket, order: MemOrder::Relaxed });
        let ghost m2 = *m;
        proof {
            let at = TicketPhase::TryNext { serving: current };
            lemma_advance(start, at, *old(m), m1, *m, next);
        }
        if current == next {
            let taken = m.perform(
                Op::CompareExchange {
                    word: Word::NextTicket,
                    expected: next,
                    desired: next.wrapping_add(1),
                    weak: false,
                    success: MemOrder::Acquire,
                    failure: MemOrder::Relaxed,
                },
            );
            proof {
                let at = TicketPhase::TryTake { ticket: next };
                lemma_advance(start, at, *old(m), m2, *m, taken);
            }
            if taken != 0 {
                return Some(TicketLockGuard { ticket: next });
            }
        }
        None
    }

    /// Check if the lock is currently held.
    pub fn is_locked<S, F: Fn(S, Op) -> (S, u64)>(m: &mut Machine<S, F>) -> (locked: bool)
        requires
            old(m).wf(),
        ensures
            final(m).performed(
                *old(m),
                seq![
                    Op::Load { word: Word::NowServing, order: MemOrder::Relaxed },
                    Op::Load { word: Word::NextTicket, order: MemOrder::Relaxed },
                ],
            ),
            locked == (final(m).since(*old(m))[0].reply != final(m).since(*old(m))[1].reply),
    {
        let first = Op::Load { word: Word::NowServing, order: MemOrder::Relaxed };
        let second = Op::Load { word: Word::NextTicket, order: MemOrder::Relaxed };
        let serving = m.perform(first);
        let ghost read = *m;
        let next = m.perform(second);
        proof {
            Machine::lemma_performed_push(*old(m), read, *m, seq![first], second);
            assert(seq![first].push(second) =~= seq![first, second]);
        }
        serving != next
    }
}

/// Held `TicketLock`. Given up by `unlock`.
pub struct TicketLockGuard {
    ticket: u64,
}

impl TicketLockGuard {
    /// The ticket that is served.
    pub closed spec fn ticket(self) -> u64 {
        self.ticket
    }

    /// Release the lock: serve the next ticket.
    pub fn unlock<S, F: Fn(S, Op) -> (S, u64)>(self, m: &mut Machine<S, F>)
        requires
            old(m).wf(),
        ensures
            final(m).continues(*old(m)),
            run(
                TicketPhase::Leave { ticket: self.ticket() },
                final(m).since(*old(m)),
                TicketPhase::Idle,
            ),
    {
        let ghost start = TicketPhase::Leave { ticket: self.ticket };
        proof {
            m.lemma_continues_self();
            lemma_run_start(start);
        }
        let reply = m.perform(
            Op::FetchAdd { word: Word::NowServing, value: 1, order: MemOrder::Release },
        );
        proof {
            lemma_advance(start, start, *old(m), *old(m), *m, reply);
        }
    }
}

// ---------------------------------------------------------------------------
// SpinLock: spinlock with interrupt disable
// ---------------------------------------------------------------------------
/// What a core is about to do with a spin lock. `was` is whether interrupts were
/// enabled when the core went for the lock.
pub enum SpinPhase {
    /// Nothing: the core neither holds nor wants the lock.
    Idle,
    /// Look whether interrupts are enabled.
    Flags,
    /// Disable interrupts.
    Disable { was: bool },
    /// Take the lock if it is free.
    Acquire { was: bool },
    /// Look whether the lock is free.
    Watch { was: bool },
    /// The lock is not free: spin.
    Pause { was: bool },
    /// Look whether interrupts are enabled, to try without waiting.
    TryFlags,
    /// Disable interrupts, to try without waiting.
    TryDisable { was: bool },
    /// Take the lock if it is free, else give up.
    TryAcquire { was: bool },
    /// Nothing: the core holds the lock.
    Held { was: bool },
    /// Free the lock.
    Release { was: bool },
    /// Bring interrupts back to how they were.
    Restore { was: bool },
}

/// The exchange that takes a spin lock if it is free.
pub open spec fn spin_exchange(weak: bool) -> Op {
    Op::CompareExchange {
        word: Word::Locked,
        expected: 0,
        desired: 1,
        weak,
        success: MemOrder::Acquire,
        failure: MemOrder::Relaxed,
    }
}

impl Protocol for SpinPhase {
    open spec fn op(self) -> Op {
        match self {
            SpinPhase::Flags => Op::ReadFlags,
            SpinPhase::TryFlags => Op::ReadFlags,
            SpinPhase::Disable { .. } => Op::Cli,
            SpinPhase::TryDisable { .. } => Op::Cli,
            SpinPhase::Acquire { .. } => spin_exchange(true),
            SpinPhase::TryAcquire { .. } => spin_exchange(false),
            SpinPhase::Watch { .. } => Op::Load { word: Word::Locked, order: MemOrder::Relaxed },
            SpinPhase::Release { .. } => Op::Store {
                word: Word::Locked,
                value: 0,
                order: MemOrder::Release,
            },
            SpinPhase::Restore { was } => restore_op(was),
            _ => Op::SpinHint,
        }
    }

    open spec fn next(self, reply: u64) -> Self {
        match self {
            SpinPhase::Flags => SpinPhase::Disable { was: flag_set(reply) },
            SpinPhase::TryFlags => SpinPhase::TryDisable { was: flag_set(reply) },
            SpinPhase::Disable { was } => SpinPhase::Acquire { was },
            SpinPhase::TryDisable { was } => SpinPhase::TryAcquire { was },
            SpinPhase::Acquire { was } => if reply != 0 {
                SpinPhase::Held { was }
            } else {
                SpinPhase::Watch { was }
            },
            SpinPhase::TryAcquire { was } => if reply != 0 {
                SpinPhase::Held { was }
            } else {
                SpinPhase::Restore { was }
            },
            SpinPhase::Watch { was } => if reply != 0 {
                SpinPhase::Pause { was }
            } else {
                SpinPhase::Acquire { was }
            },
            SpinPhase::Pause { was } => SpinPhase::Watch { was },
            SpinPhase::Release { was } => SpinPhase::Restore { was },
            SpinPhase::Restore { .. } => SpinPhase::Idle,
            _ => self,
        }
    }

    open spec fn done(self) -> bool {
        self is Idle || self is Held
    }
}

/// Two operations that the protocol asks for are a run.
proof fn lemma_run_two<P: Protocol>(start: P, events: Seq<Event>)
    requires
        events.len() == 2,
        !start.done(),
        events[0].op == start.op(),
        !start.next(events[0].reply).done(),
        events[1].op == start.next(events[0].reply).op(),
    ensures
        run(start, events, start.next(events[0].reply).next(events[1].reply)),
{
    lemma_run_start(start);
    let none = Seq::<Event>::empty();
    lemma_run_step(start, none, start, events[0]);
    lemma_run_step(start, none.push(events[0]), start.next(events[0].reply), events[1]);
    assert(none.push(events[0]).push(events[1]) =~= events);
}

/// One operation that the protocol asks for is a run.
proof fn lemma_run_one<P: Protocol>(start: P, events: Seq<Event>)
    requires
        events.len() == 1,
        !start.done(),
        events[0].op == start.op(),
    ensures
        run(start, events, start.next(events[0].reply)),
{
    lemma_run_start(start);
    let none = Seq::<Event>::empty();
    lemma_run_step(start, none, start, events[0]);
    assert(none.push(events[0]) =~= events);
}

/// A spinlock that disables interrupts while held.
///
/// This prevents deadlocks from interrupt handlers trying to acquire the same
/// lock. Interrupts are restored to their previous state on unlock. The field is
/// what the lock flag starts with.
pub struct SpinLock {
    pub locked: bool,
}

impl SpinLock {
    /// A lock that nobody has used yet.
    pub open spec fn unused() -> Self {
        SpinLock { locked: false }
    }

    /// Create a new spinlock.
    pub fn new() -> (lock: Self)
        ensures
            lock == Self::unused(),
    {
        Self { locked: false }
    }

    /// Acquire the lock, disabling interrupts and spinning until available.
    pub fn lock<S, F: Fn(S, Op) -> (S, u64)>(m: &mut Machine<S, F>) -> (guard: SpinLockGuard)
        requires
            old(m).wf(),
            settles(old(m).io(), old(m).state(), SpinPhase::Flags),
        ensures
            final(m).continues(*old(m)),
            run(
                SpinPhase::Flags,
                final(m).since(*old(m)),
                SpinPhase::Held { was: guard.interrupts_were_enabled() },
            ),
    {
        let ghost start = SpinPhase::Flags;
        let ghost mut bound: nat = choose|n: nat|
            !#[trigger] may_stall(m.io(), m.state(), start, n);
        proof {
            m.lemma_continues_self();
            lemma_run_start(start);
        }
        let was = disable_interrupts(m);
        let ghost acquire = SpinPhase::Acquire { was };
        let ghost held = SpinPhase::Held { was };
        proof {
            let events = m.since(*old(m));
            assert(events.len() == ops(events).len());
            assert(events[0].op == ops(events)[0]);
            assert(events[1].op == ops(events)[1]);
            lemma_run_two(start, events);
            lemma_follow_run(start, start, acquire, *old(m), *old(m), *m, bound);
            bound = (bound - 2) as nat;
        }
        loop
            invariant_except_break
                m.continues(*old(m)),
                start == SpinPhase::Flags,
                acquire == (SpinPhase::Acquire { was }),
                held == (SpinPhase::Held { was }),
                run(start, m.since(*old(m)), acquire),
                !may_stall(m.io(), m.state(), acquire, bound),
            ensures
                m.continues(*old(m)),
                run(start, m.since(*old(m)), held),
            decreases bound,
        {
            let ghost before = *m;
            let taken = m.perform(
                Op::CompareExchange {
                    word: Word::Locked,
                    expected: 0,
                    desired: 1,
                    weak: true,
                    success: MemOrder::Acquire,
                    failure: MemOrder::Relaxed,
                },
            );
            let ghost watch = SpinPhase::Watch { was };
            let ghost pause = SpinPhase::Pause { was };
            proof {
                lemma_follow(start, acquire, *old(m), before, *m, taken, bound);
                bound = (bound - 1) as nat;
            }
            if taken != 0 {
                break;
            }
            let ghost outer = bound;
            loop
                invariant_except_break
                    m.continues(*old(m)),
                    start == SpinPhase::Flags,
                    acquire == (SpinPhase::Acquire { was }),
                    watch == (SpinPhase::Watch { was }),
                    pause == (SpinPhase::Pause { was }),
                    run(start, m.since(*old(m)), watch),
                    !may_stall(m.io(), m.state(), watch, bound),
                    bound <= outer,
                ensures
                    m.continues(*old(m)),
                    run(start, m.since(*old(m)), acquire),
                    !may_stall(m.io(), m.state(), acquire, bound),
                    bound <= outer,
                decreases bound,
            {
                let ghost watching = *m;
                let locked = m.perform(
                    Op::Load { word: Word::Locked, order: MemOrder::Relaxed },
                );
                proof {
                    lemma_follow(start, watch, *old(m), watching, *m, locked, bound);
                    bound = (bound - 1) as nat;
                }
                if locked == 0 {
                    break;
                }
                let ghost busy = *m;
                let reply = m.perform(Op::SpinHint);
                proof {
                    lemma_follow(start, pause, *old(m), busy, *m, reply, bound);
                    bound = (bound - 1) as nat;
                }
            }
        }
        SpinLockGuard { interrupts_were_enabled: was }
    }

    /// Try to acquire the lock without spinning. Returns `None` if busy; interrupts
    /// are then as they were.
    pub fn try_lock<S, F: Fn(S, Op) -> (S, u64)>(m: &mut Machine<S, F>) -> (guard: Option<
        SpinLockGuard,
    >)
        requires
            old(m).wf(),
        ensures
            final(m).continues(*old(m)),
            run(
                SpinPhase::TryFlags,
                final(m).since(*old(m)),
                match guard {
                    Some(guard) => SpinPhase::Held { was: guard.interrupts_were_enabled() },
                    None => SpinPhase::Idle,
                },
            ),
    {
        let ghost start = SpinPhase::TryFlags;
        let was = disable_interrupts(m);
        let ghost disabled = *m;
        let ghost acquire = SpinPhase::TryAcquire { was };
        proof {
            let events = m.since(*old(m));
            assert(events.len() == ops(events).len());
            assert(events[0].op == ops(events)[0]);
            assert(events[1].op == ops(events)[1]);
            lemma_run_two(start, events);
        }
        let taken = m.perform(
            Op::CompareExchange {
                word: Word::Locked,
                expected: 0,
                desired: 1,
                weak: false,
                success: MemOrder::Acquire,
                failure: MemOrder::Relaxed,
            },
        );
        proof {
            lemma_advance(start, acquire, *old(m), disabled, *m, taken);
        }
        if taken != 0 {
            Some(SpinLockGuard { interrupts_were_enabled: was })
        } else {
            let ghost failed = *m;
            restore_interrupts(m, was);
            proof {
                lemma_restored(start, *old(m), failed, *m, was);
            }
            None
        }
    }

    /// Check if the lock is currently held.
    pub fn is_locked<S, F: Fn(S, Op) -> (S, u64)>(m: &mut Machine<S, F>) -> (locked: bool)
        requires
            old(m).wf(),
        ensures
            final(m).performed(
                *old(m),
                seq![Op::Load { word: Word::Locked, order: MemOrder::Relaxed }],
            ),
            locked == (final(m).since(*old(m))[0].reply != 0),
    {
        m.perform(Op::Load { word: Word::Locked, order: MemOrder::Relaxed }) != 0
    }
}

/// Restoring interrupts ends the protocol.
proof fn lemma_restored<S, F: Fn(S, Op) -> (S, u64)>(
    start: SpinPhase,
    origin: Machine<S, F>,
    before: Machine<S, F>,
    after: Machine<S, F>,
    was: bool,
)
    requires
        before.wf(),
        before.continues(origin),
        run(start, before.since(origin), SpinPhase::Restore { was }),
        after.performed(before, seq![restore_op(was)]),
    ensures
        after.continues(origin),
        run(start, after.since(origin), SpinPhase::Idle),
{
    let at = SpinPhase::Restore { was };
    let events = after.since(before);
    assert(events.len() == ops(events).len());
    assert(events[0].op == ops(events)[0]);
    Machine::lemma_continues_join(origin, before, after);
    lemma_run_one(at, events);
    lemma_run_join(start, before.since(origin), at, events, SpinPhase::Idle);
}

/// Held `SpinLock`. Given up by `unlock`.
pub struct SpinLockGuard {
    interrupts_were_enabled: bool,
}

impl SpinLockGuard {
    /// Whether interrupts were enabled before the lock was acquired.
    pub closed spec fn interrupts_were_enabled(self) -> bool {
        self.interrupts_were_enabled
    }

    /// Release the lock, then restore interrupts to their previous state.
    pub fn unlock<S, F: Fn(S, Op) -> (S, u64)>(self, m: &mut Machine<S, F>)
        requires
            old(m).wf(),
        ensures
            final(m).continues(*old(m)),
            run(
                SpinPhase::Release { was: self.interrupts_were_enabled() },
                final(m).since(*old(m)),
                SpinPhase::Idle,
            ),
    {
        let was = self.interrupts_were_enabled;
        let ghost start = SpinPhase::Release { was };
        proof {
            m.lemma_continues_self();
            lemma_run_start(start);
        }
        let reply = m.perform(
            Op::Store { word: Word::Locked, value: 0, order: MemOrder::Release },
        );
        let ghost freed = *m;
        proof {
            lemma_advance(start, start, *old(m), *old(m), *m, reply);
        }
        restore_interrupts(m, was);
        proof {
            lemma_restored(start, *old(m), freed, *m, was);
        }
    }
}

// ---------------------------------------------------------------------------
// RwLock: reader-writer lock
// ---------------------------------------------------------------------------
/// The state of a reader-writer lock that a writer holds.
pub const WRITER_BIT: u32 = 0xFFFF_FFFF;

/// What a core is about to do with a reader-writer lock.
pub enum RwPhase {
    /// Nothing: the core neither holds nor wants the lock.
    Idle,
    /// Look at the state, to read.
    ReadLook,
    /// A writer holds the lock: spin.
    ReadPause,
    /// Become one more reader if there are still `readers`.
    ReadTake { readers: u32 },
    /// Look at the state, to read without waiting.
    TryReadLook,
    /// Become one more reader if there are still `readers`, else give up.
    TryReadTake { readers: u32 },
    /// Become the writer if nobody holds the lock.
    WriteTake,
    /// Somebody holds the lock: spin.
    WritePause,
    /// Become the writer if nobody holds the lock, else give up.
    TryWriteTake,
    /// Nothing: the core reads.
    Reading,
    /// Nothing: the core writes.
    Writing,
    /// Be a reader no more.
    ReadLeave,
    /// Be the writer no more.
    WriteLeave,
}

/// The exchange that changes the state of a reader-writer lock.
pub open spec fn rw_exchange(expected: u32, desired: u32, weak: bool) -> Op {
    Op::CompareExchange {
        word: Word::RwState,
        expected: expected as u64,
        desired: desired as u64,
        weak,
        success: MemOrder::Acquire,
        failure: MemOrder::Relaxed,
    }
}

impl Protocol for RwPhase {
    open spec fn op(self) -> Op {
        match self {
            RwPhase::ReadLook => Op::Load { word: Word::RwState, order: MemOrder::Relaxed },
            RwPhase::TryReadLook => Op::Load { word: Word::RwState, order: MemOrder::Relaxed },
            RwPhase::ReadTake { readers } => rw_exchange(readers, (readers + 1) as u32, true),
            RwPhase::TryReadTake { readers } => rw_exchange(readers, (readers + 1) as u32, false),
            RwPhase::WriteTake => rw_exchange(0, WRITER_BIT, true),
            RwPhase::TryWriteTake => rw_exchange(0, WRITER_BIT, false),
            RwPhase::ReadLeave => Op::FetchSub {
                word: Word::RwState,
                value: 1,
                order: MemOrder::Release,
            },
            RwPhase::WriteLeave => Op::Store {
                word: Word::RwState,
                value: 0,
                order: MemOrder::Release,
            },
            _ => Op::SpinHint,
        }
    }

    open spec fn next(self, reply: u64) -> Self {
        match self {
            RwPhase::ReadLook => if reply as u32 == WRITER_BIT {
                RwPhase::ReadPause
            } else {
                RwPhase::ReadTake { readers: reply as u32 }
            },
            RwPhase::ReadPause => RwPhase::ReadLook,
            RwPhase::ReadTake { .. } => if reply != 0 {
                RwPhase::Reading
            } else {
                RwPhase::ReadLook
            },
            RwPhase::TryReadLook => if reply as u32 == WRITER_BIT {
                RwPhase::Idle
            } else {
                RwPhase::TryReadTake { readers: reply as u32 }
            },
            RwPhase::TryReadTake { .. } => if reply != 0 {
                RwPhase::Reading
            } else {
                RwPhase::Idle
            },
            RwPhase::WriteTake => if reply != 0 {
                RwPhase::Writing
            } else {
                RwPhase::WritePause
            },
            RwPhase::WritePause => RwPhase::WriteTake,
            RwPhase::TryWriteTake => if reply != 0 {
                RwPhase::Writing
            } else {
                RwPhase::Idle
            },
            RwPhase::ReadLeave => RwPhase::Idle,
            RwPhase::WriteLeave => RwPhase::Idle,
            _ => self,
        }
    }

    open spec fn done(self) -> bool {
        self is Idle || self is Reading || self is Writing
    }
}

/// A reader-writer spinlock.
///
/// Multiple readers can hold the lock simultaneously, but a writer gets exclusive
/// access. Writers are not prioritized. The state is 0 while nobody holds the
/// lock, the number of readers while some read, and `WRITER_BIT` while one
/// writes. The field is what the state starts with.
pub struct RwLock {
    pub state: u32,
}

impl RwLock {
    /// A lock that nobody has used yet.
    pub open spec fn unused() -> Self {
        RwLock { state: 0 }
    }

    /// Create a new reader-writer lock.
    pub fn new() -> (lock: Self)
        ensures
            lock == Self::unused(),
    {
        Self { state: 0 }
    }

    /// Acquire a read lock. Spins until no writer holds the lock.
    pub fn read<S, F: Fn(S, Op) -> (S, u64)>(m: &mut Machine<S, F>) -> (guard: RwLockReadGuard)
        requires
            old(m).wf(),
            settles(old(m).io(), old(m).state(), RwPhase::ReadLook),
        ensures
            final(m).continues(*old(m)),
            run(RwPhase::ReadLook, final(m).since(*old(m)), RwPhase::Reading),
    {
        let ghost start = RwPhase::ReadLook;
        let ghost mut bound: nat = choose|n: nat|
            !#[trigger] may_stall(m.io(), m.state(), start, n);
        proof {
            m.lemma_continues_self();
            lemma_run_start(start);
        }
        loop
            invariant_except_break
                m.continues(*old(m)),
                start == RwPhase::ReadLook,
                run(start, m.since(*old(m)), start),
                !may_stall(m.io(), m.state(), start, bound),
            ensures
                m.continues(*old(m)),
                run(start, m.since(*old(m)), RwPhase::Reading),
            decreases bound,
        {
            let ghost before = *m;
            let reply = m.perform(Op::Load { word: Word::RwState, order: MemOrder::Relaxed });
            let current = reply as u32;
            let ghost looked = *m;
            proof {
                lemma_follow(start, start, *old(m), before, *m, reply, bound);
                bound = (bound - 1) as nat;
            }
            if current == WRITER_BIT {
                let reply = m.perform(Op::SpinHint);
                proof {
                    let pause = RwPhase::ReadPause;
                    lemma_follow(start, pause, *old(m), looked, *m, reply, bound);
                    bound = (bound - 1) as nat;
                }
                continue;
            }
            let taken = m.perform(
                Op::CompareExchange {
                    word: Word::RwState,
                    expected: current as u64,
                    desired: (current + 1) as u64,
                    weak: true,
                    success: MemOrder::Acquire,
                    failure: MemOrder::Relaxed,
                },
            );
            proof {
                let at = RwPhase::ReadTake { readers: current };
                lemma_follow(start, at, *old(m), looked, *m, taken, bound);
                bound = (bound - 1) as nat;
            }
            if taken != 0 {
                break;
            }
        }
        RwLockReadGuard { held: true }
    }

    /// Try to acquire a read lock without spinning.
    pub fn try_read<S, F: Fn(S, Op) -> (S, u64)>(m: &mut Machine<S, F>) -> (guard: Option<
        RwLockReadGuard,
    >)
        requires
            old(m).wf(),
        ensures
            final(m).continues(*old(m)),
            run(
                RwPhase::TryReadLook,
                final(m).since(*old(m)),
                match guard {
                    Some(_) => RwPhase::Reading,
                    None => RwPhase::Idle,
                },
            ),
    {
        let ghost start = RwPhase::TryReadLook;
        proof {
            m.lemma_continues_self();
            lemma_run_start(start);
        }
        let reply = m.perform(Op::Load { word: Word::RwState, order: MemOrder::Relaxed });
        let current = reply as u32;
        let ghost looked = *m;
        proof {
            lemma_advance(start, start, *old(m), *old(m), *m, reply);
        }
        if current == WRITER_BIT {
            return None;
        }
        let taken = m.perform(
            Op::CompareExchange {
                word: Word::RwState,
                expected: current as u64,
                desired: (current + 1) as u64,
                weak: false,
                success: MemOrder::Acquire,
                failure: MemOrder::Relaxed,
            },
        );
        proof {
            let at = RwPhase::TryReadTake { readers: current };
            lemma_advance(start, at, *old(m), looked, *m, taken);
        }
        if taken != 0 {
            Some(RwLockReadGuard { held: true })
        } else {
            None
        }
    }

    /// Acquire a write lock. Spins until all readers and any writer release.
    pub fn write<S, F: Fn(S, Op) -> (S, u64)>(m: &mut Machine<S, F>) -> (guard: RwLockWriteGuard)
        requires
            old(m).wf(),
            settles(old(m).io(), old(m).state(), RwPhase::WriteTake),
        ensures
            final(m).continues(*old(m)),
            run(RwPhase::WriteTake, final(m).since(*old(m)), RwPhase::Writing),
    {
        let ghost start = RwPhase::WriteTake;
        let ghost mut bound: nat = choose|n: nat|
            !#[trigger] may_stall(m.io(), m.state(), start, n);
        proof {
            m.lemma_continues_self();
            lemma_run_start(start);
        }
        loop
            invariant_except_break
                m.continues(*old(m)),
                start == RwPhase::WriteTake,
                run(start, m.since(*old(m)), start),
                !may_stall(m.io(), m.state(), start, bound),
            ensures
                m.continues(*old(m)),
                run(start, m.since(*old(m)), RwPhase::Writing),
            decreases bound,
        {
            let ghost before = *m;
            let taken = m.perform(
                Op::CompareExchange {
                    word: Word::RwState,
                    expected: 0,
                    desired: WRITER_BIT as u64,
                    weak: true,
                    success: MemOrder::Acquire,
                    failure: MemOrder::Relaxed,
                },
            );
            proof {
                lemma_follow(start, start, *old(m), before, *m, taken, bound);
                bound = (bound - 1) as nat;
            }
            if taken != 0 {
                break;
            }
            let ghost busy = *m;
            let reply = m.perform(Op::SpinHint);
            proof {
                let pause = RwPhase::WritePause;
                lemma_follow(start, pause, *old(m), busy, *m, reply, bound);
                bound = (bound - 1) as nat;
            }
        }
        RwLockWriteGuard { held: true }
    }

    /// Try to acquire a write lock without spinning.
    pub fn try_write<S, F: Fn(S, Op) -> (S, u64)>(m: &mut Machine<S, F>) -> (guard: Option<
        RwLockWriteGuard,
    >)
        requires
            old(m).wf(),
        ensures
            final(m).continues(*old(m)),
            run(
                RwPhase::TryWriteTake,
                final(m).since(*old(m)),
                match guard {
                    Some(_) => RwPhase::Writing,
                    None => RwPhase::Idle,
                },
            ),
    {
        let ghost start = RwPhase::TryWriteTake;
        proof {
            m.lemma_continues_self();
            lemma_run_start(start);
        }
        let taken = m.perform(
            Op::CompareExchange {
                word: Word::RwState,
                expected: 0,
                desired: WRITER_BIT as u64,
                weak: false,
                success: MemOrder::Acquire,
                failure: MemOrder::Relaxed,
            },
        );
        proof {
            lemma_advance(start, start, *old(m), *old(m), *m, taken);
        }
        if taken != 0 {
            Some(RwLockWriteGuard { held: true })
        } else {
            None
        }
    }
}

/// Read access to an `RwLock`. Given up by `unlock`.
pub struct RwLockReadGuard {
    /// Guards come from the lock only.
    held: bool,
}

impl RwLockReadGuard {
    /// Release the read lock.
    pub fn unlock<S, F: Fn(S, Op) -> (S, u64)>(self, m: &mut Machine<S, F>)
        requires
            old(m).wf(),
        ensures
            final(m).continues(*old(m)),
            run(RwPhase::ReadLeave, final(m).since(*old(m)), RwPhase::Idle),
    {
        let ghost start = RwPhase::ReadLeave;
        proof {
            m.lemma_continues_self();
            lemma_run_start(start);
        }
        let reply = m.perform(
            Op::FetchSub { word: Word::RwState, value: 1, order: MemOrder::Release },
        );
        proof {
            lemma_advance(start, start, *old(m), *old(m), *m, reply);
        }
    }
}

/// Write access to an `RwLock`. Given up by `unlock`.
pub struct RwLockWriteGuard {
    /// Guards come from the lock only.
    held: bool,
}

impl RwLockWriteGuard {
    /// Release the write lock.
    pub fn unlock<S, F: Fn(S, Op) -> (S, u64)>(self, m: &mut Machine<S, F>)
        requires
            old(m).wf(),
        ensures
            final(m).continues(*old(m)),
            run(RwPhase::WriteLeave, final(m).since(*old(m)), RwPhase::Idle),
    {
        let ghost start = RwPhase::WriteLeave;
        proof {
            m.lemma_continues_self();
            lemma_run_start(start);
        }
        let reply = m.perform(
            Op::Store { word: Word::RwState, value: 0, order: MemOrder::Release },
        );
        proof {
            lemma_advance(start, start, *old(m), *old(m), *m, reply);
        }
    }
}

// ---------------------------------------------------------------------------
// Once: one-time initialization
// ---------------------------------------------------------------------------
/// State of a `Once` whose initializer did not start.
pub const ONCE_UNINIT: u32 = 0;

/// State of a `Once` whose initializer is running.
pub const ONCE_RUNNING: u32 = 1;

/// State of a `Once` whose initializer has run.
pub const ONCE_DONE: u32 = 2;

/// What a core is about to do with a one-time initialization.
pub enum OncePhase {
    /// Look whether the initializer has run.
    Check,
    /// Claim the initializer if nobody has.
    Claim,
    /// Run the initializer.
    Run,
    /// Tell that the initializer has run.
    Publish,
    /// Another core runs the initializer: look whether it has.
    Await,
    /// It has not: spin.
    Pause,
    /// Nothing: the initializer has run.
    Done,
}

impl Protocol for OncePhase {
    open spec fn op(self) -> Op {
        match self {
            OncePhase::Check => Op::Load { word: Word::OnceState, order: MemOrder::Acquire },
            OncePhase::Claim => Op::CompareExchange {
                word: Word::OnceState,
                expected: ONCE_UNINIT as u64,
                desired: ONCE_RUNNING as u64,
                weak: false,
                success: MemOrder::Acquire,
                failure: MemOrder::Relaxed,
            },
            OncePhase::Run => Op::Initialize,
            OncePhase::Publish => Op::Store {
                word: Word::OnceState,
                value: ONCE_DONE as u64,
                order: MemOrder::Release,
            },
            OncePhase::Await => Op::Load { word: Word::OnceState, order: MemOrder::Acquire },
            _ => Op::SpinHint,
        }
    }

    open spec fn next(self, reply: u64) -> Self {
        match self {
            OncePhase::Check => if reply as u32 == ONCE_DONE {
                OncePhase::Done
            } else {
                OncePhase::Claim
            },
            OncePhase::Claim => if reply != 0 {
                OncePhase::Run
            } else {
                OncePhase::Await
            },
            OncePhase::Run => OncePhase::Publish,
            OncePhase::Publish => OncePhase::Done,
            OncePhase::Await => if reply as u32 == ONCE_DONE {
                OncePhase::Done
            } else {
                OncePhase::Pause
            },
            OncePhase::Pause => OncePhase::Await,
            OncePhase::Done => OncePhase::Done,
        }
    }

    open spec fn done(self) -> bool {
        self is Done
    }
}

/// A one-time initialization primitive.
///
/// Ensures an initializer runs exactly once, even under concurrent access. The
/// field is what the state starts with.
pub struct Once {
    pub state: u32,
}

impl Once {
    /// A `Once` that nobody has called yet.
    pub open spec fn unused() -> Self {
        Once { state: ONCE_UNINIT }
    }

    /// Create a new uninitialized `Once`.
    pub fn new() -> (once: Self)
        ensures
            once == Self::unused(),
    {
        Self { state: ONCE_UNINIT }
    }

    /// Run the initializer exactly once. If another core is currently running it,
    /// this will spin until completion.
    pub fn call_once<S, F: Fn(S, Op) -> (S, u64)>(m: &mut Machine<S, F>)
        requires
            old(m).wf(),
            settles(old(m).io(), old(m).state(), OncePhase::Check),
        ensures
            final(m).continues(*old(m)),
            run(OncePhase::Check, final(m).since(*old(m)), OncePhase::Done),
    {
        let ghost start = OncePhase::Check;
        let ghost mut bound: nat = choose|n: nat|
            !#[trigger] may_stall(m.io(), m.state(), start, n);
        proof {
            m.lemma_continues_self();
            lemma_run_start(start);
        }
        let reply = m.perform(Op::Load { word: Word::OnceState, order: MemOrder::Acquire });
        let ghost checked = *m;
        proof {
            lemma_follow(start, start, *old(m), *old(m), *m, reply, bound);
            bound = (bound - 1) as nat;
        }
        if reply as u32 == ONCE_DONE {
            return;
        }
        let claimed = m.perform(
            Op::CompareExchange {
                word: Word::OnceState,
                expected: ONCE_UNINIT as u64,
                desired: ONCE_RUNNING as u64,
                weak: false,
                success: MemOrder::Acquire,
                failure: MemOrder::Relaxed,
            },
        );
        let ghost decided = *m;
        proof {
            lemma_follow(start, OncePhase::Claim, *old(m), checked, *m, claimed, bound);
            bound = (bound - 1) as nat;
        }
        if claimed != 0 {
            let reply = m.perform(Op::Initialize);
            let ghost initialized = *m;
            proof {
                lemma_follow(start, OncePhase::Run, *old(m), decided, *m, reply, bound);
                bound = (bound - 1) as nat;
            }
            let reply = m.perform(
                Op::Store {
                    word: Word::OnceState,
                    value: ONCE_DONE as u64,
                    order: MemOrder::Release,
                },
            );
            proof {
                lemma_follow(start, OncePhase::Publish, *old(m), initialized, *m, reply, bound);
            }
        } else {
            loop
                invariant_except_break
                    m.continues(*old(m)),
                    start == OncePhase::Check,
                    run(start, m.since(*old(m)), OncePhase::Await),
                    !may_stall(m.io(), m.state(), OncePhase::Await, bound),
                ensures
                    m.continues(*old(m)),
                    run(start, m.since(*old(m)), OncePhase::Done),
                decreases bound,
            {
                let ghost before = *m;
                let reply = m.perform(
                    Op::Load { word: Word::OnceState, order: MemOrder::Acquire },
                );
                proof {
                    lemma_follow(start, OncePhase::Await, *old(m), before, *m, reply, bound);
                    bound = (bound - 1) as nat;
                }
                if reply as u32 == ONCE_DONE {
                    break;
                }
                let ghost busy = *m;
                let reply = m.perform(Op::SpinHint);
                proof {
                    lemma_follow(start, OncePhase::Pause, *old(m), busy, *m, reply, bound);
                    bound = (bound - 1) as nat;
                }
            }
        }
    }

    /// Check if initialization has completed.
    pub fn is_completed<S, F: Fn(S, Op) -> (S, u64)>(m: &mut Machine<S, F>) -> (completed: bool)
        requires
            old(m).wf(),
        ensures
            final(m).performed(
                *old(m),
                seq![Op::Load { word: Word::OnceState, order: MemOrder::Acquire }],
            ),
            completed == (final(m).since(*old(m))[0].reply as u32 == ONCE_DONE),
    {
        m.perform(Op::Load { word: Word::OnceState, order: MemOrder::Acquire }) as u32 == ONCE_DONE
    }
}

// ---------------------------------------------------------------------------
// Fences
// ---------------------------------------------------------------------------
/// Atomic fence with sequential consistency.
pub fn fence_seq_cst<S, F: Fn(S, Op) -> (S, u64)>(m: &mut Machine<S, F>)
    requires
        old(m).wf(),
    ensures
        final(m).performed(*old(m), seq![Op::Fence { order: MemOrder::SeqCst }]),
{
    m.perform(Op::Fence { order: MemOrder::SeqCst });
}

/// Atomic fence with acquire ordering.
pub fn fence_acquire<S, F: Fn(S, Op) -> (S, u64)>(m: &mut Machine<S, F>)
    requires
        old(m).wf(),
    ensures
        final(m).performed(*old(m), seq![Op::Fence { order: MemOrder::Acquire }]),
{
    m.perform(Op::Fence { order: MemOrder::Acquire });
}

/// Atomic fence with release ordering.
pub fn fence_release<S, F: Fn(S, Op) -> (S, u64)>(m: &mut Machine<S, F>)
    requires
        old(m).wf(),
    ensures
        final(m).performed(*old(m), seq![Op::Fence { order: MemOrder::Release }]),
{
    m.perform(Op::Fence { order: MemOrder::Release });
}

/// Memory fence via the `mfence` instruction (full barrier).
pub fn mfence<S, F: Fn(S, Op) -> (S, u64)>(m: &mut Machine<S, F>)
    requires
        old(m).wf(),
    ensures
        final(m).performed(*old(m), seq![Op::Mfence]),
{
    m.perform(Op::Mfence);
}

/// Store fence via the `sfence` instruction (store barrier).
pub fn sfence<S, F: Fn(S, Op) -> (S, u64)>(m: &mut Machine<S, F>)
    requires
        old(m).wf(),
    ensures
        final(m).performed(*old(m), seq![Op::Sfence]),
{
    m.perform(Op::Sfence);
}

/// Load fence via the `lfence` instruction (load barrier).
pub fn lfence<S, F: Fn(S, Op) -> (S, u64)>(m: &mut Machine<S, F>)
    requires
        old(m).wf(),
    ensures
        final(m).performed(*old(m), seq![Op::Lfence]),
{
    m.perform(Op::Lfence);
}

} // verus!
