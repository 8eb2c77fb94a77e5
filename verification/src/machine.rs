//! The machine as the drivers see it.
//!
//! Every effect of this library on the outside (a device register, a model
//! specific register, a shared word, an instruction such as `cli`) is one
//! [`Op`]. A [`Machine`] pairs the code that carries operations out with the
//! state that this code works on, and keeps, for the proofs only, the record of
//! everything that was carried out and what came back.
use vstd::prelude::*;

verus! {

/// How an access to a shared word is ordered against other accesses.
#[derive(Clone, Copy, Debug, PartialEq, Eq, Structural)]
pub enum MemOrder {
    Relaxed,
    Acquire,
    Release,
    SeqCst,
}

/// A word that several cores access concurrently.
#[derive(Clone, Copy, Debug, PartialEq, Eq, Structural)]
pub enum Word {
    /// The next ticket of a ticket lock.
    NextTicket,
    /// The ticket that a ticket lock serves now.
    NowServing,
    /// The flag of a spin lock.
    Locked,
    /// The state of a reader-writer lock.
    RwState,
    /// The state of a one-time initialization.
    OnceState,
    /// The counter that task identifiers come from.
    NextTaskId,
    /// Whether some core has switched to x2APIC mode.
    X2ApicActive,
    /// Whether application processors are to halt.
    ApHalt,
    /// How many application processors have booted.
    ApsBooted,
}

/// One operation on the outside, carried out as a unit.
#[allow(inconsistent_fields)]
#[derive(Clone, Copy, Debug, PartialEq, Eq, Structural)]
pub enum Op {
    /// Read a 32-bit device register. The reply holds it in its low half.
    ReadMmio { addr: u64 },
    /// Write a 32-bit device register.
    WriteMmio { addr: u64, value: u32 },
    /// `rdmsr`. The reply is the register.
    ReadMsr { msr: u32 },
    /// `wrmsr`.
    WriteMsr { msr: u32, value: u64 },
    /// `cpuid` for a leaf. The reply holds ECX in its low half.
    CpuidEcx { leaf: u32 },
    /// Read CR3.
    ReadCr3,
    /// Read RFLAGS.
    ReadFlags,
    /// `cli`.
    Cli,
    /// `sti`.
    Sti,
    /// `cli; hlt`.
    CliHalt,
    /// `sti; hlt; cli`.
    StiHaltCli,
    /// The hint that the core is spinning.
    SpinHint,
    /// Wait for about the given number of milliseconds.
    DelayMs { ms: u32 },
    /// Run the initializer of a one-time initialization to its end.
    Initialize,
    /// Set `len` bytes of memory to `byte`.
    FillMem { addr: u64, len: u64, byte: u8 },
    /// Store a byte.
    WriteMem8 { addr: u64, value: u8 },
    /// Store 32 bits.
    WriteMem32 { addr: u64, value: u32 },
    /// Store 64 bits.
    WriteMem64 { addr: u64, value: u64 },
    /// Atomically load 32 bits. The reply holds them in its low half.
    LoadMem32 { addr: u64, order: MemOrder },
    /// Atomically store 32 bits.
    StoreMem32 { addr: u64, value: u32, order: MemOrder },
    /// Atomically load a shared word. The reply is its value.
    Load { word: Word, order: MemOrder },
    /// Atomically store a shared word.
    Store { word: Word, value: u64, order: MemOrder },
    /// Atomically add to a shared word, wrapping. The reply is the old value.
    FetchAdd { word: Word, value: u64, order: MemOrder },
    /// Atomically subtract from a shared word, wrapping. The reply is the old value.
    FetchSub { word: Word, value: u64, order: MemOrder },
    /// Atomically replace a shared word if it holds `expected`. The reply is 0
    /// if it was not replaced. A weak exchange may fail without a reason.
    CompareExchange {
        word: Word,
        expected: u64,
        desired: u64,
        weak: bool,
        success: MemOrder,
        failure: MemOrder,
    },
    /// A fence for atomic accesses.
    Fence { order: MemOrder },
    /// `mfence`.
    Mfence,
    /// `sfence`.
    Sfence,
    /// `lfence`.
    Lfence,
}

/// The register that `rdmsr` gives back in EAX and EDX.
pub open spec fn spec_msr_value(low: u32, high: u32) -> u64 {
    (high * 0x1_0000_0000 + low) as u64
}

/// The halves of a register come back from it, and a register from its halves.
pub proof fn law_msr_halves(low: u32, high: u32, value: u64)
    ensures
        spec_msr_value(low, high) % 0x1_0000_0000 == low,
        spec_msr_value(low, high) / 0x1_0000_0000 == high,
        spec_msr_value(
            (value % 0x1_0000_0000) as u32,
            (value / 0x1_0000_0000) as u32,
        ) == value,
{
}

/// The register that `rdmsr` gives back in EAX (`low`) and EDX (`high`).
pub fn msr_value(low: u32, high: u32) -> (value: u64)
    ensures
        value == spec_msr_value(low, high),
{
    assert(((high as u64) << 32) | (low as u64) == high * 0x1_0000_0000 + low) by (bit_vector);
    ((high as u64) << 32) | (low as u64)
}

/// The halves of a register that `wrmsr` takes in EAX and EDX.
pub fn msr_halves(value: u64) -> (halves: (u32, u32))
    ensures
        halves.0 == value % 0x1_0000_0000,
        halves.1 == value / 0x1_0000_0000,
        spec_msr_value(halves.0, halves.1) == value,
{
    assert(value as u32 == value % 0x1_0000_0000) by (bit_vector);
    assert((value >> 32) as u32 == value / 0x1_0000_0000) by (bit_vector);
    (value as u32, (value >> 32) as u32)
}

/// An operation that was carried out, with what came back.
pub struct Event {
    pub op: Op,
    pub reply: u64,
}

/// The operations of a record, without the replies.
pub open spec fn ops(events: Seq<Event>) -> Seq<Op> {
    Seq::new(events.len(), |i: int| events[i].op)
}

/// The code that carries operations out, the state that it works on, and the
/// record of what was carried out.
#[verifier::reject_recursive_types(S)]
#[verifier::reject_recursive_types(F)]
pub struct Machine<S, F> {
    state: Option<S>,
    io: F,
    trace: Ghost<Seq<Event>>,
    history: Ghost<Seq<S>>,
}

impl<S, F: Fn(S, Op) -> (S, u64)> Machine<S, F> {
    /// Everything carried out so far.
    pub closed spec fn trace(self) -> Seq<Event> {
        self.trace@
    }

    /// The state that the next operation starts from.
    pub closed spec fn state(self) -> S {
        self.state->0
    }

    /// The code that carries operations out.
    pub closed spec fn io(self) -> F {
        self.io
    }

    /// The states between the operations of the record.
    pub closed spec fn history(self) -> Seq<S> {
        self.history@
    }

    /// Whether a machine is as its operations left it: the code accepts every
    /// operation, and the record holds exactly the calls that were made, each on
    /// the state that the one before it left behind.
    pub closed spec fn wf(self) -> bool {
        &&& self.state is Some
        &&& forall|s: S, op: Op| #[trigger] call_requires(self.io, (s, op))
        &&& self.history@.len() == self.trace@.len() + 1
        &&& self.history@.last() == self.state->0
        &&& forall|i: int|
            #![trigger self.trace@[i]]
            0 <= i < self.trace@.len() ==> call_ensures(
                self.io,
                (self.history@[i], self.trace@[i].op),
                (self.history@[i + 1], self.trace@[i].reply),
            )
    }

    /// The record holds exactly the calls that were made: each operation took the
    /// state before it to the state after it, and gave the recorded reply.
    pub proof fn lemma_history(self)
        requires
            self.wf(),
        ensures
            self.history().len() == self.trace().len() + 1,
            self.history().last() == self.state(),
            forall|i: int|
                #![trigger self.trace()[i]]
                0 <= i < self.trace().len() ==> call_ensures(
                    self.io(),
                    (self.history()[i], self.trace()[i].op),
                    (self.history()[i + 1], self.trace()[i].reply),
                ),
    {
    }

    /// What was carried out after `before`.
    pub open spec fn since(self, before: Self) -> Seq<Event> {
        self.trace().skip(before.trace().len() as int)
    }

    /// Whether this is `before` with more operations carried out.
    pub open spec fn continues(self, before: Self) -> bool {
        &&& self.wf()
        &&& self.io() == before.io()
        &&& self.trace().len() >= before.trace().len()
        &&& self.trace() == before.trace() + self.since(before)
        &&& before.history().is_prefix_of(self.history())
    }

    /// Whether this is `before` with exactly the given operations carried out.
    pub open spec fn performed(self, before: Self, list: Seq<Op>) -> bool {
        &&& self.continues(before)
        &&& ops(self.since(before)) == list
    }

    /// What was performed is what the record has more than before: each operation of the
    /// list, in order, and no other.
    pub proof fn law_performed(self, before: Self, list: Seq<Op>, i: int)
        requires
            self.performed(before, list),
        ensures
            self.trace().len() == before.trace().len() + list.len(),
            0 <= i < before.trace().len() ==> self.trace()[i] == before.trace()[i],
            0 <= i < list.len() ==> self.trace()[before.trace().len() + i].op == list[i],
    {
        if 0 <= i < list.len() {
            assert(ops(self.since(before))[i] == self.since(before)[i].op);
        }
        assert(ops(self.since(before)).len() == self.since(before).len());
    }

    /// Continuing twice is continuing.
    pub proof fn lemma_continues_join(first: Self, second: Self, third: Self)
        requires
            second.continues(first),
            third.continues(second),
        ensures
            third.continues(first),
            third.since(first) == second.since(first) + third.since(second),
    {
        assert(third.since(first) =~= second.since(first) + third.since(second));
        assert(third.trace() =~= first.trace() + third.since(first));
    }

    /// What was carried out in two parts was carried out as a whole.
    pub proof fn lemma_performed_join(
        first: Self,
        second: Self,
        third: Self,
        before: Seq<Op>,
        after: Seq<Op>,
    )
        requires
            second.performed(first, before),
            third.performed(second, after),
        ensures
            third.performed(first, before + after),
            third.since(first) == second.since(first) + third.since(second),
    {
        Self::lemma_continues_join(first, second, third);
        assert(ops(third.since(first)) =~= before + after);
    }

    /// One more operation was carried out.
    pub proof fn lemma_performed_push(
        first: Self,
        second: Self,
        third: Self,
        before: Seq<Op>,
        op: Op,
    )
        requires
            second.performed(first, before),
            third.performed(second, seq![op]),
        ensures
            third.performed(first, before.push(op)),
            third.since(first) == second.since(first).push(third.since(second)[0]),
    {
        Self::lemma_performed_join(first, second, third, before, seq![op]);
        assert(before + seq![op] =~= before.push(op));
        assert(third.since(second).len() == ops(third.since(second)).len());
        assert(third.since(second) =~= seq![third.since(second)[0]]);
        assert(third.since(first) =~= second.since(first).push(third.since(second)[0]));
    }

    /// Nothing carried out is continuing.
    pub proof fn lemma_continues_self(self)
        requires
            self.wf(),
        ensures
            self.continues(self),
            self.since(self) == Seq::<Event>::empty(),
    {
        assert(self.since(self) =~= Seq::<Event>::empty());
        assert(self.trace() =~= self.trace() + self.since(self));
    }

    /// A machine on which nothing was carried out yet.
    pub fn new(state: S, io: F) -> (machine: Self)
        requires
            forall|s: S, op: Op| #[trigger] call_requires(io, (s, op)),
        ensures
            machine.wf(),
            machine.trace() == Seq::<Event>::empty(),
            machine.state() == state,
            machine.io() == io,
    {
        let ghost history = seq![state];
        Machine { state: Some(state), io, trace: Ghost(Seq::empty()), history: Ghost(history) }
    }

    /// The state that the operations left behind.
    pub fn into_state(self) -> (state: S)
        requires
            self.wf(),
        ensures
            state == self.state(),
    {
        let mut machine = self;
        machine.state.take().unwrap()
    }

    /// Carry out one operation.
    pub fn perform(&mut self, op: Op) -> (reply: u64)
        requires
            old(self).wf(),
        ensures
            final(self).continues(*old(self)),
            final(self).trace() == old(self).trace().push(Event { op, reply }),
            final(self).since(*old(self)) == seq![Event { op, reply }],
            final(self).performed(*old(self), seq![op]),
            call_ensures(
                old(self).io(),
                (old(self).state(), op),
                (final(self).state(), reply),
            ),
    {
        let before = self.state.take().unwrap();
        let (after, reply) = (self.io)(before, op);
        self.state = Some(after);
        proof {
            self.trace@ = self.trace@.push(Event { op, reply });
            self.history@ = self.history@.push(after);
        }
        proof {
            assert(self.since(*old(self)) =~= seq![Event { op, reply }]);
            assert(ops(self.since(*old(self))) =~= seq![op]);
            assert(self.trace() =~= old(self).trace() + self.since(*old(self)));
            assert(old(self).history().is_prefix_of(self.history()));
            assert forall|i: int|
                #![trigger self.trace@[i]]
                0 <= i < self.trace@.len() implies call_ensures(
                self.io,
                (self.history@[i], self.trace@[i].op),
                (self.history@[i + 1], self.trace@[i].reply),
            ) by {
                if i < old(self).trace@.len() {
                    assert(old(self).trace@[i] == self.trace@[i]);
                }
            }
        }
        reply
    }
}

} // verus!
