//! The shared words, as the operations of several cores act on them one at a time.
use vstd::prelude::*;

use crate::machine::{Event, Op, Word};

verus! {

/// How many values a word has.
pub open spec fn word_values() -> int {
    0x1_0000_0000_0000_0000
}

/// The shared words.
pub struct Memory {
    pub words: Map<Word, u64>,
}

impl Memory {
    /// Whether `reply` can come back from the operation.
    pub open spec fn permits(self, op: Op, reply: u64) -> bool {
        match op {
            Op::Load { word, .. } => reply == self.words[word],
            Op::FetchAdd { word, .. } => reply == self.words[word],
            Op::FetchSub { word, .. } => reply == self.words[word],
            Op::CompareExchange { word, expected, weak, .. } => if reply != 0 {
                self.words[word] == expected
            } else {
                weak || self.words[word] != expected
            },
            _ => true,
        }
    }

    /// The words after an operation that gave `reply`.
    pub open spec fn after(self, op: Op, reply: u64) -> Memory {
        let words = match op {
            Op::Store { word, value, .. } => self.words.insert(word, value),
            Op::FetchAdd { word, value, .. } => self.words.insert(
                word,
                ((self.words[word] + value) % word_values()) as u64,
            ),
            Op::FetchSub { word, value, .. } => self.words.insert(
                word,
                ((self.words[word] - value) % word_values()) as u64,
            ),
            Op::CompareExchange { word, desired, .. } => if reply != 0 {
                self.words.insert(word, desired)
            } else {
                self.words
            },
            _ => self.words,
        };
        Memory { words }
    }
}

/// Whether `events` is a course of operations, of whatever cores, on shared words
/// that run through `memories`.
pub open spec fn memory_history(memories: Seq<Memory>, events: Seq<Event>) -> bool {
    &&& memories.len() == events.len() + 1
    &&& forall|k: int|
        0 <= k < events.len() ==> (#[trigger] memories[k]).permits(events[k].op, events[k].reply)
            && memories[k + 1] == memories[k].after(events[k].op, events[k].reply)
}

/// A list of distinct indices is no longer than the range they come from.
pub proof fn lemma_distinct_indices(indices: Seq<int>, n: nat)
    requires
        indices.no_duplicates(),
        forall|i: int| 0 <= i < indices.len() ==> 0 <= #[trigger] indices[i] < n,
    ensures
        indices.len() <= n,
{
    let all = vstd::set_lib::set_int_range(0, n as int);
    vstd::set_lib::lemma_int_range(0, n as int);
    indices.unique_seq_to_set();
    assert(indices.to_set().subset_of(all));
    vstd::set_lib::lemma_len_subset(indices.to_set(), all);
}

} // verus!
