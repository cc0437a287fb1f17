//! The two counters of a ring buffer, and which slots they give to the writer and to the reader.
//!
//! Nothing here touches the slots: the counters, and the number of slots, decide everything. Both
//! counters fit into one 64-bit word, so that a ring buffer that is shared between threads can
//! load them together.

use crate::ring_state::{
    allocated_run_len,
    counted,
    counters_fit,
    lemma_slot,
    read_run_len,
    slot,
    unallocated_run_len,
    write_run_len,
};
use vstd::prelude::*;

verus! {

/// The number of elements ever taken out of a ring buffer, and of those ever put in, as 32-bit
/// counters.
#[derive(Debug, Clone, Copy, PartialEq, Eq, Structural)]
pub struct BundledCounters {
    pub read_at: u32,
    pub write_at: u32,
}

impl BundledCounters {
    /// The counters fit a ring buffer with `cap` slots.
    pub open spec fn fit(self, cap: nat) -> bool {
        counters_fit(self.read_at as int, self.write_at as int, cap as int)
    }

    /// Counters of a ring buffer that was never used.
    pub fn new() -> (counters: Self)
        ensures
            counters.read_at == 0,
            counters.write_at == 0,
    {
        BundledCounters { read_at: 0, write_at: 0 }
    }

    /// Both counters from one word: the read counter is its lower half, the write counter its
    /// upper half.
    pub fn from_word(word: u64) -> (counters: Self)
        ensures
            counters.read_at == word % 0x1_0000_0000,
            counters.write_at == word / 0x1_0000_0000,
    {
        BundledCounters {
            read_at: (word % 0x1_0000_0000) as u32,
            write_at: (word / 0x1_0000_0000) as u32,
        }
    }

    /// Both counters in one word, as `from_word` reads it.
    pub fn to_word(self) -> (word: u64)
        ensures
            word == self.read_at + self.write_at * 0x1_0000_0000,
    {
        self.read_at as u64 + self.write_at as u64 * 0x1_0000_0000
    }

    /// Both counters, the read counter first.
    pub fn load_pair(&self) -> (pair: (usize, usize))
        ensures
            pair.0 == self.read_at,
            pair.1 == self.write_at,
    {
        (self.read_at as usize, self.write_at as usize)
    }

    /// The number of queued elements.
    pub fn len(&self) -> (len: usize)
        requires
            self.read_at <= self.write_at,
        ensures
            len == self.write_at - self.read_at,
    {
        let (read_at, write_at) = self.load_pair();
        write_at - read_at
    }

    /// The largest run of free slots in one piece behind the queue: its first slot, and the slot
    /// after its last.
    pub fn write_run(&self, cap: usize) -> (run: (usize, usize))
        requires
            self.fit(cap as nat),
        ensures
            run.0 == self.write_at as int % cap as int,
            run.1 - run.0 <= cap - (self.write_at - self.read_at),
            run.1 == cap || run.1 - run.0 == cap - (self.write_at - self.read_at),
            run.0 == slot(self.write_at as int, 0, cap as int),
            run.1 - run.0 == write_run_len(self.read_at as int, self.write_at as int, cap as int),
            run.0 <= run.1 <= cap,
    {
        let (read_at, write_at) = self.load_pair();
        proof {
            lemma_slot(write_at as int, 0, cap as int);
        }
        let begin = write_at % cap;
        let window = cap - (write_at - read_at);
        let end = if window < cap - begin {
            begin + window
        } else {
            cap
        };
        (begin, end)
    }

    /// The largest run of queued elements in one piece from the oldest on: its first slot, and the
    /// slot after its last.
    pub fn read_run(&self, cap: usize) -> (run: (usize, usize))
        requires
            self.fit(cap as nat),
        ensures
            run.0 == self.read_at as int % cap as int,
            run.1 - run.0 <= self.write_at - self.read_at,
            run.1 == cap || run.1 - run.0 == self.write_at - self.read_at,
            run.0 == slot(self.read_at as int, 0, cap as int),
            run.1 - run.0 == read_run_len(self.read_at as int, self.write_at as int, cap as int),
            run.0 <= run.1 <= cap,
    {
        let (read_at, write_at) = self.load_pair();
        proof {
            lemma_slot(read_at as int, 0, cap as int);
        }
        let begin = read_at % cap;
        let len = write_at - read_at;
        let end = if len < cap - begin {
            begin + len
        } else {
            cap
        };
        (begin, end)
    }

    /// The largest run of free slots in one piece that starts `offset` behind the queue, and has no
    /// more than `size` slots: its first slot, and the slot after its last.
    pub fn unallocated_run(&self, offset: usize, size: usize, cap: usize) -> (run: (usize, usize))
        requires
            self.fit(cap as nat),
        ensures
            ({
                let left = cap - (self.write_at - self.read_at) - offset;
                let begin = (self.write_at + offset) % cap as int;
                &&& left < 0 ==> run.1 == run.0
                &&& left >= 0 ==> {
                    &&& run.0 == begin
                    &&& run.1 - run.0 <= size
                    &&& run.1 - run.0 <= left
                    &&& run.1 - run.0 == size || run.1 - run.0 == left || run.1 == cap
                }
            }),
            offset <= cap - (self.write_at - self.read_at) ==> run.0 == slot(
                self.write_at as int,
                offset as int,
                cap as int,
            ),
            run.1 - run.0 == unallocated_run_len(
                self.read_at as int,
                self.write_at as int,
                cap as int,
                offset as int,
                size as int,
            ),
            run.0 <= run.1 <= cap,
    {
        let window = cap - self.len();
        // We can't access past the end of unallocated data.
        if offset > window {
            return (0, 0);
        }
        let start_at = get_abs_idx(self.write_at, offset, cap);
        // We can't enqueue more than there is free space.
        let clamped_window = window - offset;
        let size = if size > clamped_window {
            clamped_window
        } else {
            size
        };
        // We can't contiguously enqueue past the end of the storage.
        let until_end = cap - start_at;
        let size = if size > until_end {
            until_end
        } else {
            size
        };
        (start_at, start_at + size)
    }

    /// The largest run of queued elements in one piece that starts with the element numbered
    /// `offset`, and has no more than `size` elements: its first slot, and the slot after its last.
    pub fn allocated_run(&self, offset: usize, size: usize, cap: usize) -> (run: (usize, usize))
        requires
            self.fit(cap as nat),
        ensures
            ({
                let left = self.write_at - self.read_at - offset;
                let begin = (self.read_at + offset) % cap as int;
                &&& left < 0 ==> run.1 == run.0
                &&& left >= 0 ==> {
                    &&& run.0 == begin
                    &&& run.1 - run.0 <= size
                    &&& run.1 - run.0 <= left
                    &&& run.1 - run.0 == size || run.1 - run.0 == left || run.1 == cap
                }
            }),
            offset <= self.write_at - self.read_at ==> run.0 == slot(
                self.read_at as int,
                offset as int,
                cap as int,
            ),
            run.1 - run.0 == allocated_run_len(
                self.read_at as int,
                self.write_at as int,
                cap as int,
                offset as int,
                size as int,
            ),
            run.0 <= run.1 <= cap,
    {
        let length = self.len();
        // We can't read past the end of the allocated data.
        if offset > length {
            return (0, 0);
        }
        let start_at = get_abs_idx(self.read_at, offset, cap);
        // We can't read more than we have allocated.
        let clamped_length = length - offset;
        let size = if size > clamped_length {
            clamped_length
        } else {
            size
        };
        // We can't contiguously dequeue past the end of the storage.
        let until_end = cap - start_at;
        let size = if size > until_end {
            until_end
        } else {
            size
        };
        (start_at, start_at + size)
    }

    /// The counters after `size` more elements were put in. The counter starts again from zero
    /// behind its largest value.
    pub fn advance_write(self, size: usize) -> (after: Self)
        ensures
            after.write_at == (self.write_at + size) % 0x1_0000_0000,
            after.read_at == self.read_at,
            after.write_at == counted(self.write_at as int, size as nat),
    {
        BundledCounters { write_at: count(self.write_at, size), ..self }
    }

    /// The counters after `size` more elements were taken out. The counter starts again from zero
    /// behind its largest value.
    pub fn advance_read(self, size: usize) -> (after: Self)
        ensures
            after.read_at == (self.read_at + size) % 0x1_0000_0000,
            after.read_at == counted(self.read_at as int, size as nat),
            after.write_at == self.write_at,
    {
        BundledCounters { read_at: count(self.read_at, size), ..self }
    }
}

/// The slot of the element numbered `idx + offset`.
pub(crate) fn get_abs_idx(idx: u32, offset: usize, cap: usize) -> (index: usize)
    requires
        0 < cap,
        offset <= cap,
    ensures
        index == slot(idx as int, offset as int, cap as int),
        index < cap,
{
    let begin = idx as usize % cap;
    proof {
        lemma_slot(idx as int, offset as int, cap as int);
    }
    if offset < cap - begin {
        begin + offset
    } else {
        offset - (cap - begin)
    }
}

/// A 32-bit counter after `n` more steps.
fn count(at: u32, n: usize) -> (after: u32)
    ensures
        after == counted(at as int, n as nat),
{
    let steps = (n as u64 % 0x1_0000_0000) as u32;
    at.wrapping_add(steps)
}

} // verus!
