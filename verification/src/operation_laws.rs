//! What each operation of a ring buffer gives, told by its slots and its two counters alone.
//!
//! With `cap` slots, `read_at` elements taken out and `write_at` put in, `write_at - read_at`
//! elements are queued, `cap - (write_at - read_at)` slots are free, and the element numbered `pos`
//! is in slot `pos % cap`. The laws here use nothing but these, so that they hold of the operations
//! whatever way the model puts them.

use crate::bundled_counters::BundledCounters;
use crate::managed_storage::held;
use crate::ring_state::{
    allocated_run_len,
    counted,
    counters_fit,
    filled,
    lemma_slots,
    lemma_steps,
    read_run_len,
    slot,
    smaller,
    unallocated_run_len,
    write_run_len,
    RingState,
};
use managed::ManagedSlice;
use vstd::prelude::*;

verus! {

/// The slots go round: every number has a slot, the next number has the next slot or, after the
/// last one, the first, and a full round leads back to the same slot.
pub proof fn law_slots_go_round(pos: int, k: int, cap: int)
    requires
        0 < cap,
    ensures
        0 <= slot(pos, k, cap) < cap,
        (pos + k - slot(pos, k, cap)) % cap == 0,
        slot(pos, k + 1, cap) == slot(pos, k, cap) + 1 || slot(pos, k + 1, cap) == 0 && slot(
            pos,
            k,
            cap,
        ) == cap - 1,
        slot(pos, k + cap, cap) == slot(pos, k, cap),
        0 <= pos + k < cap ==> slot(pos, k, cap) == pos + k,
{
    let at = (pos + k) % cap;
    lemma_slots(pos + k, cap);
    assert(slot(pos + k, 0, cap) == at);
    assert(slot(pos + k, 1, cap) == slot(pos, k + 1, cap));
    assert(slot(pos + k, cap, cap) == slot(pos, k + cap, cap));
    vstd::arithmetic::div_mod::lemma_mod_equivalence(pos + k, at, cap);
    vstd::arithmetic::div_mod::lemma_mod_twice(pos + k, cap);
    if 0 <= pos + k < cap {
        vstd::arithmetic::div_mod::lemma_small_mod((pos + k) as nat, cap as nat);
    }
}

/// The smaller of two numbers is one of them, and larger than neither.
pub proof fn law_smaller(a: int, b: int)
    ensures
        smaller(a, b) <= a,
        smaller(a, b) <= b,
        smaller(a, b) == a || smaller(a, b) == b,
{
}

/// A counter goes up by one for each step, and starts again from zero behind the largest 32-bit
/// number.
pub proof fn law_counter(at: int, n: nat)
    ensures
        0 <= counted(at, n) <= u32::MAX,
        (at + n - counted(at, n)) % 0x1_0000_0000 == 0,
        0 <= at && at + n <= u32::MAX ==> counted(at, n) == at + n,
        0 <= at <= u32::MAX ==> counted(at, 0) == at,
        counted(at, n + 1) == if counted(at, n) == u32::MAX {
            0
        } else {
            counted(at, n) + 1
        },
{
}

/// A ring buffer is well-formed just if it has a slot, no more was taken out of it than put in, no
/// more is queued than there are slots, and the elements put in can be counted.
pub proof fn law_well_formed<T>(s: RingState<T>, n: nat)
    ensures
        s.capacity() == s.storage.len(),
        s.wf() <==> s.storage.len() > 0 && 0 <= s.read_at && s.read_at <= s.write_at && s.write_at
            - s.read_at <= s.storage.len() && s.write_at <= u32::MAX,
        s.has_room(n) <==> s.write_at + n <= u32::MAX,
{
}

/// Two counters fit a number of slots just if no more was taken out than put in, and no more is
/// queued than there are slots.
pub proof fn law_counters_fit(counters: BundledCounters, cap: nat)
    ensures
        counters.fit(cap) <==> cap > 0 && counters.read_at <= counters.write_at
            && counters.write_at - counters.read_at <= cap,
        counters.fit(cap) <==> counters_fit(
            counters.read_at as int,
            counters.write_at as int,
            cap as int,
        ),
{
}

/// The sizes of a ring buffer follow from its counters and the number of its slots.
pub proof fn law_sizes<T>(s: RingState<T>)
    requires
        0 <= s.read_at <= s.write_at <= s.read_at + s.storage.len(),
    ensures
        s.capacity() == s.storage.len(),
        s.read_at + s.len() == s.write_at,
        s.write_at + s.window() == s.read_at + s.storage.len(),
{
}

/// The queue holds, oldest first, the slots of the elements numbered from the read counter up to
/// the write counter; and the free slots follow, up to the next round of the read counter.
pub proof fn law_queue_and_free<T>(s: RingState<T>)
    requires
        0 < s.storage.len(),
        0 <= s.read_at <= s.write_at <= s.read_at + s.storage.len(),
    ensures
        s.queue().len() == s.write_at - s.read_at,
        forall|i: int|
            0 <= i < s.write_at - s.read_at ==> #[trigger] s.queue()[i] == s.storage[(s.read_at + i)
                % s.storage.len() as int],
        s.free().len() == s.storage.len() - (s.write_at - s.read_at),
        forall|i: int|
            0 <= i < s.storage.len() - (s.write_at - s.read_at) ==> #[trigger] s.free()[i]
                == s.storage[(s.write_at + i) % s.storage.len() as int],
{
}

/// The contents of consecutive slots, from that of the element numbered `pos` on.
pub proof fn law_elements<T>(s: RingState<T>, pos: int, n: nat)
    ensures
        s.elements(pos, n).len() == n,
        forall|i: int|
            0 <= i < n ==> #[trigger] s.elements(pos, n)[i] == s.storage[(pos + i)
                % s.storage.len() as int],
{
}

/// Writing data over consecutive slots puts each element into its own slot, and changes neither a
/// slot further on than the last of them nor the counters.
pub proof fn law_overwritten<T>(s: RingState<T>, pos: int, data: Seq<T>)
    requires
        0 < s.storage.len(),
        data.len() <= s.storage.len(),
    ensures
        s.overwritten(pos, data).storage.len() == s.storage.len(),
        s.overwritten(pos, data).read_at == s.read_at,
        s.overwritten(pos, data).write_at == s.write_at,
        forall|k: int|
            0 <= k < data.len() ==> s.overwritten(pos, data).storage[(pos + k)
                % s.storage.len() as int] == #[trigger] data[k],
        forall|i: int|
            0 <= i < s.storage.len() && data.len() <= (i - pos) % s.storage.len() as int
                ==> #[trigger] s.overwritten(pos, data).storage[i] == s.storage[i],
{
    let cap = s.storage.len() as int;
    lemma_slots(pos, cap);
    lemma_steps(pos, cap);
    assert forall|k: int| 0 <= k < data.len() implies s.overwritten(pos, data).storage[(pos + k)
        % cap] == #[trigger] data[k] by {
        let i = slot(pos, k, cap);
        assert(slot(-pos, i, cap) == k);
    }
}

/// Moving a counter leaves the slots and the other counter alone, and counts just the elements put
/// in or taken out.
pub proof fn law_counters_move<T>(s: RingState<T>, n: nat)
    requires
        0 <= s.read_at <= u32::MAX,
        0 <= s.write_at <= u32::MAX,
    ensures
        s.advance_write(n).storage == s.storage,
        s.advance_write(n).read_at == s.read_at,
        s.advance_write(n).write_at == (s.write_at + n) % 0x1_0000_0000,
        s.write_at + n <= u32::MAX ==> s.advance_write(n).write_at == s.write_at + n,
        s.advance_read(n).storage == s.storage,
        s.advance_read(n).write_at == s.write_at,
        s.advance_read(n).read_at == (s.read_at + n) % 0x1_0000_0000,
        s.read_at + n <= u32::MAX ==> s.advance_read(n).read_at == s.read_at + n,
{
}

/// Putting data in writes each element into the next free slot, leaves every other slot and the
/// read counter alone, and counts the elements. As long as they can be counted, they are found
/// behind the elements that were queued before.
pub proof fn law_enqueued<T>(s: RingState<T>, data: Seq<T>)
    requires
        0 < s.storage.len(),
        0 <= s.read_at <= s.write_at <= s.read_at + s.storage.len(),
        s.write_at <= u32::MAX,
        data.len() <= s.storage.len() - (s.write_at - s.read_at),
    ensures
        s.enqueued(data).storage.len() == s.storage.len(),
        s.enqueued(data).read_at == s.read_at,
        s.enqueued(data).write_at == (s.write_at + data.len()) % 0x1_0000_0000,
        forall|k: int|
            0 <= k < data.len() ==> s.enqueued(data).storage[(s.write_at + k)
                % s.storage.len() as int] == #[trigger] data[k],
        forall|i: int|
            0 <= i < s.storage.len() && data.len() <= (i - s.write_at) % s.storage.len() as int
                ==> #[trigger] s.enqueued(data).storage[i] == s.storage[i],
        s.write_at + data.len() <= u32::MAX ==> s.enqueued(data).queue() == s.queue() + data,
{
    law_overwritten(s, s.write_at, data);
    if s.write_at + data.len() <= u32::MAX {
        s.lemma_enqueued(data);
    }
}

/// The run that a writer is given is the largest one: it holds free slots only, it does not go past
/// the end of the storage, and it ends before the last free slot only where the storage ends.
pub proof fn law_largest_write_run(read_at: int, write_at: int, cap: int)
    requires
        0 < cap,
        0 <= read_at <= write_at <= read_at + cap,
    ensures
        ({
            let run = write_run_len(read_at, write_at, cap);
            let free = cap - (write_at - read_at);
            &&& 0 <= run <= free
            &&& write_at % cap + run <= cap
            &&& run == free || write_at % cap + run == cap
            &&& free > 0 ==> run > 0
        }),
{
    lemma_slots(write_at, cap);
}

/// The run that a reader is given is the largest one: it holds queued elements only, it does not go
/// past the end of the storage, and it ends before the last element only where the storage ends.
pub proof fn law_largest_read_run(read_at: int, write_at: int, cap: int)
    requires
        0 < cap,
        0 <= read_at <= write_at <= read_at + cap,
    ensures
        ({
            let run = read_run_len(read_at, write_at, cap);
            let queued = write_at - read_at;
            &&& 0 <= run <= queued
            &&& read_at % cap + run <= cap
            &&& run == queued || read_at % cap + run == cap
            &&& queued > 0 ==> run > 0
        }),
{
    lemma_slots(read_at, cap);
}

/// What a writer and a reader are given in one piece: a stretch of the storage from the slot of the
/// write counter, and one from the slot of the read counter, each the largest one.
pub proof fn law_runs_are_stretches<T>(s: RingState<T>)
    requires
        0 < s.storage.len(),
        0 <= s.read_at <= s.write_at <= s.read_at + s.storage.len(),
    ensures
        ({
            let cap = s.storage.len() as int;
            let begin = s.write_at % cap;
            let size = s.write_run().len();
            &&& size == s.contiguous_window()
            &&& size == cap - (s.write_at - s.read_at) || begin + size == cap
            &&& size <= cap - (s.write_at - s.read_at)
            &&& begin + size <= cap
            &&& s.write_run() == s.storage.subrange(begin, begin + size)
        }),
        ({
            let cap = s.storage.len() as int;
            let begin = s.read_at % cap;
            let size = s.read_run().len();
            &&& size == s.contiguous_len()
            &&& size == s.write_at - s.read_at || begin + size == cap
            &&& size <= s.write_at - s.read_at
            &&& begin + size <= cap
            &&& s.read_run() == s.storage.subrange(begin, begin + size)
        }),
{
    let cap = s.storage.len() as int;
    law_largest_write_run(s.read_at, s.write_at, cap);
    law_largest_read_run(s.read_at, s.write_at, cap);
    s.lemma_elements_in_one_piece(s.write_at, s.contiguous_window());
    s.lemma_elements_part(s.write_at, s.window(), 0, s.contiguous_window() as int);
    s.lemma_elements_in_one_piece(s.read_at, s.contiguous_len());
    s.lemma_elements_part(s.read_at, s.len(), 0, s.contiguous_len() as int);
}

/// The run of free slots at an offset is the largest one: no longer than asked for, than the free
/// slots left, and than the storage left, and as long as one of these. So it is empty only where
/// nothing is asked for or no slot is left.
pub proof fn law_largest_unallocated_run(
    read_at: int,
    write_at: int,
    cap: int,
    offset: int,
    size: int,
)
    requires
        0 < cap,
        0 <= read_at <= write_at <= read_at + cap,
        0 <= offset,
        0 <= size,
    ensures
        ({
            let run = unallocated_run_len(read_at, write_at, cap, offset, size);
            let left = cap - (write_at - read_at) - offset;
            let to_end = cap - (write_at + offset) % cap;
            &&& left < 0 ==> run == 0
            &&& left >= 0 ==> {
                &&& 0 <= run <= size
                &&& run <= left
                &&& run <= to_end
                &&& run == size || run == left || run == to_end
                &&& left > 0 && size > 0 ==> run > 0
            }
        }),
{
    vstd::arithmetic::div_mod::lemma_mod_bound(write_at + offset, cap);
}

/// The run of queued elements at an offset is the largest one: no longer than asked for, than the
/// elements left, and than the storage left, and as long as one of these. So it is empty only where
/// nothing is asked for or no element is left.
pub proof fn law_largest_allocated_run(
    read_at: int,
    write_at: int,
    cap: int,
    offset: int,
    size: int,
)
    requires
        0 < cap,
        0 <= read_at <= write_at <= read_at + cap,
        0 <= offset,
        0 <= size,
    ensures
        ({
            let run = allocated_run_len(read_at, write_at, cap, offset, size);
            let left = write_at - read_at - offset;
            let to_end = cap - (read_at + offset) % cap;
            &&& left < 0 ==> run == 0
            &&& left >= 0 ==> {
                &&& 0 <= run <= size
                &&& run <= left
                &&& run <= to_end
                &&& run == size || run == left || run == to_end
                &&& left > 0 && size > 0 ==> run > 0
            }
        }),
{
    vstd::arithmetic::div_mod::lemma_mod_bound(read_at + offset, cap);
}

/// Data is written at an offset as far as there are free slots: all of it where it fits, and up to
/// the last free slot otherwise. In one piece no more of it can be written than lies before the end
/// of the storage.
pub proof fn law_writable<T>(s: RingState<T>, offset: nat, size: nat)
    requires
        0 < s.storage.len(),
        0 <= s.read_at <= s.write_at <= s.read_at + s.storage.len(),
    ensures
        ({
            let left = s.storage.len() - (s.write_at - s.read_at) - offset;
            &&& left < 0 ==> s.writable(offset, size) == 0
            &&& 0 <= left && size <= left ==> s.writable(offset, size) == size
            &&& 0 <= left < size ==> s.writable(offset, size) == left
            &&& s.unallocated_run(offset, size) == unallocated_run_len(
                s.read_at,
                s.write_at,
                s.storage.len() as int,
                offset as int,
                size as int,
            )
            &&& s.unallocated_run(offset, size) <= s.writable(offset, size)
            &&& s.unallocated_run(offset, size) < s.writable(offset, size) ==> (s.write_at + offset)
                % s.storage.len() as int + s.unallocated_run(offset, size) == s.storage.len()
        }),
{
    law_largest_unallocated_run(
        s.read_at,
        s.write_at,
        s.storage.len() as int,
        offset as int,
        size as int,
    );
}

/// Elements are read at an offset as far as the queue goes: as many as asked for where there are so
/// many, and up to the last one otherwise. In one piece no more can be read than lie before the end
/// of the storage.
pub proof fn law_readable<T>(s: RingState<T>, offset: nat, size: nat)
    requires
        0 < s.storage.len(),
        0 <= s.read_at <= s.write_at <= s.read_at + s.storage.len(),
    ensures
        ({
            let left = s.write_at - s.read_at - offset;
            &&& left < 0 ==> s.readable(offset, size) == 0
            &&& 0 <= left && size <= left ==> s.readable(offset, size) == size
            &&& 0 <= left < size ==> s.readable(offset, size) == left
            &&& s.allocated_run(offset, size) == allocated_run_len(
                s.read_at,
                s.write_at,
                s.storage.len() as int,
                offset as int,
                size as int,
            )
            &&& s.allocated_run(offset, size) <= s.readable(offset, size)
            &&& s.allocated_run(offset, size) < s.readable(offset, size) ==> (s.read_at + offset)
                % s.storage.len() as int + s.allocated_run(offset, size) == s.storage.len()
        }),
{
    law_largest_allocated_run(
        s.read_at,
        s.write_at,
        s.storage.len() as int,
        offset as int,
        size as int,
    );
}

/// A slice that is filled from a queue keeps its length, has the queue's elements in front, in
/// their order, and its own behind them.
pub proof fn law_filled<T>(queue: Seq<T>, data: Seq<T>)
    ensures
        filled(queue, data).len() == data.len(),
        forall|i: int|
            0 <= i < data.len() && i < queue.len() ==> #[trigger] filled(queue, data)[i]
                == queue[i],
        forall|i: int|
            queue.len() <= i < data.len() ==> #[trigger] filled(queue, data)[i] == data[i],
{
}

/// A managed slice holds the elements of the vector that it owns.
pub proof fn law_owned_slots<'a, T>(owned: Vec<T>, slice: ManagedSlice<'a, T>)
    requires
        slice == ManagedSlice::Owned(owned),
    ensures
        held(slice) == owned@,
{
}

/// A managed slice holds the elements of the slice that it was lent.
pub proof fn law_borrowed_slots<'a, T>(slice: ManagedSlice<'a, T>)
    ensures
        slice matches ManagedSlice::Borrowed(borrowed) ==> held(slice) == borrowed@,
{
}

} // verus!
