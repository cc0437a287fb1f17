//! A ring buffer.

use crate::bundled_counters::{get_abs_idx, BundledCounters};
use crate::error::Error;
use crate::managed_storage::{held, slots, slots_mut, stretch_mut};
use crate::ring_state::{filled, lemma_slot, slot, smaller, RingState};
use managed::ManagedSlice;
use std::fmt::{Debug, DebugStruct, Formatter};
use vstd::prelude::*;

verus! {

/// A ring buffer over slots that it owns or has borrowed.
///
/// The counters of the elements put in and taken out have 32 bits. Where the counter of those put
/// in reaches its end it starts again from zero, behind the other; only `clear` makes the ring
/// buffer usable again after that. So the operations that put elements in keep the ring buffer
/// well-formed as long as it `has_room` to count them.
#[verifier::reject_recursive_types(T)]
pub struct RingBufferSync<'a, T: 'a> {
    storage: ManagedSlice<'a, T>,
    rw: BundledCounters,
}

impl<'a, T: 'a> Debug for RingBufferSync<'a, T> {
    /// Write the name `BufferSync`, and that there is more that is not shown.
    fn fmt(&self, f: &mut Formatter<'_>) -> (out: std::fmt::Result)
        ensures
            exists|
                formatter: &mut Formatter<'_>,
                text: DebugStruct<'_, '_>,
                whole: &mut DebugStruct<'_, '_>,
            |
                {
                    &&& *formatter == *old(f)
                    &&& *final(formatter) == *final(f)
                    &&& #[trigger] call_ensures(
                        Formatter::debug_struct,
                        (formatter, "BufferSync"),
                        text,
                    )
                    &&& *whole == text
                    &&& #[trigger] call_ensures(DebugStruct::finish_non_exhaustive, (whole,), out)
                },
    {
        f.debug_struct("BufferSync").finish_non_exhaustive()
    }
}

/// The model of slots and counters.
spec fn ring_state<'a, T>(storage: ManagedSlice<'a, T>, rw: BundledCounters) -> RingState<T> {
    RingState {
        storage: held(storage),
        read_at: rw.read_at as int,
        write_at: rw.write_at as int,
    }
}

impl<'a, T: 'a> View for RingBufferSync<'a, T> {
    type V = RingState<T>;

    open spec fn view(&self) -> RingState<T> {
        RingState {
            storage: held(self.managed()),
            read_at: self.counters().read_at as int,
            write_at: self.counters().write_at as int,
        }
    }
}

impl<'a, T: 'a> RingBufferSync<'a, T> {
    /// The slots, with whether they are owned or borrowed.
    pub closed spec fn managed(self) -> ManagedSlice<'a, T> {
        self.storage
    }

    /// The counters of the elements put in and taken out.
    pub closed spec fn counters(self) -> BundledCounters {
        self.rw
    }

    /// Create a ring buffer with the given storage. It is empty, and the slots keep what they
    /// hold.
    ///
    /// The ring buffer works in the storage itself: a slice that was lent holds its slots
    /// afterwards.
    pub fn new<S>(storage: S) -> (ring: RingBufferSync<'a, T>) where S: Into<ManagedSlice<'a, T>>
        requires
            forall|slice: ManagedSlice<'a, T>|
                call_ensures(S::into, (storage,), slice) ==> held(slice).len() != 0,
        ensures
            ring@.wf(),
            ring@.read_at == 0,
            ring@.write_at == 0,
            exists|slice: ManagedSlice<'a, T>| #[trigger]
                call_ensures(S::into, (storage,), slice) && ring.managed() == slice,
    {
        RingBufferSync::from(storage.into())
    }

    /// Create a ring buffer with the given storage. It is empty, and the slots keep what they
    /// hold.
    pub fn from(slice: ManagedSlice<'a, T>) -> (ring: RingBufferSync<'a, T>)
        requires
            held(slice).len() != 0,
        ensures
            ring@.wf(),
            ring@ == (RingState { storage: held(slice), read_at: 0, write_at: 0 }),
            ring.managed() == slice,
    {
        RingBufferSync { storage: slice, rw: BundledCounters::new() }
    }

    /// Clear the ring buffer. The slots keep what they hold.
    pub fn clear(&mut self)
        ensures
            final(self).managed() == old(self).managed(),
            final(self)@ == (RingState { read_at: 0, write_at: 0, ..old(self)@ }),
            old(self)@.capacity() > 0 ==> final(self)@.wf(),
    {
        self.rw = BundledCounters::new();
    }

    /// All slots, in the order of the storage.
    pub fn storage(&self) -> (elements: &[T])
        ensures
            elements@ == self@.storage,
    {
        slots(&self.storage)
    }

    /// Return the maximum number of elements in the ring buffer.
    pub fn capacity(&self) -> (capacity: usize)
        ensures
            capacity == self@.storage.len(),
            capacity == self@.capacity(),
    {
        slots(&self.storage).len()
    }

    /// Return the current number of elements in the ring buffer.
    pub fn len(&self) -> (len: usize)
        requires
            self@.read_at <= self@.write_at,
        ensures
            len == self@.write_at - self@.read_at,
            len == self@.len(),
    {
        self.rw.len()
    }

    /// Return the number of elements that can be added to the ring buffer.
    pub fn window(&self) -> (window: usize)
        requires
            self@.wf(),
        ensures
            window == self@.storage.len() - (self@.write_at - self@.read_at),
            window == self@.window(),
    {
        self.capacity() - self.len()
    }

    /// Return the largest number of elements that can be added to the buffer without wrapping
    /// around (i.e. in a single `enqueue_many` call).
    pub fn contiguous_window(&self) -> (window: usize)
        requires
            self@.wf(),
        ensures
            window <= self@.storage.len() - (self@.write_at - self@.read_at),
            self@.write_at % self@.storage.len() as int + window <= self@.storage.len(),
            window == self@.storage.len() - (self@.write_at - self@.read_at) || self@.write_at
                % self@.storage.len() as int + window == self@.storage.len(),
            window == self@.contiguous_window(),
    {
        let (begin, end) = self.rw.write_run(self.capacity());
        end - begin
    }

    /// Query whether the buffer is empty.
    pub fn is_empty(&self) -> (empty: bool)
        requires
            self@.read_at <= self@.write_at,
        ensures
            empty == (self@.read_at == self@.write_at),
            empty == (self@.len() == 0),
    {
        self.len() == 0
    }

    /// Query whether the buffer is full.
    pub fn is_full(&self) -> (full: bool)
        requires
            self@.wf(),
        ensures
            full == (self@.write_at == self@.read_at + self@.storage.len()),
            full == (self@.window() == 0),
    {
        self.window() == 0
    }

    /// The free slots behind the queue, as many as lie in one piece.
    fn max_write_slice<'b>(storage: &'b mut ManagedSlice<'a, T>, rw: &BundledCounters) -> (slice:
        &'b mut [T])
        requires
            ring_state(*old(storage), *rw).wf(),
        ensures
            ({
                let before = ring_state(*old(storage), *rw);
                &&& slice@ == before.write_run()
                &&& slice@.len() == before.contiguous_window()
                &&& final(slice)@.len() == slice@.len()
                &&& ring_state(*final(storage), *rw) == before.overwritten(
                    before.write_at,
                    final(slice)@,
                )
            }),
            *old(storage) matches ManagedSlice::Borrowed(lent)
                ==> *final(storage) matches ManagedSlice::Borrowed(kept)
                && final(kept)@ == final(lent)@,
    {
        let ghost before = ring_state(*storage, *rw);
        let elements = slots_mut(storage);
        let (begin, end) = rw.write_run(elements.len());
        proof {
            let n = before.contiguous_window();
            before.lemma_elements_in_one_piece(before.write_at, n);
            before.lemma_elements_split(before.write_at, n, (before.window() - n) as nat);
            assert forall|data: Seq<T>| data.len() == n implies (#[trigger] before.overwritten(
                before.write_at,
                data,
            )).storage == before.storage.take(begin as int) + data + before.storage.skip(
                end as int,
            ) by {
                before.lemma_overwritten_in_one_piece(before.write_at, data);
            }
        }
        stretch_mut(elements, begin, end)
    }

    /// The queued elements from the oldest on, as many as lie in one piece.
    fn max_read_slice<'b>(storage: &'b mut ManagedSlice<'a, T>, rw: &BundledCounters) -> (slice:
        &'b mut [T])
        requires
            ring_state(*old(storage), *rw).wf(),
        ensures
            ({
                let before = ring_state(*old(storage), *rw);
                &&& slice@ == before.read_run()
                &&& slice@.len() == before.contiguous_len()
                &&& final(slice)@.len() == slice@.len()
                &&& ring_state(*final(storage), *rw) == before.overwritten(
                    before.read_at,
                    final(slice)@,
                )
            }),
            *old(storage) matches ManagedSlice::Borrowed(lent)
                ==> *final(storage) matches ManagedSlice::Borrowed(kept)
                && final(kept)@ == final(lent)@,
    {
        let ghost before = ring_state(*storage, *rw);
        let elements = slots_mut(storage);
        let (begin, end) = rw.read_run(elements.len());
        proof {
            let n = before.contiguous_len();
            before.lemma_elements_in_one_piece(before.read_at, n);
            before.lemma_elements_split(before.read_at, n, (before.len() - n) as nat);
            assert forall|data: Seq<T>| data.len() == n implies (#[trigger] before.overwritten(
                before.read_at,
                data,
            )).storage == before.storage.take(begin as int) + data + before.storage.skip(
                end as int,
            ) by {
                before.lemma_overwritten_in_one_piece(before.read_at, data);
            }
        }
        stretch_mut(elements, begin, end)
    }
}

/// A slice that was lent to a ring buffer holds the slots, as they were last, once the ring buffer
/// is no longer used.
pub proof fn law_lent_slice_holds_the_slots<'a, T>(ring: RingBufferSync<'a, T>)
    requires
        has_resolved(ring),
    ensures
        ring.managed() matches ManagedSlice::Borrowed(lent) ==> final(lent)@ == ring@.storage,
{
    assert(has_resolved(ring.storage));
}

/// This is the "continuous" ring buffer interface: it operates with element slices,
/// and boundary conditions (empty/full) simply result in empty slices.
impl<'a, T: 'a> RingBufferSync<'a, T> {
    /// Call `f` with the largest contiguous slice of unallocated buffer elements,
    /// and enqueue the amount of elements returned by `f`, which is no larger than the size of
    /// the slice.
    pub fn enqueue_many_with<'b, R, F>(&'b mut self, f: F) -> (out: (usize, R)) where
        F: FnOnce(&'b mut [T]) -> (usize, R),

        requires
            old(self)@.wf(),
            forall|slice: &'b mut [T]|
                slice@ == old(self)@.write_run() ==> call_requires(f, (slice,)),
            forall|slice: &'b mut [T], out: (usize, R)|
                slice@ == old(self)@.write_run() && call_ensures(f, (slice,), out) ==> out.0
                    <= slice@.len(),
        ensures
            old(self).managed() matches ManagedSlice::Borrowed(lent)
                ==> final(self).managed() matches ManagedSlice::Borrowed(kept)
                && final(kept)@ == final(lent)@,
            out.0 <= old(self)@.contiguous_window(),
            exists|slice: &'b mut [T]|
                {
                    &&& slice@ == old(self)@.write_run()
                    &&& #[trigger] call_ensures(f, (slice,), out)
                    &&& final(slice)@.len() == slice@.len()
                    &&& final(self)@ == old(self)@.overwritten(
                        old(self)@.write_at,
                        final(slice)@,
                    ).advance_write(out.0 as nat)
                    &&& old(self)@.has_room(out.0 as nat) ==> {
                        &&& final(self)@.wf()
                        &&& final(self)@.queue() == old(self)@.queue() + final(slice)@.take(
                            out.0 as int,
                        )
                        &&& final(self)@.free() == final(slice)@.skip(out.0 as int)
                            + old(self)@.free().skip(old(self)@.contiguous_window() as int)
                    }
                },
    {
        let ghost before = self@;
        let slice = Self::max_write_slice(&mut self.storage, &self.rw);
        let ghost n = before.contiguous_window();
        let ghost after = final(slice)@;
        proof {
            lemma_slot(before.write_at, 0, before.capacity() as int);
            before.lemma_overwritten_free(0, after);
            assert(before.free().take(0) + after =~= after);
        }
        let (size, result) = f(slice);
        self.rw = self.rw.advance_write(size);
        proof {
            let written = before.overwritten(before.write_at, after);
            if before.has_room(size as nat) {
                written.lemma_advance_write(size as nat);
                assert(written.free().take(size as int) =~= after.take(size as int));
                assert(written.free().skip(size as int) =~= after.skip(size as int)
                    + before.free().skip(n as int));
            }
        }
        (size, result)
    }

    /// Enqueue a slice of elements up to the given size into the buffer,
    /// and return a reference to them.
    ///
    /// This function may return a slice smaller than the given size
    /// if the free space in the buffer is not contiguous.
    pub fn enqueue_many<'b>(&'b mut self, size: usize) -> (slice: &'b mut [T])
        requires
            old(self)@.wf(),
        ensures
            ({
                let cap = old(self)@.storage.len() as int;
                let free = cap - (old(self)@.write_at - old(self)@.read_at);
                let to_end = cap - old(self)@.write_at % cap;
                &&& slice@.len() <= size
                &&& slice@.len() <= free
                &&& slice@.len() <= to_end
                &&& slice@.len() == size || slice@.len() == free || slice@.len() == to_end
            }),
            old(self).managed() matches ManagedSlice::Borrowed(lent)
                ==> final(self).managed() matches ManagedSlice::Borrowed(kept)
                && final(kept)@ == final(lent)@,
            slice@.len() == smaller(size as int, old(self)@.contiguous_window() as int),
            slice@ == old(self)@.free().take(slice@.len() as int),
            final(slice)@.len() == slice@.len(),
            final(self)@ == old(self)@.enqueued(final(slice)@),
            old(self)@.has_room(slice@.len()) ==> {
                &&& final(self)@.wf()
                &&& final(self)@.queue() == old(self)@.queue() + final(slice)@
                &&& final(self)@.free() == old(self)@.free().skip(slice@.len() as int)
            },
    {
        let ghost before = self@;
        let n = self.contiguous_window();
        let size = if size < n {
            size
        } else {
            n
        };
        proof {
            lemma_slot(before.write_at, 0, before.capacity() as int);
        }
        let f = |buf: &'b mut [T]| -> (out: (usize, &'b mut [T]))
            requires
                buf@.len() == n,
            ensures
                out.0 == size,
                out.1@ == old(buf)@.take(size as int),
                final(out.1)@.len() == size,
                final(buf)@ == final(out.1)@ + old(buf)@.skip(size as int),
            { (size, stretch_mut(buf, 0, size)) };
        let (_, slice) = self.enqueue_many_with(f);
        proof {
            let data = final(slice)@;
            let rest = before.free().subrange(size as int, n as int);
            before.lemma_elements_part(before.write_at, before.window(), size as int, n as int);
            before.lemma_overwritten_with_same(before.write_at, data, rest);
            if before.has_room(size as nat) {
                before.lemma_enqueued(data);
            }
        }
        slice
    }

    /// Enqueue as many elements from the given slice into the buffer as possible,
    /// and return the amount of elements that could fit.
    ///
    /// The elements are put in in two pieces if the free space is not contiguous; the counter of
    /// the elements put in must not start again from zero before the second.
    pub fn enqueue_slice(&mut self, data: &[T]) -> (size: usize) where T: Copy
        requires
            old(self)@.wf(),
            old(self)@.has_room(
                smaller(old(self)@.contiguous_window() as int, data@.len() as int) as nat,
            ),
        ensures
            ({
                let free = old(self)@.storage.len() - (old(self)@.write_at - old(self)@.read_at);
                &&& data@.len() <= free ==> size == data@.len()
                &&& data@.len() > free ==> size == free
            }),
            old(self).managed() matches ManagedSlice::Borrowed(lent)
                ==> final(self).managed() matches ManagedSlice::Borrowed(kept)
                && final(kept)@ == final(lent)@,
            size == smaller(old(self)@.window() as int, data@.len() as int),
            final(self)@ == old(self)@.enqueued(data@.take(size as int)),
            old(self)@.has_room(size as nat) ==> {
                &&& final(self)@.wf()
                &&& final(self)@.queue() == old(self)@.queue() + data@.take(size as int)
                &&& final(self)@.free() == old(self)@.free().skip(size as int)
            },
    {
        let ghost before = self@;
        let size = self.write_unallocated(0, data);
        proof {
            if before.has_room(size as nat) {
                before.lemma_enqueued(data@.take(size as int));
            }
        }
        self.rw = self.rw.advance_write(size);
        size
    }

    /// Call `f` with the largest contiguous slice of allocated buffer elements,
    /// and dequeue the amount of elements returned by `f`, which is no larger than the size of
    /// the slice.
    pub fn dequeue_many_with<'b, R, F>(&'b mut self, f: F) -> (out: (usize, R)) where
        F: FnOnce(&'b mut [T]) -> (usize, R),

        requires
            old(self)@.wf(),
            forall|slice: &'b mut [T]|
                slice@ == old(self)@.read_run() ==> call_requires(f, (slice,)),
            forall|slice: &'b mut [T], out: (usize, R)|
                slice@ == old(self)@.read_run() && call_ensures(f, (slice,), out) ==> out.0
                    <= slice@.len(),
        ensures
            old(self).managed() matches ManagedSlice::Borrowed(lent)
                ==> final(self).managed() matches ManagedSlice::Borrowed(kept)
                && final(kept)@ == final(lent)@,
            out.0 <= old(self)@.contiguous_len(),
            final(self)@.wf(),
            exists|slice: &'b mut [T]|
                {
                    &&& slice@ == old(self)@.read_run()
                    &&& #[trigger] call_ensures(f, (slice,), out)
                    &&& final(slice)@.len() == slice@.len()
                    &&& final(self)@ == old(self)@.overwritten(
                        old(self)@.read_at,
                        final(slice)@,
                    ).advance_read(out.0 as nat)
                    &&& final(self)@.queue() == final(slice)@.skip(out.0 as int)
                        + old(self)@.queue().skip(old(self)@.contiguous_len() as int)
                    &&& final(self)@.free() == old(self)@.free() + final(slice)@.take(out.0 as int)
                },
    {
        let ghost before = self@;
        let slice = Self::max_read_slice(&mut self.storage, &self.rw);
        let ghost n = before.contiguous_len();
        let ghost after = final(slice)@;
        proof {
            lemma_slot(before.read_at, 0, before.capacity() as int);
            before.lemma_overwritten_queue(after);
        }
        let (size, result) = f(slice);
        self.rw = self.rw.advance_read(size);
        proof {
            let written = before.overwritten(before.read_at, after);
            written.lemma_advance_read(size as nat);
            assert(written.queue().take(size as int) =~= after.take(size as int));
            assert(written.queue().skip(size as int) =~= after.skip(size as int)
                + before.queue().skip(n as int));
        }
        (size, result)
    }

    /// Dequeue a slice of elements up to the given size from the buffer,
    /// and return a reference to them.
    ///
    /// This function may return a slice smaller than the given size
    /// if the allocated space in the buffer is not contiguous.
    pub fn dequeue_many<'b>(&'b mut self, size: usize) -> (slice: &'b mut [T])
        requires
            old(self)@.wf(),
        ensures
            ({
                let cap = old(self)@.storage.len() as int;
                let queued = old(self)@.write_at - old(self)@.read_at;
                let to_end = cap - old(self)@.read_at % cap;
                &&& slice@.len() <= size
                &&& slice@.len() <= queued
                &&& slice@.len() <= to_end
                &&& slice@.len() == size || slice@.len() == queued || slice@.len() == to_end
            }),
            old(self).managed() matches ManagedSlice::Borrowed(lent)
                ==> final(self).managed() matches ManagedSlice::Borrowed(kept)
                && final(kept)@ == final(lent)@,
            slice@.len() == smaller(size as int, old(self)@.contiguous_len() as int),
            slice@ == old(self)@.queue().take(slice@.len() as int),
            final(slice)@.len() == slice@.len(),
            final(self)@ == old(self)@.overwritten(
                old(self)@.read_at,
                final(slice)@,
            ).advance_read(slice@.len()),
            final(self)@.wf(),
            final(self)@.queue() == old(self)@.queue().skip(slice@.len() as int),
            final(self)@.free() == old(self)@.free() + final(slice)@,
    {
        let ghost before = self@;
        let (begin, end) = self.rw.read_run(self.capacity());
        let n = end - begin;
        let size = if size < n {
            size
        } else {
            n
        };
        proof {
            lemma_slot(before.read_at, 0, before.capacity() as int);
        }
        let f = |buf: &'b mut [T]| -> (out: (usize, &'b mut [T]))
            requires
                buf@.len() == n,
            ensures
                out.0 == size,
                out.1@ == old(buf)@.take(size as int),
                final(out.1)@.len() == size,
                final(buf)@ == final(out.1)@ + old(buf)@.skip(size as int),
            { (size, stretch_mut(buf, 0, size)) };
        let (_, slice) = self.dequeue_many_with(f);
        proof {
            let data = final(slice)@;
            let rest = before.queue().subrange(size as int, n as int);
            before.lemma_elements_part(before.read_at, before.len(), size as int, n as int);
            before.lemma_overwritten_with_same(before.read_at, data, rest);
            let written = before.overwritten(before.read_at, data);
            before.lemma_overwritten_queue(data);
            written.lemma_advance_read(size as nat);
            assert(written.queue().take(size as int) =~= data);
            assert(written.queue().skip(size as int) =~= before.queue().skip(size as int));
        }
        slice
    }

    /// Dequeue as many elements from the buffer into the given slice as possible,
    /// and return the amount of elements that could fit.
    pub fn dequeue_slice(&mut self, data: &mut [T]) -> (size: usize) where T: Copy
        requires
            old(self)@.wf(),
        ensures
            ({
                let queued = old(self)@.write_at - old(self)@.read_at;
                &&& old(data)@.len() <= queued ==> size == old(data)@.len()
                &&& old(data)@.len() > queued ==> size == queued
            }),
            final(self).managed() == old(self).managed(),
            size == smaller(old(self)@.len() as int, old(data)@.len() as int),
            final(data)@ == filled(old(self)@.queue(), old(data)@),
            final(self)@ == old(self)@.advance_read(size as nat),
            final(self)@.wf(),
            final(self)@.queue() == old(self)@.queue().skip(size as int),
            final(self)@.free() == old(self)@.free() + old(self)@.queue().take(size as int),
    {
        let size = self.read_allocated(0, data);
        self.dequeue_allocated(size);
        size
    }
}

/// This is the "discrete" ring buffer interface: it operates with single elements,
/// and boundary conditions (empty/full) are errors.
impl<'a, T: 'a> RingBufferSync<'a, T> {
    /// Call `f` with a single buffer element, and enqueue the element if `f`
    /// returns successfully, or return `Err(Error::Exhausted)` if the buffer is full.
    pub fn enqueue_one_with<'b, R, F>(&'b mut self, f: F) -> (out: Result<R, Error>) where
        F: FnOnce(&'b mut T) -> Result<R, Error>,

        requires
            old(self)@.wf(),
            old(self)@.window() > 0 ==> forall|element: &'b mut T|
                *element == old(self)@.free()[0] ==> call_requires(f, (element,)),
        ensures
            old(self).managed() matches ManagedSlice::Borrowed(lent)
                ==> final(self).managed() matches ManagedSlice::Borrowed(kept)
                && final(kept)@ == final(lent)@,
            old(self)@.window() == 0 ==> out == Err::<R, Error>(Error::Exhausted) && final(self)@
                == old(self)@,
            old(self)@.window() > 0 ==> exists|element: &'b mut T|
                {
                    &&& *element == old(self)@.free()[0]
                    &&& #[trigger] call_ensures(f, (element,), out)
                    &&& out is Ok ==> {
                        &&& final(self)@ == old(self)@.enqueued(seq![*final(element)])
                        &&& old(self)@.has_room(1) ==> {
                            &&& final(self)@.wf()
                            &&& final(self)@.queue() == old(self)@.queue().push(*final(element))
                            &&& final(self)@.free() == old(self)@.free().skip(1)
                        }
                    }
                    &&& out is Err ==> {
                        &&& final(self)@ == old(self)@.overwritten(
                            old(self)@.write_at,
                            seq![*final(element)],
                        )
                        &&& final(self)@.wf()
                        &&& final(self)@.queue() == old(self)@.queue()
                        &&& final(self)@.free() == old(self)@.free().update(0, *final(element))
                    }
                },
    {
        let ghost before = self@;
        if self.is_full() {
            return Err(Error::Exhausted);
        }
        let index = get_abs_idx(self.rw.write_at, 0, self.capacity());
        let element = &mut slots_mut(&mut self.storage)[index];
        proof {
            let data = seq![*final(element)];
            lemma_slot(before.write_at, 0, before.capacity() as int);
            before.lemma_overwritten_in_one_piece(before.write_at, data);
            assert(before.overwritten(before.write_at, data).storage =~= before.storage.update(
                index as int,
                *final(element),
            ));
            before.lemma_overwritten_free(0, data);
            assert(before.queue() + data =~= before.queue().push(*final(element)));
            assert(before.free().take(0) + data + before.free().skip(1) =~= before.free().update(
                0,
                *final(element),
            ));
            if before.has_room(1) {
                before.lemma_enqueued(data);
            }
        }
        match f(element) {
            Ok(result) => {
                self.rw = self.rw.advance_write(1);
                Ok(result)
            },
            Err(error) => Err(error),
        }
    }

    /// Enqueue a single element into the buffer, and return a reference to it,
    /// or return `Err(Error::Exhausted)` if the buffer is full.
    ///
    /// This function is a shortcut for `ring_buf.enqueue_one_with(Ok)`.
    pub fn enqueue_one<'b>(&'b mut self) -> (out: Result<&'b mut T, Error>)
        requires
            old(self)@.wf(),
        ensures
            old(self).managed() matches ManagedSlice::Borrowed(lent)
                ==> final(self).managed() matches ManagedSlice::Borrowed(kept)
                && final(kept)@ == final(lent)@,
            match out {
                Ok(element) => {
                    &&& old(self)@.window() > 0
                    &&& *element == old(self)@.free()[0]
                    &&& final(self)@ == old(self)@.enqueued(seq![*final(element)])
                    &&& old(self)@.has_room(1) ==> {
                        &&& final(self)@.wf()
                        &&& final(self)@.queue() == old(self)@.queue().push(*final(element))
                        &&& final(self)@.free() == old(self)@.free().skip(1)
                    }
                },
                Err(error) => {
                    &&& old(self)@.window() == 0
                    &&& error == Error::Exhausted
                    &&& final(self)@ == old(self)@
                },
            },
    {
        let f = |element: &'b mut T| -> (out: Result<&'b mut T, Error>)
            ensures
                out matches Ok(same) && *same == *old(element) && *final(same) == *final(element),
            { Ok(element) };
        self.enqueue_one_with(f)
    }

    /// Call `f` with a single buffer element, and dequeue the element if `f`
    /// returns successfully, or return `Err(Error::Exhausted)` if the buffer is empty.
    pub fn dequeue_one_with<'b, R, F>(&'b mut self, f: F) -> (out: Result<R, Error>) where
        F: FnOnce(&'b mut T) -> Result<R, Error>,

        requires
            old(self)@.wf(),
            old(self)@.len() > 0 ==> forall|element: &'b mut T|
                *element == old(self)@.queue()[0] ==> call_requires(f, (element,)),
        ensures
            old(self).managed() matches ManagedSlice::Borrowed(lent)
                ==> final(self).managed() matches ManagedSlice::Borrowed(kept)
                && final(kept)@ == final(lent)@,
            final(self)@.wf(),
            old(self)@.len() == 0 ==> out == Err::<R, Error>(Error::Exhausted) && final(self)@
                == old(self)@,
            old(self)@.len() > 0 ==> exists|element: &'b mut T|
                {
                    &&& *element == old(self)@.queue()[0]
                    &&& #[trigger] call_ensures(f, (element,), out)
                    &&& out is Ok ==> {
                        &&& final(self)@ == old(self)@.overwritten(
                            old(self)@.read_at,
                            seq![*final(element)],
                        ).advance_read(1)
                        &&& final(self)@.queue() == old(self)@.queue().skip(1)
                        &&& final(self)@.free() == old(self)@.free().push(*final(element))
                    }
                    &&& out is Err ==> {
                        &&& final(self)@ == old(self)@.overwritten(
                            old(self)@.read_at,
                            seq![*final(element)],
                        )
                        &&& final(self)@.queue() == old(self)@.queue().update(0, *final(element))
                        &&& final(self)@.free() == old(self)@.free()
                    }
                },
    {
        let ghost before = self@;
        if self.is_empty() {
            return Err(Error::Exhausted);
        }
        let index = get_abs_idx(self.rw.read_at, 0, self.capacity());
        let element = &mut slots_mut(&mut self.storage)[index];
        proof {
            let data = seq![*final(element)];
            let written = before.overwritten(before.read_at, data);
            lemma_slot(before.read_at, 0, before.capacity() as int);
            before.lemma_overwritten_in_one_piece(before.read_at, data);
            assert(written.storage =~= before.storage.update(index as int, *final(element)));
            before.lemma_overwritten_queue(data);
            assert(data + before.queue().skip(1) =~= before.queue().update(0, *final(element)));
            written.lemma_advance_read(1);
            assert(written.queue().skip(1) =~= before.queue().skip(1));
            assert(before.free() + written.queue().take(1) =~= before.free().push(
                *final(element),
            ));
        }
        match f(element) {
            Ok(result) => {
                self.rw = self.rw.advance_read(1);
                Ok(result)
            },
            Err(error) => Err(error),
        }
    }

    /// Dequeue an element from the buffer, and return a reference to it,
    /// or return `Err(Error::Exhausted)` if the buffer is empty.
    ///
    /// This function is a shortcut for `ring_buf.dequeue_one_with(Ok)`.
    pub fn dequeue_one<'b>(&'b mut self) -> (out: Result<&'b mut T, Error>)
        requires
            old(self)@.wf(),
        ensures
            old(self).managed() matches ManagedSlice::Borrowed(lent)
                ==> final(self).managed() matches ManagedSlice::Borrowed(kept)
                && final(kept)@ == final(lent)@,
            final(self)@.wf(),
            match out {
                Ok(element) => {
                    &&& old(self)@.len() > 0
                    &&& *element == old(self)@.queue()[0]
                    &&& final(self)@ == old(self)@.overwritten(
                        old(self)@.read_at,
                        seq![*final(element)],
                    ).advance_read(1)
                    &&& final(self)@.queue() == old(self)@.queue().skip(1)
                    &&& final(self)@.free() == old(self)@.free().push(*final(element))
                },
                Err(error) => {
                    &&& old(self)@.len() == 0
                    &&& error == Error::Exhausted
                    &&& final(self)@ == old(self)@
                },
            },
    {
        let f = |element: &'b mut T| -> (out: Result<&'b mut T, Error>)
            ensures
                out matches Ok(same) && *same == *old(element) && *final(same) == *final(element),
            { Ok(element) };
        self.dequeue_one_with(f)
    }
}

/// This is the "random access" ring buffer interface: it operates with element slices,
/// and allows to access elements of the buffer that are not adjacent to its head or tail.
impl<'a, T: 'a> RingBufferSync<'a, T> {
    /// Return the largest contiguous slice of unallocated buffer elements starting
    /// at the given offset past the last allocated element, and up to the given size.
    pub fn get_unallocated<'b>(&'b mut self, offset: usize, size: usize) -> (slice: &'b mut [T])
        requires
            old(self)@.wf(),
        ensures
            ({
                let cap = old(self)@.storage.len() as int;
                let left = cap - (old(self)@.write_at - old(self)@.read_at) - offset;
                let to_end = cap - (old(self)@.write_at + offset) % cap;
                &&& left < 0 ==> slice@.len() == 0
                &&& left >= 0 ==> {
                    &&& slice@.len() <= size
                    &&& slice@.len() <= left
                    &&& slice@.len() <= to_end
                    &&& slice@.len() == size || slice@.len() == left || slice@.len() == to_end
                }
            }),
            old(self).managed() matches ManagedSlice::Borrowed(lent)
                ==> final(self).managed() matches ManagedSlice::Borrowed(kept)
                && final(kept)@ == final(lent)@,
            slice@.len() == old(self)@.unallocated_run(offset as nat, size as nat),
            offset <= old(self)@.window() ==> slice@ == old(self)@.free().subrange(
                offset as int,
                offset + slice@.len(),
            ),
            final(slice)@.len() == slice@.len(),
            final(self)@ == old(self)@.overwritten(old(self)@.write_at + offset, final(slice)@),
            final(self)@.wf(),
            final(self)@.queue() == old(self)@.queue(),
            offset <= old(self)@.window() ==> final(self)@.free() == old(self)@.free().take(
                offset as int,
            ) + final(slice)@ + old(self)@.free().skip(offset + slice@.len()),
            offset > old(self)@.window() ==> final(self)@ == old(self)@,
    {
        let ghost before = self@;
        let (begin, end) = self.rw.unallocated_run(offset, size, self.capacity());
        let slice = stretch_mut(slots_mut(&mut self.storage), begin, end);
        proof {
            let pos = before.write_at + offset;
            let data = final(slice)@;
            if offset <= before.window() {
                let n = (end - begin) as nat;
                assert(slot(pos, 0, before.capacity() as int) == begin);
                before.lemma_elements_part(
                    before.write_at,
                    before.window(),
                    offset as int,
                    (offset + n) as int,
                );
                before.lemma_elements_in_one_piece(pos, n);
                before.lemma_overwritten_in_one_piece(pos, data);
                before.lemma_overwritten_free(offset as nat, data);
            } else {
                assert(data =~= Seq::empty());
                before.lemma_overwritten_nothing(pos);
            }
        }
        slice
    }

    /// Write as many elements from the given slice into unallocated buffer elements
    /// starting at the given offset past the last allocated element, and return
    /// the amount written.
    pub fn write_unallocated(&mut self, offset: usize, data: &[T]) -> (size: usize) where T: Copy
        requires
            old(self)@.wf(),
        ensures
            ({
                let cap = old(self)@.storage.len() as int;
                let left = cap - (old(self)@.write_at - old(self)@.read_at) - offset;
                &&& left < 0 ==> size == 0
                &&& 0 <= left && data@.len() <= left ==> size == data@.len()
                &&& 0 <= left < data@.len() ==> size == left
            }),
            old(self).managed() matches ManagedSlice::Borrowed(lent)
                ==> final(self).managed() matches ManagedSlice::Borrowed(kept)
                && final(kept)@ == final(lent)@,
            size == old(self)@.writable(offset as nat, data@.len()),
            final(self)@ == old(self)@.overwritten(
                old(self)@.write_at + offset,
                data@.take(size as int),
            ),
            final(self)@.wf(),
            final(self)@.queue() == old(self)@.queue(),
            offset <= old(self)@.window() ==> final(self)@.free() == old(self)@.free().take(
                offset as int,
            ) + data@.take(size as int) + old(self)@.free().skip(offset + size),
            offset > old(self)@.window() ==> final(self)@ == old(self)@,
    {
        let ghost before = self@;
        if offset > self.window() {
            proof {
                assert(data@.take(0) =~= Seq::empty());
                before.lemma_overwritten_nothing(before.write_at + offset);
            }
            return 0;
        }
        proof {
            before.lemma_unallocated_runs(offset as nat, data@.len());
        }
        let slice = self.get_unallocated(offset, data.len());
        let size_1 = slice.len();
        copy_into(slice, 0, &data[0..size_1]);
        let rest = &data[size_1..data.len()];
        let slice = self.get_unallocated(offset + size_1, rest.len());
        let size_2 = slice.len();
        copy_into(slice, 0, &rest[0..size_2]);
        proof {
            let first = data@.take(size_1 as int);
            let second = rest@.take(size_2 as int);
            let both = data@.take(size_1 + size_2);
            assert(first + second =~= both);
            before.lemma_overwritten_twice(before.write_at + offset, first, second);
            before.lemma_overwritten_free(offset as nat, both);
        }
        size_1 + size_2
    }

    /// Enqueue the given number of unallocated buffer elements.
    pub fn enqueue_unallocated(&mut self, count: usize)
        requires
            old(self)@.wf(),
            count <= old(self)@.window(),
        ensures
            final(self).managed() == old(self).managed(),
            final(self)@ == old(self)@.advance_write(count as nat),
            old(self)@.has_room(count as nat) ==> {
                &&& final(self)@.wf()
                &&& final(self)@.queue() == old(self)@.queue() + old(self)@.free().take(
                    count as int,
                )
                &&& final(self)@.free() == old(self)@.free().skip(count as int)
            },
    {
        proof {
            if self@.has_room(count as nat) {
                self@.lemma_advance_write(count as nat);
            }
        }
        self.rw = self.rw.advance_write(count);
    }

    /// Return the largest contiguous slice of allocated buffer elements starting
    /// at the given offset past the first allocated element, and up to the given size.
    pub fn get_allocated(&self, offset: usize, size: usize) -> (slice: &[T])
        requires
            self@.wf(),
        ensures
            ({
                let cap = self@.storage.len() as int;
                let left = self@.write_at - self@.read_at - offset;
                let to_end = cap - (self@.read_at + offset) % cap;
                &&& left < 0 ==> slice@.len() == 0
                &&& left >= 0 ==> {
                    &&& slice@.len() <= size
                    &&& slice@.len() <= left
                    &&& slice@.len() <= to_end
                    &&& slice@.len() == size || slice@.len() == left || slice@.len() == to_end
                }
            }),
            slice@.len() == self@.allocated_run(offset as nat, size as nat),
            offset <= self@.len() ==> slice@ == self@.queue().subrange(
                offset as int,
                offset + slice@.len(),
            ),
    {
        let (begin, end) = self.rw.allocated_run(offset, size, self.capacity());
        proof {
            let pos = self@.read_at + offset;
            let n = (end - begin) as nat;
            if offset <= self@.len() {
                assert(slot(pos, 0, self@.capacity() as int) == begin);
                self@.lemma_elements_part(
                    self@.read_at,
                    self@.len(),
                    offset as int,
                    (offset + n) as int,
                );
                self@.lemma_elements_in_one_piece(pos, n);
            }
        }
        &slots(&self.storage)[begin..end]
    }

    /// Read as many elements from allocated buffer elements into the given slice
    /// starting at the given offset past the first allocated element, and return
    /// the amount read.
    pub fn read_allocated(&self, offset: usize, data: &mut [T]) -> (size: usize) where T: Copy
        requires
            self@.wf(),
        ensures
            ({
                let left = self@.write_at - self@.read_at - offset;
                &&& left < 0 ==> size == 0
                &&& 0 <= left && old(data)@.len() <= left ==> size == old(data)@.len()
                &&& 0 <= left < old(data)@.len() ==> size == left
            }),
            size == self@.readable(offset as nat, old(data)@.len()),
            offset <= self@.len() ==> final(data)@ == self@.queue().subrange(
                offset as int,
                offset + size,
            ) + old(data)@.skip(size as int),
            offset > self@.len() ==> final(data)@ == old(data)@,
    {
        proof {
            self@.lemma_allocated_runs(offset as nat, data@.len());
        }
        let slice = self.get_allocated(offset, data.len());
        let size_1 = slice.len();
        copy_into(data, 0, slice);
        let slice = self.get_allocated(offset + size_1, data.len() - size_1);
        let size_2 = slice.len();
        copy_into(data, size_1, slice);
        size_1 + size_2
    }

    /// Dequeue the given number of allocated buffer elements.
    pub fn dequeue_allocated(&mut self, count: usize)
        requires
            old(self)@.wf(),
            count <= old(self)@.len(),
        ensures
            final(self).managed() == old(self).managed(),
            final(self)@ == old(self)@.advance_read(count as nat),
            final(self)@.wf(),
            final(self)@.queue() == old(self)@.queue().skip(count as int),
            final(self)@.free() == old(self)@.free() + old(self)@.queue().take(count as int),
    {
        proof {
            self@.lemma_advance_read(count as nat);
        }
        self.rw = self.rw.advance_read(count);
    }
}

/// Copy `source` over the elements of `target` from the one numbered `at` on.
fn copy_into<T: Copy>(target: &mut [T], at: usize, source: &[T])
    requires
        at + source@.len() <= old(target)@.len(),
    ensures
        final(target)@ == old(target)@.take(at as int) + source@ + old(target)@.skip(
            at + source@.len(),
        ),
{
    let mut i: usize = 0;
    while i < source.len()
        invariant
            at + source@.len() <= target.len(),
            i <= source@.len(),
            target@ == old(target)@.take(at as int) + source@.take(i as int) + old(target)@.skip(
                at + i,
            ),
            target@.len() == old(target)@.len(),
        decreases source@.len() - i,
    {
        target[at + i] = source[i];
        i = i + 1;
    }
    assert(source@.take(i as int) =~= source@);
}

} // verus!
