//! The mathematical model of a ring buffer, and how its operations change it.
//!
//! A ring buffer is a block of `cap` storage slots together with two counters that only grow:
//! `read_at` counts the elements ever taken out, `write_at` those ever put in. The element with
//! number `pos` lives in slot `pos % cap`. The elements numbered from `read_at` up to `write_at`
//! are the queue; the slots behind them, up to the next round of `read_at`, are free.

use vstd::arithmetic::div_mod::{
    lemma_fundamental_div_mod,
    lemma_fundamental_div_mod_converse,
    lemma_mod_bound,
};
use vstd::prelude::*;

verus! {

/// The slot of the element numbered `pos + k` in a storage of `cap` slots.
pub open spec fn slot(pos: int, k: int, cap: int) -> int {
    (pos + k) % cap
}

/// The smaller of two numbers.
pub open spec fn smaller(a: int, b: int) -> int {
    if a <= b {
        a
    } else {
        b
    }
}

/// `data` after as many of its elements as possible were replaced from the front of `queue`.
pub open spec fn filled<T>(queue: Seq<T>, data: Seq<T>) -> Seq<T> {
    let size = smaller(queue.len() as int, data.len() as int);
    queue.take(size) + data.skip(size)
}

/// The number that a 32-bit counter shows after `n` more steps.
pub open spec fn counted(at: int, n: nat) -> int {
    (at + n) % 0x1_0000_0000
}

/// How many slots a writer finds in one piece: those free, as far as the end of the storage.
pub open spec fn write_run_len(read_at: int, write_at: int, cap: int) -> int {
    smaller(cap - (write_at - read_at), cap - slot(write_at, 0, cap))
}

/// How many elements a reader finds in one piece: those queued, as far as the end of the storage.
pub open spec fn read_run_len(read_at: int, write_at: int, cap: int) -> int {
    smaller(write_at - read_at, cap - slot(read_at, 0, cap))
}

/// How many slots a writer finds in one piece from the one `offset` behind the queue on, counting
/// no more than `size`.
pub open spec fn unallocated_run_len(
    read_at: int,
    write_at: int,
    cap: int,
    offset: int,
    size: int,
) -> int {
    let window = cap - (write_at - read_at);
    if offset > window {
        0
    } else {
        smaller(smaller(size, window - offset), cap - slot(write_at, offset, cap))
    }
}

/// How many elements a reader finds in one piece from the one numbered `offset` on, counting no
/// more than `size`.
pub open spec fn allocated_run_len(
    read_at: int,
    write_at: int,
    cap: int,
    offset: int,
    size: int,
) -> int {
    let len = write_at - read_at;
    if offset > len {
        0
    } else {
        smaller(smaller(size, len - offset), cap - slot(read_at, offset, cap))
    }
}

/// Two counters that a ring buffer of `cap` slots can have: no more elements were taken out than
/// put in, and no more are queued than there are slots.
pub open spec fn counters_fit(read_at: int, write_at: int, cap: int) -> bool {
    &&& 0 < cap
    &&& 0 <= read_at <= write_at <= read_at + cap
}

/// What a ring buffer holds: all its slots, and its two counters.
#[verifier::ext_equal]
pub struct RingState<T> {
    pub storage: Seq<T>,
    pub read_at: int,
    pub write_at: int,
}

impl<T> RingState<T> {
    /// The number of slots.
    pub open spec fn capacity(self) -> nat {
        self.storage.len()
    }

    /// The counters fit the storage.
    pub open spec fn wf(self) -> bool {
        &&& counters_fit(self.read_at, self.write_at, self.capacity() as int)
        &&& self.write_at <= u32::MAX
    }

    /// The number of queued elements.
    pub open spec fn len(self) -> nat {
        (self.write_at - self.read_at) as nat
    }

    /// The number of free slots.
    pub open spec fn window(self) -> nat {
        (self.capacity() - self.len()) as nat
    }

    /// The number of free slots that follow the queue in one piece.
    pub open spec fn contiguous_window(self) -> nat {
        write_run_len(self.read_at, self.write_at, self.capacity() as int) as nat
    }

    /// The number of elements at the front of the queue that lie in one piece.
    pub open spec fn contiguous_len(self) -> nat {
        read_run_len(self.read_at, self.write_at, self.capacity() as int) as nat
    }

    /// The contents of `n` slots, from the slot of the element numbered `pos` on.
    pub open spec fn elements(self, pos: int, n: nat) -> Seq<T> {
        Seq::new(n, |i: int| self.storage[slot(pos, i, self.capacity() as int)])
    }

    /// The queued elements, the oldest first.
    pub open spec fn queue(self) -> Seq<T> {
        self.elements(self.read_at, self.len())
    }

    /// The contents of the free slots, in the order in which they will be filled.
    pub open spec fn free(self) -> Seq<T> {
        self.elements(self.write_at, self.window())
    }

    /// The contents of the free slots that follow the queue in one piece.
    pub open spec fn write_run(self) -> Seq<T> {
        self.free().take(self.contiguous_window() as int)
    }

    /// The elements at the front of the queue that lie in one piece.
    pub open spec fn read_run(self) -> Seq<T> {
        self.queue().take(self.contiguous_len() as int)
    }

    /// How many free slots lie in one piece from the one `offset` behind the queue on, counting no
    /// more than `size`.
    pub open spec fn unallocated_run(self, offset: nat, size: nat) -> nat {
        unallocated_run_len(
            self.read_at,
            self.write_at,
            self.capacity() as int,
            offset as int,
            size as int,
        ) as nat
    }

    /// How many queued elements lie in one piece from the one numbered `offset` on, counting no
    /// more than `size`.
    pub open spec fn allocated_run(self, offset: nat, size: nat) -> nat {
        allocated_run_len(
            self.read_at,
            self.write_at,
            self.capacity() as int,
            offset as int,
            size as int,
        ) as nat
    }

    /// How many free slots there are from the one `offset` behind the queue on, counting no more
    /// than `size`.
    pub open spec fn writable(self, offset: nat, size: nat) -> nat {
        if offset > self.window() {
            0
        } else {
            smaller(size as int, self.window() - offset) as nat
        }
    }

    /// How many queued elements there are from the one numbered `offset` on, counting no more than
    /// `size`.
    pub open spec fn readable(self, offset: nat, size: nat) -> nat {
        if offset > self.len() {
            0
        } else {
            smaller(size as int, self.len() - offset) as nat
        }
    }

    /// `n` more elements can be counted before the write counter starts again from zero.
    pub open spec fn has_room(self, n: nat) -> bool {
        self.write_at + n <= u32::MAX
    }

    /// The state after `data` was written over the slots from that of the element `pos` on.
    pub open spec fn overwritten(self, pos: int, data: Seq<T>) -> Self {
        let cap = self.capacity() as int;
        RingState {
            storage: Seq::new(
                self.capacity(),
                |i: int|
                    {
                        let k = slot(-pos, i, cap);
                        if k < data.len() {
                            data[k]
                        } else {
                            self.storage[i]
                        }
                    },
            ),
            ..self
        }
    }

    /// The state after the next `n` free slots were made part of the queue.
    pub open spec fn advance_write(self, n: nat) -> Self {
        RingState { write_at: counted(self.write_at, n), ..self }
    }

    /// The state after the oldest `n` elements were taken off the queue.
    pub open spec fn advance_read(self, n: nat) -> Self {
        RingState { read_at: counted(self.read_at, n), ..self }
    }

    /// The state after `data` was put in behind the queue.
    pub open spec fn enqueued(self, data: Seq<T>) -> Self {
        self.overwritten(self.write_at, data).advance_write(data.len())
    }
}

/// The slot `k` steps after that of `pos`: as many steps on, starting again from slot zero at the
/// end of the storage.
pub proof fn lemma_slot(pos: int, k: int, cap: int)
    requires
        0 < cap,
        0 <= k <= cap,
    ensures
        0 <= slot(pos, 0, cap) < cap,
        slot(pos, k, cap) == if slot(pos, 0, cap) + k < cap {
            slot(pos, 0, cap) + k
        } else {
            slot(pos, 0, cap) + k - cap
        },
{
    let b = pos % cap;
    let q = pos / cap;
    lemma_mod_bound(pos, cap);
    lemma_fundamental_div_mod(pos, cap);
    if b + k < cap {
        assert(q * cap + (b + k) == pos + k) by (nonlinear_arith)
            requires
                pos == cap * q + b,
        ;
        lemma_fundamental_div_mod_converse(pos + k, cap, q, b + k);
    } else {
        assert((q + 1) * cap + (b + k - cap) == pos + k) by (nonlinear_arith)
            requires
                pos == cap * q + b,
        ;
        lemma_fundamental_div_mod_converse(pos + k, cap, q + 1, b + k - cap);
    }
}

/// `lemma_slot` for all steps at once.
pub proof fn lemma_slots(pos: int, cap: int)
    requires
        0 < cap,
    ensures
        0 <= slot(pos, 0, cap) < cap,
        forall|k: int|
            0 <= k <= cap ==> #[trigger] slot(pos, k, cap) == if slot(pos, 0, cap) + k < cap {
                slot(pos, 0, cap) + k
            } else {
                slot(pos, 0, cap) + k - cap
            },
{
    lemma_slot(pos, 0, cap);
    assert forall|k: int| 0 <= k <= cap implies #[trigger] slot(pos, k, cap) == if slot(pos, 0, cap)
        + k < cap {
        slot(pos, 0, cap) + k
    } else {
        slot(pos, 0, cap) + k - cap
    } by {
        lemma_slot(pos, k, cap);
    }
}

/// How many steps after the slot of `pos` each slot comes.
pub proof fn lemma_steps(pos: int, cap: int)
    requires
        0 < cap,
    ensures
        forall|i: int|
            0 <= i < cap ==> #[trigger] slot(-pos, i, cap) == if i >= slot(pos, 0, cap) {
                i - slot(pos, 0, cap)
            } else {
                i - slot(pos, 0, cap) + cap
            },
{
    assert forall|i: int| 0 <= i < cap implies #[trigger] slot(-pos, i, cap) == if i >= slot(
        pos,
        0,
        cap,
    ) {
        i - slot(pos, 0, cap)
    } else {
        i - slot(pos, 0, cap) + cap
    } by {
        let b = pos % cap;
        let q = pos / cap;
        lemma_mod_bound(pos, cap);
        lemma_fundamental_div_mod(pos, cap);
        if i >= b {
            assert((-q) * cap + (i - b) == i - pos) by (nonlinear_arith)
                requires
                    pos == cap * q + b,
            ;
            lemma_fundamental_div_mod_converse(i - pos, cap, -q, i - b);
        } else {
            assert((-q - 1) * cap + (i - b + cap) == i - pos) by (nonlinear_arith)
                requires
                    pos == cap * q + b,
            ;
            lemma_fundamental_div_mod_converse(i - pos, cap, -q - 1, i - b + cap);
        }
    }
}

impl<T> RingState<T> {
    /// Slots in one piece are a stretch of the storage.
    pub proof fn lemma_elements_in_one_piece(self, pos: int, n: nat)
        requires
            0 < self.capacity(),
            slot(pos, 0, self.capacity() as int) + n <= self.capacity(),
        ensures
            self.elements(pos, n) == self.storage.subrange(
                slot(pos, 0, self.capacity() as int),
                slot(pos, 0, self.capacity() as int) + n,
            ),
    {
        lemma_slots(pos, self.capacity() as int);
    }

    /// Writing over slots in one piece replaces a stretch of the storage.
    pub proof fn lemma_overwritten_in_one_piece(self, pos: int, data: Seq<T>)
        requires
            0 < self.capacity(),
            slot(pos, 0, self.capacity() as int) + data.len() <= self.capacity(),
        ensures
            ({
                let b = slot(pos, 0, self.capacity() as int);
                self.overwritten(pos, data).storage == self.storage.take(b) + data
                    + self.storage.skip(b + data.len())
            }),
    {
        lemma_slots(pos, self.capacity() as int);
        lemma_steps(pos, self.capacity() as int);
    }

    /// What was written can be read back; what lies behind it is as it was.
    pub proof fn lemma_overwritten_here(self, pos: int, data: Seq<T>, n: nat)
        requires
            0 < self.capacity(),
            data.len() <= n <= self.capacity(),
        ensures
            self.overwritten(pos, data).elements(pos, n) == data + self.elements(pos, n).skip(
                data.len() as int,
            ),
    {
        lemma_slots(pos, self.capacity() as int);
        lemma_steps(pos, self.capacity() as int);
    }

    /// Slots that were not written over keep their contents.
    pub proof fn lemma_overwritten_elsewhere(self, pos: int, data: Seq<T>, pos2: int, n2: nat)
        requires
            0 < self.capacity(),
            pos + data.len() <= pos2 && pos2 + n2 <= pos + self.capacity() || pos2 + n2 <= pos
                && pos + data.len() <= pos2 + self.capacity(),
        ensures
            self.overwritten(pos, data).elements(pos2, n2) == self.elements(pos2, n2),
    {
        let cap = self.capacity() as int;
        lemma_slots(pos, cap);
        lemma_slots(pos2, cap);
        lemma_steps(pos, cap);
        if pos <= pos2 {
            lemma_slot(pos, pos2 - pos, cap);
            assert(slot(pos, pos2 - pos, cap) == slot(pos2, 0, cap));
        } else {
            lemma_slot(pos2, pos - pos2, cap);
            assert(slot(pos2, pos - pos2, cap) == slot(pos, 0, cap));
        }
    }

    /// Putting one piece behind another is the same as putting in both at once.
    pub proof fn lemma_overwritten_twice(self, pos: int, first: Seq<T>, second: Seq<T>)
        requires
            0 < self.capacity(),
            first.len() + second.len() <= self.capacity(),
        ensures
            self.overwritten(pos, first).overwritten(pos + first.len(), second) == self.overwritten(
                pos,
                first + second,
            ),
    {
        let cap = self.capacity() as int;
        let next = pos + first.len();
        lemma_slots(pos, cap);
        lemma_steps(pos, cap);
        lemma_steps(next, cap);
        lemma_slot(pos, first.len() as int, cap);
        assert(slot(pos, first.len() as int, cap) == slot(next, 0, cap));
        assert(self.overwritten(pos, first).overwritten(next, second).storage =~= self.overwritten(
            pos,
            first + second,
        ).storage);
    }

    /// Consecutive slots in two parts.
    pub proof fn lemma_elements_split(self, pos: int, a: nat, b: nat)
        ensures
            self.elements(pos, a + b) == self.elements(pos, a) + self.elements(pos + a, b),
    {
        let cap = self.capacity() as int;
        assert forall|i: int| 0 <= i < b implies #[trigger] slot(pos + a, i, cap) == slot(
            pos,
            a + i,
            cap,
        ) by {}
        assert(self.elements(pos, a + b) =~= self.elements(pos, a) + self.elements(pos + a, b));
    }

    /// A part of consecutive slots.
    pub proof fn lemma_elements_part(self, pos: int, n: nat, a: int, b: int)
        requires
            0 <= a <= b <= n,
        ensures
            self.elements(pos, n).subrange(a, b) == self.elements(pos + a, (b - a) as nat),
    {
        let cap = self.capacity() as int;
        assert forall|i: int| 0 <= i < b - a implies #[trigger] slot(pos + a, i, cap) == slot(
            pos,
            a + i,
            cap,
        ) by {}
        assert(self.elements(pos, n).subrange(a, b) =~= self.elements(pos + a, (b - a) as nat));
    }

    /// A full round later the slots are the same.
    pub proof fn lemma_elements_next_round(self, pos: int, n: nat)
        requires
            0 < self.capacity(),
        ensures
            self.elements(pos + self.capacity(), n) == self.elements(pos, n),
    {
        let cap = self.capacity() as int;
        assert forall|i: int| 0 <= i < n implies #[trigger] slot(pos + cap, i, cap) == slot(
            pos,
            i,
            cap,
        ) by {
            lemma_slot(pos + i, cap, cap);
        }
        assert(self.elements(pos + cap, n) =~= self.elements(pos, n));
    }

    /// Writing over a slot what it holds already changes nothing.
    pub proof fn lemma_overwritten_with_same(self, pos: int, data: Seq<T>, rest: Seq<T>)
        requires
            0 < self.capacity(),
            data.len() + rest.len() <= self.capacity(),
            rest == self.elements(pos + data.len(), rest.len()),
        ensures
            self.overwritten(pos, data + rest) == self.overwritten(pos, data),
    {
        let cap = self.capacity() as int;
        lemma_steps(pos, cap);
        lemma_slots(pos, cap);
        assert forall|i: int| 0 <= i < rest.len() implies rest[i] == self.storage[#[trigger] slot(
            pos,
            data.len() + i,
            cap,
        )] by {
            assert(slot(pos + data.len(), i, cap) == slot(pos, data.len() + i, cap));
        }
        assert forall|i: int|
            #![auto]
            0 <= i < cap && data.len() <= slot(-pos, i, cap) < data.len()
                + rest.len() implies self.overwritten(pos, data + rest).storage[i]
            == self.storage[i] by {
            let k = slot(-pos, i, cap);
            assert(slot(pos, data.len() + (k - data.len()), cap) == i);
        }
        assert(self.overwritten(pos, data + rest).storage =~= self.overwritten(pos, data).storage);
    }

    /// Writing nothing changes nothing.
    pub proof fn lemma_overwritten_nothing(self, pos: int)
        requires
            0 < self.capacity(),
        ensures
            self.overwritten(pos, Seq::empty()) == self,
    {
        lemma_steps(pos, self.capacity() as int);
        assert(self.overwritten(pos, Seq::empty()).storage =~= self.storage);
    }

    /// Two runs in one piece, the second behind the first, reach every free slot.
    pub proof fn lemma_unallocated_runs(self, offset: nat, size: nat)
        requires
            self.wf(),
        ensures
            ({
                let first = self.unallocated_run(offset, size);
                &&& first <= self.writable(offset, size) <= size
                &&& first + self.unallocated_run(offset + first, (size - first) as nat)
                    == self.writable(offset, size)
            }),
    {
        let cap = self.capacity() as int;
        if offset <= self.window() {
            lemma_slots(self.write_at, cap);
            assert(slot(self.write_at, offset as int, cap) < cap);
            let first = self.unallocated_run(offset, size);
            assert(0 <= slot(self.write_at, (offset + first) as int, cap) < cap);
        }
    }

    /// Two runs in one piece, the second behind the first, reach every queued element.
    pub proof fn lemma_allocated_runs(self, offset: nat, size: nat)
        requires
            self.wf(),
        ensures
            ({
                let first = self.allocated_run(offset, size);
                &&& first <= self.readable(offset, size) <= size
                &&& first + self.allocated_run(offset + first, (size - first) as nat)
                    == self.readable(offset, size)
            }),
    {
        let cap = self.capacity() as int;
        if offset <= self.len() {
            lemma_slots(self.read_at, cap);
            assert(slot(self.read_at, offset as int, cap) < cap);
            let first = self.allocated_run(offset, size);
            assert(0 <= slot(self.read_at, (offset + first) as int, cap) < cap);
        }
    }

    /// The elements that lie in one piece from the first queued element on are those at the front.
    pub proof fn lemma_allocated_run_at_front(self, size: nat)
        requires
            self.wf(),
        ensures
            self.allocated_run(0, size) == smaller(size as int, self.contiguous_len() as int),
    {
        lemma_slot(self.read_at, 0, self.capacity() as int);
    }

    /// Taking free slots into the queue moves their contents from the free end to the queue.
    pub proof fn lemma_advance_write(self, n: nat)
        requires
            self.wf(),
            n <= self.window(),
            self.has_room(n),
        ensures
            self.advance_write(n).wf(),
            self.advance_write(n).len() == self.len() + n,
            self.advance_write(n).queue() == self.queue() + self.free().take(n as int),
            self.advance_write(n).free() == self.free().skip(n as int),
    {
        let after = self.advance_write(n);
        assert(counted(self.write_at, n) == self.write_at + n);
        self.lemma_elements_split(self.read_at, self.len(), n);
        self.lemma_elements_split(self.write_at, n, after.window());
        assert(after.queue() == self.queue() + self.elements(self.write_at, n));
        assert(self.free() == self.elements(self.write_at, n) + after.free());
        assert(self.free().take(n as int) =~= self.elements(self.write_at, n));
        assert(self.free().skip(n as int) =~= after.free());
    }

    /// Taking elements off the queue moves them behind the free slots.
    pub proof fn lemma_advance_read(self, n: nat)
        requires
            self.wf(),
            n <= self.len(),
        ensures
            self.advance_read(n).wf(),
            self.advance_read(n).len() == self.len() - n,
            self.advance_read(n).queue() == self.queue().skip(n as int),
            self.advance_read(n).free() == self.free() + self.queue().take(n as int),
    {
        let after = self.advance_read(n);
        assert(counted(self.read_at, n) == self.read_at + n);
        self.lemma_elements_split(self.read_at, n, after.len());
        self.lemma_elements_split(self.write_at, self.window(), n);
        self.lemma_elements_next_round(self.read_at, n);
        assert(self.queue() == self.elements(self.read_at, n) + after.queue());
        assert(self.queue().take(n as int) =~= self.elements(self.read_at, n));
        assert(self.queue().skip(n as int) =~= after.queue());
    }

    /// Writing over free slots leaves the queue alone.
    pub proof fn lemma_overwritten_free(self, offset: nat, data: Seq<T>)
        requires
            self.wf(),
            offset + data.len() <= self.window(),
        ensures
            ({
                let after = self.overwritten(self.write_at + offset, data);
                &&& after.wf()
                &&& after.queue() == self.queue()
                &&& after.free() == self.free().take(offset as int) + data + self.free().skip(
                    (offset + data.len()) as int,
                )
            }),
    {
        let pos = self.write_at + offset;
        let after = self.overwritten(pos, data);
        self.lemma_overwritten_elsewhere(pos, data, self.read_at, self.len());
        self.lemma_overwritten_elsewhere(pos, data, self.write_at, offset);
        let rest = (self.window() - offset) as nat;
        self.lemma_overwritten_here(pos, data, rest);
        self.lemma_elements_split(self.write_at, offset, rest);
        after.lemma_elements_split(self.write_at, offset, rest);
        assert(after.free() =~= self.free().take(offset as int) + data + self.free().skip(
            (offset + data.len()) as int,
        ));
    }

    /// Writing over the oldest queued elements leaves the rest of the queue and the free slots
    /// alone.
    pub proof fn lemma_overwritten_queue(self, data: Seq<T>)
        requires
            self.wf(),
            data.len() <= self.len(),
        ensures
            ({
                let after = self.overwritten(self.read_at, data);
                &&& after.wf()
                &&& after.queue() == data + self.queue().skip(data.len() as int)
                &&& after.free() == self.free()
            }),
    {
        self.lemma_overwritten_here(self.read_at, data, self.len());
        self.lemma_overwritten_elsewhere(
            self.read_at,
            data,
            self.write_at,
            self.window(),
        );
    }

    /// Putting data in appends it to the queue and uses up as many free slots.
    pub proof fn lemma_enqueued(self, data: Seq<T>)
        requires
            self.wf(),
            data.len() <= self.window(),
            self.has_room(data.len()),
        ensures
            self.enqueued(data).wf(),
            self.enqueued(data).queue() == self.queue() + data,
            self.enqueued(data).free() == self.free().skip(data.len() as int),
    {
        let written = self.overwritten(self.write_at, data);
        self.lemma_overwritten_free(0, data);
        assert(self.write_at + 0 == self.write_at);
        assert(written.free() =~= data + self.free().skip(data.len() as int));
        written.lemma_advance_write(data.len());
        assert(written.free().take(data.len() as int) =~= data);
        assert(written.free().skip(data.len() as int) =~= self.free().skip(data.len() as int));
    }
}

} // verus!
