//! What holds of every ring buffer, whatever was done with it.
//!
//! The laws speak of the model in `ring_state`, in which the contracts of the operations are
//! stated.

use crate::bundled_counters::BundledCounters;
use crate::ring_state::{
    allocated_run_len,
    counted,
    counters_fit,
    filled,
    lemma_slot,
    lemma_slots,
    read_run_len,
    slot,
    smaller,
    unallocated_run_len,
    write_run_len,
    RingState,
};
use vstd::prelude::*;

verus! {

/// Every slot is either queued or free, and never all of both: a ring buffer is not empty and full
/// at once.
pub proof fn law_queued_or_free<T>(s: RingState<T>)
    requires
        s.wf(),
    ensures
        s.len() + s.window() == s.capacity(),
        s.queue().len() == s.len(),
        s.free().len() == s.window(),
        !(s.len() == 0 && s.window() == 0),
{
}

/// The counters, the queue and the contents of the free slots are all there is to a ring buffer.
pub proof fn law_queue_and_free_are_all<T>(s: RingState<T>, t: RingState<T>)
    requires
        s.wf(),
        s.capacity() == t.capacity(),
        s.read_at == t.read_at,
        s.write_at == t.write_at,
        s.queue() == t.queue(),
        s.free() == t.free(),
    ensures
        s == t,
{
    let cap = s.capacity() as int;
    lemma_slots(s.read_at, cap);
    s.lemma_elements_split(s.read_at, s.len(), s.window());
    t.lemma_elements_split(s.read_at, s.len(), s.window());
    assert(s.elements(s.read_at, s.capacity()) == t.elements(s.read_at, s.capacity()));
    assert forall|i: int| 0 <= i < cap implies s.storage[i] == t.storage[i] by {
        let b = slot(s.read_at, 0, cap);
        let k = if i >= b {
            i - b
        } else {
            i - b + cap
        };
        assert(slot(s.read_at, k, cap) == i);
        assert(s.elements(s.read_at, s.capacity())[k] == s.storage[i]);
        assert(t.elements(s.read_at, s.capacity())[k] == t.storage[i]);
    }
    assert(s.storage =~= t.storage);
}

/// First in, first out: what is put in comes out behind everything that was queued before, in the
/// order in which it was put in, and unchanged.
pub proof fn law_first_in_first_out<T>(s: RingState<T>, a: Seq<T>, b: Seq<T>)
    requires
        s.wf(),
        a.len() + b.len() <= s.window(),
        s.has_room(a.len() + b.len()),
    ensures
        s.enqueued(a).enqueued(b).wf(),
        s.enqueued(a).enqueued(b).queue() == s.queue() + a + b,
        s.enqueued(a).enqueued(b) == s.enqueued(a + b),
        s.enqueued(a).advance_read(s.len()).queue() == a,
{
    s.lemma_enqueued(a);
    s.enqueued(a).lemma_enqueued(b);
    assert(s.enqueued(a).queue().skip(s.len() as int) =~= a);
    s.enqueued(a).lemma_advance_read(s.len());
    s.lemma_overwritten_twice(s.write_at, a, b);
    let first = s.overwritten(s.write_at, a);
    assert(s.enqueued(a).overwritten(s.write_at + a.len(), b).storage == first.overwritten(
        s.write_at + a.len(),
        b,
    ).storage);
}

/// Taking out in two steps is the same as taking out in one.
pub proof fn law_dequeue_in_steps<T>(s: RingState<T>, a: nat, b: nat)
    requires
        s.wf(),
        a + b <= s.len(),
    ensures
        s.advance_read(a).advance_read(b) == s.advance_read(a + b),
        s.queue().take(a as int) + s.advance_read(a).queue().take(b as int) == s.queue().take(
            (a + b) as int,
        ),
{
    s.lemma_advance_read(a);
    assert(s.queue().take(a as int) + s.queue().skip(a as int).take(b as int) =~= s.queue().take(
        (a + b) as int,
    ));
}

/// Writing data behind the queue and then enqueueing as many elements is the same as enqueueing the
/// data.
pub proof fn law_write_then_enqueue<T>(s: RingState<T>, data: Seq<T>)
    requires
        s.wf(),
    ensures
        ({
            let n = s.writable(0, data.len());
            &&& n == smaller(s.window() as int, data.len() as int)
            &&& s.overwritten(s.write_at + 0, data.take(n as int)).advance_write(n) == s.enqueued(
                data.take(n as int),
            )
        }),
{
}

/// Reading from the front of the queue and then dequeueing as many elements is the same as
/// dequeueing them: as many elements leave the queue, and a slice is filled with the same ones.
pub proof fn law_read_then_dequeue<T>(s: RingState<T>, size: nat)
    requires
        s.wf(),
    ensures
        ({
            let n = s.readable(0, size);
            &&& n == smaller(s.len() as int, size as int)
            &&& s.queue().subrange(0, n as int) == s.queue().take(n as int)
            &&& forall|data: Seq<T>|
                data.len() == size ==> #[trigger] filled(s.queue(), data) == s.queue().subrange(
                    0,
                    n as int,
                ) + data.skip(n as int)
        }),
{
}

/// What was written into free slots is found there, and the queue does not show it.
pub proof fn law_written_is_found<T>(s: RingState<T>, offset: nat, data: Seq<T>, n: nat)
    requires
        s.wf(),
        offset + data.len() <= s.window(),
        n <= data.len(),
    ensures
        ({
            let written = s.overwritten(s.write_at + offset, data);
            &&& written.free().subrange(offset as int, (offset + n) as int) == data.take(n as int)
            &&& written.queue() == s.queue()
        }),
{
    s.lemma_overwritten_free(offset, data);
    assert(s.overwritten(s.write_at + offset, data).free().subrange(
        offset as int,
        (offset + n) as int,
    ) =~= data.take(n as int));
}

/// Where there are free slots there is a run of them in one piece, and two runs, one behind the
/// other, are all of them. The same holds of queued elements.
pub proof fn law_two_runs<T>(s: RingState<T>)
    requires
        s.wf(),
    ensures
        s.contiguous_window() <= s.window(),
        s.window() > 0 ==> s.contiguous_window() > 0,
        s.has_room(s.contiguous_window()) ==> s.contiguous_window() + s.advance_write(
            s.contiguous_window(),
        ).contiguous_window() == s.window(),
        s.contiguous_len() <= s.len(),
        s.len() > 0 ==> s.contiguous_len() > 0,
        s.contiguous_len() + s.advance_read(s.contiguous_len()).contiguous_len() == s.len(),
{
    let cap = s.capacity() as int;
    lemma_slots(s.write_at, cap);
    lemma_slots(s.read_at, cap);
    let w = s.contiguous_window() as int;
    let r = s.contiguous_len() as int;
    assert(slot(s.write_at + w, 0, cap) == slot(s.write_at, w, cap));
    assert(slot(s.read_at + r, 0, cap) == slot(s.read_at, r, cap));
    if s.has_room(w as nat) {
        s.lemma_advance_write(w as nat);
    }
    s.lemma_advance_read(r as nat);
}

/// Two numbers less than a round apart have different slots.
proof fn lemma_slots_differ(p: int, q: int, cap: int)
    requires
        0 < cap,
        p < q < p + cap,
    ensures
        slot(p, 0, cap) != slot(q, 0, cap),
{
    lemma_slot(p, q - p, cap);
    assert(slot(p, q - p, cap) == slot(q, 0, cap));
}

/// A writer and a reader that work at the same time never touch the same slot, though neither knows
/// how far the other has come: the writer goes by an earlier value `seen_read` of the read counter,
/// and the reader by an earlier value `seen_write` of the write counter.
pub proof fn law_writer_and_reader_apart(
    read_at: int,
    write_at: int,
    seen_read: int,
    seen_write: int,
    cap: int,
    i: int,
    j: int,
)
    requires
        counters_fit(seen_read, write_at, cap),
        counters_fit(read_at, seen_write, cap),
        seen_read <= read_at,
        seen_write <= write_at,
        0 <= i < write_run_len(seen_read, write_at, cap),
        0 <= j < read_run_len(read_at, seen_write, cap),
    ensures
        slot(write_at, i, cap) != slot(read_at, j, cap),
{
    lemma_slots_differ(read_at + j, write_at + i, cap);
}

/// The same holds of the slots that the writer and the reader reach at an offset.
pub proof fn law_writer_and_reader_apart_at_offsets(
    read_at: int,
    write_at: int,
    seen_read: int,
    seen_write: int,
    cap: int,
    ahead: int,
    i: int,
    skipped: int,
    j: int,
    size: int,
)
    requires
        counters_fit(seen_read, write_at, cap),
        counters_fit(read_at, seen_write, cap),
        seen_read <= read_at,
        seen_write <= write_at,
        0 <= ahead,
        0 <= i < unallocated_run_len(seen_read, write_at, cap, ahead, size),
        0 <= skipped,
        0 <= j < allocated_run_len(read_at, seen_write, cap, skipped, size),
    ensures
        slot(write_at, ahead + i, cap) != slot(read_at, skipped + j, cap),
{
    lemma_slots_differ(read_at + skipped + j, write_at + ahead + i, cap);
}

/// What a writer may fill by an earlier value `seen_read` of the read counter, it may fill by the
/// current one; and whatever it puts in of the slots that it saw free, the counters still fit each
/// other afterwards.
pub proof fn law_stale_writer(read_at: int, write_at: int, seen_read: int, cap: int, size: int)
    requires
        counters_fit(seen_read, write_at, cap),
        seen_read <= read_at <= write_at,
        0 <= size <= cap - (write_at - seen_read),
    ensures
        write_run_len(seen_read, write_at, cap) <= write_run_len(read_at, write_at, cap),
        size <= cap - (write_at - read_at),
        counters_fit(read_at, write_at + size, cap),
{
}

/// What a reader may take by an earlier value `seen_write` of the write counter, it may take by the
/// current one; and whatever it takes out of the elements that it saw queued, the counters still
/// fit each other afterwards.
pub proof fn law_stale_reader(read_at: int, write_at: int, seen_write: int, cap: int, size: int)
    requires
        counters_fit(read_at, seen_write, cap),
        seen_write <= write_at <= read_at + cap,
        0 <= size <= seen_write - read_at,
    ensures
        read_run_len(read_at, seen_write, cap) <= read_run_len(read_at, write_at, cap),
        size <= write_at - read_at,
        counters_fit(read_at + size, write_at, cap),
{
}

/// Two counters and the one word that holds them give each other back.
pub proof fn law_one_word(counters: BundledCounters, word: u64)
    ensures
        ({
            let packed = counters.read_at + counters.write_at * 0x1_0000_0000;
            &&& 0 <= packed <= u64::MAX
            &&& packed % 0x1_0000_0000 == counters.read_at
            &&& packed / 0x1_0000_0000 == counters.write_at
        }),
        word % 0x1_0000_0000 + (word / 0x1_0000_0000) * 0x1_0000_0000 == word,
{
}

/// A counter that is advanced twice shows the sum of both steps.
pub proof fn law_counting_adds_up(at: int, a: nat, b: nat)
    ensures
        counted(counted(at, a), b) == counted(at, a + b),
{
}

} // verus!
