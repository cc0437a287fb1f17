//! The receiving end of a socket's receive buffer.

use crate::error::Error;
use crate::ring_buffer_sync::RingBufferSync;
use crate::ring_state::{filled, smaller};
use managed::ManagedSlice;
use vstd::prelude::*;

verus! {

/// The state of the receive half of a connection.
#[derive(Debug, Clone, Copy, PartialEq, Eq, Structural)]
pub enum ReceiveHalf {
    /// Octets can be received.
    Open,
    /// The remote end has closed it gracefully, with a FIN packet: the data received before is
    /// complete.
    Finished,
    /// It is not open for any other reason: the data received before, if any, may be incomplete.
    Closed,
}

/// Why nothing can be received in a state of the receive half, if nothing can.
pub open spec fn refused(half: ReceiveHalf) -> Option<Error> {
    match half {
        ReceiveHalf::Open => None,
        ReceiveHalf::Finished => Some(Error::Finished),
        ReceiveHalf::Closed => Some(Error::Illegal),
    }
}

impl ReceiveHalf {
    /// Check that octets can be received, and say why not otherwise.
    pub fn recv_error_check(self) -> (out: Result<(), Error>)
        ensures
            out == match refused(self) {
                None => Ok::<(), Error>(()),
                Some(error) => Err(error),
            },
    {
        match self {
            ReceiveHalf::Open => Ok(()),
            ReceiveHalf::Finished => Err(Error::Finished),
            ReceiveHalf::Closed => Err(Error::Illegal),
        }
    }
}

/// A receive buffer, the sequence number of the next octet to be taken out of it, and the state of
/// the half of the connection that fills it.
#[derive(Debug)]
pub struct SocketBufferReceiver<'a> {
    pub rx_buffer: RingBufferSync<'a, u8>,
    pub remote_seq_no: usize,
    pub receive_half: ReceiveHalf,
}

/// The sequence number `size` octets on. Sequence numbers start again from zero behind the largest.
pub open spec fn seq_no_after(seq_no: int, size: int) -> int {
    if seq_no + size <= usize::MAX {
        seq_no + size
    } else {
        seq_no + size - usize::MAX - 1
    }
}

/// The sequence number goes up by one for each octet taken out, and starts again from zero behind
/// the largest one.
pub proof fn law_seq_no_counts_octets(seq_no: usize, size: usize)
    ensures
        seq_no_after(seq_no as int, size as int) == (seq_no + size) % (usize::MAX + 1),
        seq_no + size <= usize::MAX ==> seq_no_after(seq_no as int, size as int) == seq_no + size,
        seq_no + size > usize::MAX ==> seq_no_after(seq_no as int, size as int) + usize::MAX + 1
            == seq_no + size,
{
    let sum = seq_no + size;
    if sum <= usize::MAX {
        vstd::arithmetic::div_mod::lemma_small_mod(sum as nat, (usize::MAX + 1) as nat);
    } else {
        vstd::arithmetic::div_mod::lemma_fundamental_div_mod_converse(
            sum,
            usize::MAX + 1,
            1,
            sum - usize::MAX - 1,
        );
    }
}

/// Nothing can be received just if the receive half is not open; the reason is that all was
/// received where it was closed gracefully, and another one otherwise.
pub proof fn law_refused(half: ReceiveHalf)
    ensures
        half == ReceiveHalf::Open <==> refused(half) is None,
        half == ReceiveHalf::Finished <==> refused(half) == Some(Error::Finished),
        half == ReceiveHalf::Closed <==> refused(half) == Some(Error::Illegal),
{
}

/// Receiving in two steps counts the same octets as receiving them at once.
pub proof fn law_seq_no_adds_up(seq_no: int, a: int, b: int)
    requires
        0 <= seq_no <= usize::MAX,
        0 <= a,
        0 <= b,
        a + b <= usize::MAX,
    ensures
        0 <= seq_no_after(seq_no, a) <= usize::MAX,
        seq_no_after(seq_no_after(seq_no, a), b) == seq_no_after(seq_no, a + b),
{
}

impl<'a> SocketBufferReceiver<'a> {
    /// Call `f` with the receive buffer, and advance the sequence number by the amount of octets
    /// that `f` says it has dequeued; or return why nothing can be received.
    fn recv_impl<'b, F, R>(&'b mut self, f: F) -> (out: Result<R, Error>) where
        F: FnOnce(&'b mut RingBufferSync<'a, u8>) -> (usize, R),

        requires
            refused(old(self).receive_half) is None ==> forall|
                rx_buffer: &'b mut RingBufferSync<'a, u8>,
            |
                *rx_buffer == old(self).rx_buffer ==> call_requires(f, (rx_buffer,)),
        ensures
            refused(old(self).receive_half) matches Some(error) ==> out == Err::<R, Error>(error)
                && *final(self) == *old(self),
            refused(old(self).receive_half) is None ==> exists|
                rx_buffer: &'b mut RingBufferSync<'a, u8>,
                size: usize,
                result: R,
            |
                {
                    &&& *rx_buffer == old(self).rx_buffer
                    &&& #[trigger] call_ensures(f, (rx_buffer,), (size, result))
                    &&& final(self).rx_buffer == *final(rx_buffer)
                    &&& final(self).remote_seq_no == seq_no_after(
                        old(self).remote_seq_no as int,
                        size as int,
                    )
                    &&& final(self).remote_seq_no == (old(self).remote_seq_no + size) % (usize::MAX
                        + 1)
                    &&& final(self).receive_half == old(self).receive_half
                    &&& out == Ok::<R, Error>(result)
                },
    {
        match self.receive_half.recv_error_check() {
            Err(error) => Err(error),
            Ok(()) => {
                let (size, result) = f(&mut self.rx_buffer);
                proof {
                    law_seq_no_counts_octets(self.remote_seq_no, size);
                }
                self.remote_seq_no = self.remote_seq_no.wrapping_add(size);
                Ok(result)
            },
        }
    }

    /// Call `f` with the largest contiguous slice of octets in the receive buffer,
    /// and dequeue the amount of elements returned by `f`.
    ///
    /// This function errors if the receive half of the connection is not open.
    ///
    /// If the receive half has been gracefully closed (with a FIN packet), `Err(Error::Finished)`
    /// is returned. In this case, the previously received data is guaranteed to be complete.
    ///
    /// In all other cases, `Err(Error::Illegal)` is returned and previously received data (if any)
    /// may be incomplete (truncated).
    pub fn recv<'b, F, R>(&'b mut self, f: F) -> (out: Result<R, Error>) where
        F: FnOnce(&'b mut [u8]) -> (usize, R),

        requires
            old(self).rx_buffer@.wf(),
            refused(old(self).receive_half) is None ==> forall|slice: &'b mut [u8]|
                slice@ == old(self).rx_buffer@.read_run() ==> call_requires(f, (slice,)),
            refused(old(self).receive_half) is None ==> forall|
                slice: &'b mut [u8],
                out: (usize, R),
            |
                slice@ == old(self).rx_buffer@.read_run() && call_ensures(f, (slice,), out)
                    ==> out.0 <= slice@.len(),
        ensures
            old(self).rx_buffer.managed() matches ManagedSlice::Borrowed(lent)
                ==> final(self).rx_buffer.managed() matches ManagedSlice::Borrowed(kept)
                && final(kept)@ == final(lent)@,
            final(self).rx_buffer@.wf(),
            refused(old(self).receive_half) matches Some(error) ==> out == Err::<R, Error>(error)
                && *final(self) == *old(self),
            refused(old(self).receive_half) is None ==> exists|
                slice: &'b mut [u8],
                size: usize,
                result: R,
            |
                {
                    &&& slice@ == old(self).rx_buffer@.read_run()
                    &&& #[trigger] call_ensures(f, (slice,), (size, result))
                    &&& size <= slice@.len()
                    &&& final(slice)@.len() == slice@.len()
                    &&& final(self).rx_buffer@ == old(self).rx_buffer@.overwritten(
                        old(self).rx_buffer@.read_at,
                        final(slice)@,
                    ).advance_read(size as nat)
                    &&& final(self).rx_buffer@.queue() == final(slice)@.skip(size as int)
                        + old(self).rx_buffer@.queue().skip(
                        old(self).rx_buffer@.contiguous_len() as int,
                    )
                    &&& final(self).remote_seq_no == seq_no_after(
                        old(self).remote_seq_no as int,
                        size as int,
                    )
                    &&& final(self).remote_seq_no == (old(self).remote_seq_no + size) % (usize::MAX
                        + 1)
                    &&& final(self).receive_half == old(self).receive_half
                    &&& out == Ok::<R, Error>(result)
                },
    {
        let ghost before = self.rx_buffer@;
        let ghost half = self.receive_half;
        let dequeue = |rx_buffer: &'b mut RingBufferSync<'a, u8>| -> (out: (usize, R))
            requires
                rx_buffer@ == before,
                refused(half) is None,
            ensures
                out.0 <= before.contiguous_len(),
                final(rx_buffer)@.wf(),
                old(rx_buffer).managed() matches ManagedSlice::Borrowed(lent)
                    ==> final(rx_buffer).managed() matches ManagedSlice::Borrowed(kept)
                    && final(kept)@ == final(lent)@,
                exists|slice: &'b mut [u8]|
                    {
                        &&& slice@ == before.read_run()
                        &&& #[trigger] call_ensures(f, (slice,), out)
                        &&& final(slice)@.len() == slice@.len()
                        &&& final(rx_buffer)@ == before.overwritten(
                            before.read_at,
                            final(slice)@,
                        ).advance_read(out.0 as nat)
                        &&& final(rx_buffer)@.queue() == final(slice)@.skip(out.0 as int)
                            + before.queue().skip(before.contiguous_len() as int)
                    },
            { rx_buffer.dequeue_many_with(f) };
        self.recv_impl(dequeue)
    }

    /// Dequeue a sequence of received octets, and fill a slice from it.
    ///
    /// This function returns the amount of octets actually dequeued, which is limited
    /// by the amount of occupied space in the receive buffer; down to zero.
    ///
    /// See also [recv](#method.recv).
    pub fn recv_slice(&mut self, data: &mut [u8]) -> (out: Result<usize, Error>)
        requires
            old(self).rx_buffer@.wf(),
        ensures
            final(self).rx_buffer.managed() == old(self).rx_buffer.managed(),
            final(self).rx_buffer@.wf(),
            refused(old(self).receive_half) matches Some(error) ==> {
                &&& out == Err::<usize, Error>(error)
                &&& *final(self) == *old(self)
                &&& final(data)@ == old(data)@
            },
            refused(old(self).receive_half) is None ==> {
                let before = old(self).rx_buffer@;
                let size = smaller(before.len() as int, old(data)@.len() as int);
                &&& out matches Ok(n) && n == size
                &&& final(data)@ == filled(before.queue(), old(data)@)
                &&& final(self).rx_buffer@ == before.advance_read(size as nat)
                &&& final(self).rx_buffer@.queue() == before.queue().skip(size)
                &&& final(self).remote_seq_no == seq_no_after(
                    old(self).remote_seq_no as int,
                    size,
                )
                &&& final(self).remote_seq_no == (old(self).remote_seq_no + size) % (usize::MAX + 1)
                &&& final(self).receive_half == old(self).receive_half
            },
    {
        match self.receive_half.recv_error_check() {
            Err(error) => Err(error),
            Ok(()) => {
                let size = self.rx_buffer.dequeue_slice(data);
                proof {
                    law_seq_no_counts_octets(self.remote_seq_no, size);
                }
                self.remote_seq_no = self.remote_seq_no.wrapping_add(size);
                Ok(size)
            },
        }
    }

    /// Peek at a sequence of received octets without removing them from
    /// the receive buffer, and return a pointer to it.
    ///
    /// This function otherwise behaves identically to [recv](#method.recv).
    pub fn peek(&mut self, size: usize) -> (out: Result<&[u8], Error>)
        requires
            old(self).rx_buffer@.wf(),
        ensures
            *final(self) == *old(self),
            match refused(old(self).receive_half) {
                Some(error) => out == Err::<&[u8], Error>(error),
                None => {
                    let before = old(self).rx_buffer@;
                    &&& out matches Ok(slice)
                    &&& slice@ == before.read_run().take(
                        smaller(size as int, before.contiguous_len() as int),
                    )
                },
            },
    {
        proof {
            let before = self.rx_buffer@;
            let n = before.allocated_run(0, size as nat) as int;
            before.lemma_allocated_run_at_front(size as nat);
            assert(before.queue().subrange(0, n) =~= before.read_run().take(n));
        }
        match self.receive_half.recv_error_check() {
            Err(error) => Err(error),
            Ok(()) => Ok(self.rx_buffer.get_allocated(0, size)),
        }
    }

    /// Peek at a sequence of received octets without removing them from
    /// the receive buffer, and fill a slice from it.
    ///
    /// This function otherwise behaves identically to [recv_slice](#method.recv_slice).
    pub fn peek_slice(&mut self, data: &mut [u8]) -> (out: Result<usize, Error>)
        requires
            old(self).rx_buffer@.wf(),
        ensures
            *final(self) == *old(self),
            match refused(old(self).receive_half) {
                Some(error) => out == Err::<usize, Error>(error) && final(data)@ == old(data)@,
                None => {
                    let before = old(self).rx_buffer@;
                    let size = smaller(before.len() as int, old(data)@.len() as int);
                    &&& out matches Ok(n) && n == size
                    &&& final(data)@ == filled(before.queue(), old(data)@)
                },
            },
    {
        match self.receive_half.recv_error_check() {
            Err(error) => Err(error),
            Ok(()) => Ok(self.rx_buffer.read_allocated(0, data)),
        }
    }

    /// Return the amount of octets queued in the receive buffer. This value can be larger than
    /// the slice read by the next `recv` or `peek` call because it includes all queued octets,
    /// and not only the octets that may be returned as a contiguous slice.
    pub fn recv_queue(&self) -> (len: usize)
        requires
            self.rx_buffer@.read_at <= self.rx_buffer@.write_at,
        ensures
            len == self.rx_buffer@.len(),
    {
        self.rx_buffer.len()
    }
}

} // verus!
