//! A byte buffer of fixed size.

use crate::ring_state::smaller;
use vstd::prelude::*;

verus! {

/// Up to `SIZE` bytes, filled from the front.
pub struct FixedBuffer<const SIZE: usize> {
    len: usize,
    content: [u8; SIZE],
}

/// What a buffer for `size` bytes holds after as many bytes of `s` as fit were appended to
/// `content`.
pub open spec fn pushed(content: Seq<u8>, s: Seq<u8>, size: nat) -> Seq<u8> {
    content + s.take(smaller(s.len() as int, size - content.len()))
}

/// Appending in two steps is the same as appending at once, and never overfills the buffer.
pub proof fn law_push_in_pieces(content: Seq<u8>, a: Seq<u8>, b: Seq<u8>, size: nat)
    requires
        content.len() <= size,
    ensures
        pushed(content, a, size).len() <= size,
        pushed(pushed(content, a, size), b, size) == pushed(content, a + b, size),
{
}

/// What was in a buffer stays in front, the first bytes of what is appended follow, as many as fit,
/// and nothing else; a full buffer stays as it is.
pub proof fn law_push_keeps_and_appends(content: Seq<u8>, s: Seq<u8>, size: nat)
    requires
        content.len() <= size,
    ensures
        ({
            let after = pushed(content, s, size);
            &&& content.len() + s.len() <= size ==> after.len() == content.len() + s.len()
            &&& content.len() + s.len() > size ==> after.len() == size
            &&& after.subrange(0, content.len() as int) == content
            &&& after.subrange(content.len() as int, after.len() as int) == s.subrange(
                0,
                after.len() - content.len(),
            )
            &&& content.len() == size ==> after == content
        }),
{
    let after = pushed(content, s, size);
    assert(after.subrange(0, content.len() as int) =~= content);
    if content.len() == size {
        assert(after =~= content);
    }
}

/// Bytes that fit are all appended.
pub proof fn law_push_what_fits(content: Seq<u8>, s: Seq<u8>, size: nat)
    requires
        content.len() + s.len() <= size,
    ensures
        pushed(content, s, size) == content + s,
{
    assert(s.take(s.len() as int) =~= s);
}

impl<const SIZE: usize> View for FixedBuffer<SIZE> {
    type V = Seq<u8>;

    /// The bytes that were filled in.
    closed spec fn view(&self) -> Seq<u8> {
        self.content@.take(self.len as int)
    }
}

impl<const SIZE: usize> FixedBuffer<SIZE> {
    /// No more bytes are filled in than fit.
    #[verifier::type_invariant]
    spec fn inv(&self) -> bool {
        self.len <= SIZE
    }

    /// An empty buffer.
    pub fn new() -> (buffer: FixedBuffer<SIZE>)
        ensures
            buffer@ == Seq::<u8>::empty(),
    {
        FixedBuffer { len: 0, content: [0u8; SIZE] }
    }

    /// Append all bytes of a slice. They must fit.
    pub fn push_slice(&mut self, s: &[u8])
        requires
            old(self)@.len() + s@.len() <= SIZE,
        ensures
            final(self)@ == old(self)@ + s@,
    {
        proof {
            law_push_what_fits(self@, s@, SIZE as nat);
        }
        self.try_push_slice(s);
    }

    /// Append as many bytes of a slice as fit, and return how many these were.
    pub fn try_push_slice(&mut self, s: &[u8]) -> (size: usize)
        ensures
            old(self)@.len() <= SIZE,
            size == smaller(s@.len() as int, SIZE - old(self)@.len()),
            size <= s@.len(),
            size <= SIZE - old(self)@.len(),
            size == s@.len() || size == SIZE - old(self)@.len(),
            final(self)@ == old(self)@ + s@.take(size as int),
            final(self)@ == pushed(old(self)@, s@, SIZE as nat),
            final(self)@.len() <= SIZE,
    {
        proof {
            use_type_invariant(&*self);
        }
        let begin = self.len;
        let min_l = if s.len() < SIZE - begin {
            s.len()
        } else {
            SIZE - begin
        };
        let mut i: usize = 0;
        while i < min_l
            invariant
                begin == self.len,
                min_l <= s@.len(),
                begin + min_l <= SIZE,
                i <= min_l,
                self.content@.take(begin as int) == old(self)@,
                forall|j: int| 0 <= j < i ==> self.content@[begin + j] == s@[j],
            decreases min_l - i,
        {
            self.content[begin + i] = s[i];
            i = i + 1;
        }
        self.len = begin + min_l;
        assert(self@ =~= old(self)@ + s@.take(min_l as int));
        min_l
    }

    /// A buffer filled with the bytes of a slice. They must fit.
    pub fn copy_from(x: &[u8]) -> (buffer: FixedBuffer<SIZE>)
        requires
            x@.len() <= SIZE,
        ensures
            buffer@ == x@,
    {
        let mut this = FixedBuffer::new();
        this.push_slice(x);
        this
    }
}

impl<const SIZE: usize> AsRef<[u8]> for FixedBuffer<SIZE> {
    /// The bytes that were filled in.
    fn as_ref(&self) -> (bytes: &[u8])
        ensures
            bytes@ == self@,
            bytes@.len() <= SIZE,
    {
        proof {
            use_type_invariant(self);
        }
        &self.content[0..self.len]
    }
}

impl<const SIZE: usize> Default for FixedBuffer<SIZE> {
    /// An empty buffer.
    fn default() -> (buffer: FixedBuffer<SIZE>)
        ensures
            buffer@ == Seq::<u8>::empty(),
    {
        FixedBuffer::new()
    }
}

} // verus!
