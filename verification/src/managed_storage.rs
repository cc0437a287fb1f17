//! The slots of a ring buffer: a `managed::ManagedSlice`, owned or borrowed.

use managed::ManagedSlice;
use vstd::prelude::*;

verus! {

/// `managed::ManagedSlice`, with its two variants in sight: a borrowed slice or an owned vector.
#[verifier::external_type_specification]
#[verifier::reject_recursive_types(T)]
pub struct ExManagedSlice<'a, T: 'a>(ManagedSlice<'a, T>);

/// The elements of a managed slice, borrowed or owned.
pub open spec fn held<'a, T>(slice: ManagedSlice<'a, T>) -> Seq<T> {
    match slice {
        ManagedSlice::Borrowed(borrowed) => borrowed@,
        ManagedSlice::Owned(owned) => owned@,
    }
}

/// `From<Vec<T>> for ManagedSlice`: the vector becomes the owned variant.
pub assume_specification<'a, T: 'a>[ <ManagedSlice<'a, T> as From<Vec<T>>>::from ](
    value: Vec<T>,
) -> (slice: ManagedSlice<'a, T>)
    ensures
        slice == ManagedSlice::Owned(value),
;

/// `From<&mut [T]> for ManagedSlice`: the reference becomes the borrowed variant, so that what is
/// later written into the managed slice is written into the slice that was lent.
pub assume_specification<'a, T: 'a>[ <ManagedSlice<'a, T> as From<&'a mut [T]>>::from ](
    value: &'a mut [T],
) -> (slice: ManagedSlice<'a, T>)
    ensures
        slice matches ManagedSlice::Borrowed(borrowed) && borrowed@ == old(value)@
            && final(borrowed)@ == final(value)@,
;

/// `Deref for ManagedSlice`: a view of the elements.
#[verifier::external_body]
pub(crate) fn slots<'b, 'a, T>(slice: &'b ManagedSlice<'a, T>) -> (elements: &'b [T])
    ensures
        elements@ == held(*slice),
{
    &**slice
}

/// `DerefMut for ManagedSlice`: access to the elements. What is written through the reference is
/// what the managed slice holds afterwards; a slice keeps its length, and a borrowed one stays the
/// one that was lent.
#[verifier::external_body]
pub(crate) fn slots_mut<'b, 'a, T>(slice: &'b mut ManagedSlice<'a, T>) -> (elements: &'b mut [T])
    ensures
        elements@ == held(*old(slice)),
        final(elements)@ == held(*final(slice)),
        final(elements)@.len() == elements@.len(),
        *old(slice) matches ManagedSlice::Borrowed(lent)
            ==> *final(slice) matches ManagedSlice::Borrowed(kept)
            && final(kept)@ == final(lent)@,
{
    &mut **slice
}

/// `IndexMut<Range<usize>>` of the standard library's slices: access to a stretch of a slice. What
/// is written through the reference replaces that stretch; the rest stays as it is, and the
/// stretch keeps its length.
#[verifier::external_body]
pub(crate) fn stretch_mut<'b, T>(slice: &'b mut [T], begin: usize, end: usize) -> (stretch:
    &'b mut [T])
    requires
        begin <= end <= old(slice)@.len(),
    ensures
        stretch@ == old(slice)@.subrange(begin as int, end as int),
        final(slice)@ == old(slice)@.take(begin as int) + final(stretch)@ + old(slice)@.skip(
            end as int,
        ),
        final(stretch)@.len() == stretch@.len(),
{
    &mut slice[begin..end]
}

} // verus!
