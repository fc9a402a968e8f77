//! The fixed-capacity vectors of `heapless` that the logic keeps its logs
//! and digit lists in, and what their methods do to their contents.

use vstd::prelude::*;

verus! {

#[verifier::external_type_specification]
#[verifier::external_body]
#[verifier::reject_recursive_types(T)]
pub struct ExHeaplessVec<T, const N: usize>(heapless::Vec<T, N>);

/// The capacity of the log of visited positions.
pub const VISITED_CAPACITY: usize = 1024;

/// The capacity of a list of decimal digits.
pub const DIGITS_CAPACITY: usize = 10;

/// The positions held by a log of visited positions, oldest first.
pub uninterp spec fn visited_items(v: heapless::Vec<(u8, u8), 1024>) -> Seq<(u8, u8)>;

/// The digits held by a digit list, first pushed first.
pub uninterp spec fn digit_items(v: heapless::Vec<u8, 10>) -> Seq<u8>;

/// `heapless::Vec::new`: an empty vector.
#[verifier::external_body]
pub(crate) fn visited_new() -> (v: heapless::Vec<(u8, u8), 1024>)
    ensures
        visited_items(v) == Seq::<(u8, u8)>::empty(),
{
    heapless::Vec::new()
}

/// `heapless::Vec::push`: appends the item when fewer than the capacity are
/// held, and hands it back unchanged otherwise.
#[verifier::external_body]
pub(crate) fn visited_push(v: &mut heapless::Vec<(u8, u8), 1024>, item: (u8, u8)) -> (r: Result<
    (),
    (u8, u8),
>)
    ensures
        visited_items(*old(v)).len() < VISITED_CAPACITY ==> r is Ok,
        visited_items(*old(v)).len() < VISITED_CAPACITY ==> visited_items(*final(v))
            == visited_items(*old(v)).push(item),
        visited_items(*old(v)).len() >= VISITED_CAPACITY ==> (r matches Err(e) && e == item),
        visited_items(*old(v)).len() >= VISITED_CAPACITY ==> visited_items(*final(v))
            == visited_items(*old(v)),
        visited_items(*final(v)).len() <= VISITED_CAPACITY,
{
    v.push(item)
}

/// `heapless::Vec::clear`: removes every item.
#[verifier::external_body]
pub(crate) fn visited_clear(v: &mut heapless::Vec<(u8, u8), 1024>)
    ensures
        visited_items(*final(v)) == Seq::<(u8, u8)>::empty(),
{
    v.clear()
}

/// `heapless::Vec::as_slice`: the items, in order.
#[verifier::external_body]
pub(crate) fn visited_as_slice(v: &heapless::Vec<(u8, u8), 1024>) -> (s: &[(u8, u8)])
    ensures
        s@ == visited_items(*v),
        s@.len() <= VISITED_CAPACITY,
{
    v.as_slice()
}

/// `heapless::Vec::new`: an empty vector.
#[verifier::external_body]
pub(crate) fn digits_new() -> (v: heapless::Vec<u8, 10>)
    ensures
        digit_items(v) == Seq::<u8>::empty(),
{
    heapless::Vec::new()
}

/// `heapless::Vec::push`: appends the item when fewer than the capacity are
/// held, and hands it back unchanged otherwise.
#[verifier::external_body]
pub(crate) fn digits_push(v: &mut heapless::Vec<u8, 10>, item: u8) -> (r: Result<(), u8>)
    ensures
        digit_items(*old(v)).len() < DIGITS_CAPACITY ==> r is Ok,
        digit_items(*old(v)).len() < DIGITS_CAPACITY ==> digit_items(*final(v)) == digit_items(
            *old(v),
        ).push(item),
        digit_items(*old(v)).len() >= DIGITS_CAPACITY ==> (r matches Err(e) && e == item),
        digit_items(*old(v)).len() >= DIGITS_CAPACITY ==> digit_items(*final(v)) == digit_items(
            *old(v),
        ),
        digit_items(*final(v)).len() <= DIGITS_CAPACITY,
{
    v.push(item)
}

/// `heapless::Vec::as_slice`: the items, in order.
#[verifier::external_body]
pub(crate) fn digits_as_slice(v: &heapless::Vec<u8, 10>) -> (s: &[u8])
    ensures
        s@ == digit_items(*v),
        s@.len() <= DIGITS_CAPACITY,
{
    v.as_slice()
}

} // verus!
