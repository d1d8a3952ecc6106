//! Trusted bridges to the few `std::collections::VecDeque` operations that
//! vstd leaves unspecified. Each wrapper makes exactly one call into std and
//! states only what std's documentation promises of it.

use std::collections::VecDeque;
use vstd::prelude::*;

verus! {

#[verifier::external_type_specification]
#[verifier::external_body]
#[verifier::reject_recursive_types(T)]
pub struct ExIterMut<'a, T: 'a>(std::collections::vec_deque::IterMut<'a, T>);

/// Relies on std's `VecDeque::iter_mut`: an iterator handing out a mutable
/// borrow of each element, front to back. The iterator can change elements
/// only through those borrows, never add or remove any, so the deque keeps
/// its length.
#[verifier::external_body]
pub(crate) fn deque_iter_mut<'a, T>(v: &'a mut VecDeque<T>) -> (it: std::collections::vec_deque::IterMut<'a, T>)
    ensures
        final(v)@.len() == old(v)@.len(),
{
    v.iter_mut()
}

/// Relies on std's `VecDeque::get_mut`: a mutable borrow of the element at
/// `index`, or `None` when `index` is out of range; no element other than the
/// borrowed one changes.
#[verifier::external_body]
pub(crate) fn deque_get_mut<T>(v: &mut VecDeque<T>, index: usize) -> (element: Option<&mut T>)
    ensures
        index < old(v)@.len() ==> element.is_some() && *element.unwrap() == old(v)@[index as int]
            && final(v)@ == old(v)@.update(index as int, *final(element.unwrap())),
        index >= old(v)@.len() ==> element.is_none() && final(v)@ == old(v)@,
{
    v.get_mut(index)
}

} // verus!
