//! The queue of entity identifiers that are free to be issued again.

use crossbeam_queue::SegQueue;
use vstd::prelude::*;

verus! {

/// The unbounded queue of the `crossbeam_queue` crate: an opaque value.
#[verifier::reject_recursive_types(T)]
#[verifier::external_type_specification]
#[verifier::external_body]
pub struct ExSegQueue<T>(SegQueue<T>);

/// The identifiers that a queue holds, the one that leaves next first.
pub uninterp spec fn queued(q: SegQueue<usize>) -> Seq<usize>;

/// Calls `SegQueue::new`, which yields a queue without elements.
#[verifier::external_body]
pub(crate) fn new_queue() -> (q: SegQueue<usize>)
    ensures
        queued(q) =~= Seq::empty(),
{
    SegQueue::new()
}

/// Calls `SegQueue::push`, which puts `id` behind the elements that the
/// queue holds.
#[verifier::external_body]
pub(crate) fn push(q: &mut SegQueue<usize>, id: usize)
    ensures
        queued(*final(q)) == queued(*old(q)).push(id),
{
    q.push(id);
}

/// Calls `SegQueue::pop`, which takes the element at the head of the queue,
/// or returns `None` and leaves the queue as it is where it holds none.
#[verifier::external_body]
pub(crate) fn pop(q: &mut SegQueue<usize>) -> (r: Option<usize>)
    ensures
        r is None <==> queued(*old(q)).len() == 0,
        r is None ==> queued(*final(q)) == queued(*old(q)),
        r matches Some(id) ==> id == queued(*old(q))[0] && queued(*final(q)) == queued(*old(q)).drop_first(),
{
    q.pop()
}

} // verus!
