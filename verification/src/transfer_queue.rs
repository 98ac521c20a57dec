//! The bounded queue of transfer requests waiting for the background
//! worker: first in, first out, refusing new requests when full.

use crossbeam::queue::ArrayQueue;
use vstd::prelude::*;

verus! {

#[verifier::external_type_specification]
#[verifier::external_body]
#[verifier::reject_recursive_types(T)]
pub struct ExArrayQueue<T>(crossbeam::queue::ArrayQueue<T>);

/// The request ids a queue holds, oldest first.
pub uninterp spec fn queue_items(q: ArrayQueue<u128>) -> Seq<u128>;

/// The capacity a queue was made with.
pub uninterp spec fn queue_capacity(q: ArrayQueue<u128>) -> nat;

/// Wrapper of `ArrayQueue::new`: an empty queue of the given capacity. The
/// crate panics for a zero capacity, or one whose next power of two above
/// it does not fit in a `usize`.
#[verifier::external_body]
fn array_queue_new(cap: usize) -> (q: ArrayQueue<u128>)
    requires
        0 < cap <= usize::MAX / 2,
    ensures
        queue_items(q) == Seq::<u128>::empty(),
        queue_capacity(q) == cap,
{
    ArrayQueue::new(cap)
}

/// Wrapper of `ArrayQueue::push`: with the queue held alone, the value
/// goes to the back unless the queue is full, in which case it is handed
/// back.
#[verifier::external_body]
fn array_queue_push(q: &mut ArrayQueue<u128>, x: u128) -> (res: Result<(), u128>)
    ensures
        queue_capacity(*final(q)) == queue_capacity(*old(q)),
        queue_items(*old(q)).len() < queue_capacity(*old(q)) ==> {
            &&& res is Ok
            &&& queue_items(*final(q)) == queue_items(*old(q)).push(x)
        },
        queue_items(*old(q)).len() >= queue_capacity(*old(q)) ==> {
            &&& res == Err::<(), u128>(x)
            &&& queue_items(*final(q)) == queue_items(*old(q))
        },
{
    q.push(x)
}

/// Wrapper of `ArrayQueue::pop`: with the queue held alone, the front
/// value leaves, or `None` when the queue is empty.
#[verifier::external_body]
fn array_queue_pop(q: &mut ArrayQueue<u128>) -> (res: Option<u128>)
    ensures
        queue_capacity(*final(q)) == queue_capacity(*old(q)),
        queue_items(*old(q)).len() == 0 ==> res is None && queue_items(*final(q)) == queue_items(*old(q)),
        queue_items(*old(q)).len() > 0 ==> {
            &&& res == Some(queue_items(*old(q))[0])
            &&& queue_items(*final(q)) == queue_items(*old(q)).drop_first()
        },
{
    q.pop()
}

/// Wrapper of `ArrayQueue::len`: how many values the queue holds.
#[verifier::external_body]
fn array_queue_len(q: &ArrayQueue<u128>) -> (res: usize)
    ensures
        res == queue_items(*q).len(),
{
    q.len()
}

/// Wrapper of `ArrayQueue::is_empty`: whether the queue holds nothing.
#[verifier::external_body]
fn array_queue_is_empty(q: &ArrayQueue<u128>) -> (res: bool)
    ensures
        res == (queue_items(*q).len() == 0),
{
    q.is_empty()
}

/// Transfer requests waiting for the worker, by request id.
pub struct TransferQueue {
    buffer: ArrayQueue<u128>,
}

impl TransferQueue {
    /// The waiting request ids, oldest first.
    pub closed spec fn items(&self) -> Seq<u128> {
        queue_items(self.buffer)
    }

    /// How many requests can wait at once.
    pub closed spec fn capacity(&self) -> nat {
        queue_capacity(self.buffer)
    }

    /// The queue never holds more than its capacity.
    pub open spec fn wf(&self) -> bool {
        self.items().len() <= self.capacity()
    }

    /// An empty queue for `capacity` requests.
    pub fn new(capacity: usize) -> (res: TransferQueue)
        requires
            0 < capacity <= usize::MAX / 2,
        ensures
            res.wf(),
            res.items() == Seq::<u128>::empty(),
            res.capacity() == capacity,
    {
        TransferQueue { buffer: array_queue_new(capacity) }
    }

    /// Adds a request at the back; refused (`false`) when the queue is full.
    pub fn try_push(&mut self, req_id: u128) -> (res: bool)
        requires
            old(self).wf(),
        ensures
            final(self).wf(),
            final(self).capacity() == old(self).capacity(),
            res == (old(self).items().len() < old(self).capacity()),
            res ==> final(self).items() == old(self).items().push(req_id),
            !res ==> final(self).items() == old(self).items(),
    {
        match array_queue_push(&mut self.buffer, req_id) {
            Ok(()) => true,
            Err(_) => false,
        }
    }

    /// Takes the oldest request, or `None` when the queue is empty.
    pub fn try_pop(&mut self) -> (res: Option<u128>)
        requires
            old(self).wf(),
        ensures
            final(self).wf(),
            final(self).capacity() == old(self).capacity(),
            old(self).items().len() == 0 ==> res is None && final(self).items() == old(self).items(),
            old(self).items().len() > 0 ==> {
                &&& res == Some(old(self).items()[0])
                &&& final(self).items() == old(self).items().drop_first()
            },
    {
        array_queue_pop(&mut self.buffer)
    }

    /// How many requests are waiting.
    pub fn len(&self) -> (res: usize)
        ensures
            res == self.items().len(),
    {
        array_queue_len(&self.buffer)
    }

    /// Whether no request is waiting.
    pub fn is_empty(&self) -> (res: bool)
        ensures
            res == (self.items().len() == 0),
    {
        array_queue_is_empty(&self.buffer)
    }
}

/// Requests leave the queue in the order they entered: pushing onto a
/// queue with room, then popping as many times as it held plus one, gives
/// back what it held and then the new request.
pub proof fn lemma_first_in_first_out(held: Seq<u128>, x: u128, k: int)
    requires
        0 <= k <= held.len(),
    ensures
        (held.push(x)).skip(k)[0] == if k < held.len() { held[k] } else { x },
        (held.push(x)).skip(k).drop_first() == (held.push(x)).skip(k + 1),
{
    assert((held.push(x)).skip(k).drop_first() =~= (held.push(x)).skip(k + 1));
}

} // verus!
