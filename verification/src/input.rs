//! The keyboard input buffer: a bounded FIFO of raw bytes.
//!
//! The buffer is the bounded lock-free queue from the `crossbeam-queue`
//! crate. Its state is visible to contracts through two names: the sequence
//! of queued bytes (oldest first) and the fixed capacity it was created with.

use vstd::prelude::*;

use crossbeam_queue::ArrayQueue;

verus! {

#[verifier::external_type_specification]
#[verifier::external_body]
#[verifier::reject_recursive_types(T)]
pub struct ExArrayQueue<T>(ArrayQueue<T>);

/// The bytes held by the queue, oldest first.
pub uninterp spec fn queue_contents(q: ArrayQueue<u8>) -> Seq<u8>;

/// The capacity the queue was created with.
pub uninterp spec fn queue_capacity(q: ArrayQueue<u8>) -> nat;

/// Relies on crossbeam's `ArrayQueue::new`: an empty queue with the given
/// capacity (it panics on a zero capacity, which the precondition excludes).
#[verifier::external_body]
fn queue_new(cap: usize) -> (q: ArrayQueue<u8>)
    requires
        1 <= cap <= 0x10000,
    ensures
        queue_contents(q) == Seq::<u8>::empty(),
        queue_capacity(q) == cap,
{
    ArrayQueue::new(cap)
}

/// Relies on crossbeam's `ArrayQueue::push`: appends `value` at the tail, or
/// returns it back when the queue is full.
#[verifier::external_body]
fn queue_push(q: &mut ArrayQueue<u8>, value: u8) -> (r: Result<(), u8>)
    ensures
        ({
            let full = queue_contents(*old(q)).len() >= queue_capacity(*old(q));
            match r {
                Ok(u) => !full && queue_contents(*final(q)) == queue_contents(*old(q)).push(
                    value,
                ) && queue_capacity(*final(q)) == queue_capacity(*old(q)),
                Err(v) => full && v == value && queue_contents(*final(q)) == queue_contents(
                    *old(q),
                ) && queue_capacity(*final(q)) == queue_capacity(*old(q)),
            }
        }),
{
    q.push(value)
}

/// Relies on crossbeam's `ArrayQueue::pop`: removes and returns the head, or
/// `None` when the queue is empty.
#[verifier::external_body]
fn queue_pop(q: &mut ArrayQueue<u8>) -> (r: Option<u8>)
    ensures
        r is Some <==> queue_contents(*old(q)).len() > 0,
        r is Some ==> r == Some(queue_contents(*old(q))[0]) && queue_contents(*final(q))
            == queue_contents(*old(q)).drop_first() && queue_capacity(*final(q))
            == queue_capacity(*old(q)),
        r is None ==> queue_contents(*final(q)) == queue_contents(*old(q)) && queue_capacity(
            *final(q),
        ) == queue_capacity(*old(q)),
{
    q.pop()
}

/// Relies on crossbeam's `ArrayQueue::len`: the number of queued elements.
#[verifier::external_body]
fn queue_len(q: &ArrayQueue<u8>) -> (r: usize)
    ensures
        r == queue_contents(*q).len(),
{
    q.len()
}

/// How many bytes the input buffer holds at most.
pub const INPUT_BUF_SIZE: usize = 128;

/// The kernel's buffer of keystrokes not yet read by anyone.
pub struct InputBuffer {
    pub queue: ArrayQueue<u8>,
}

impl InputBuffer {
    /// The queued bytes, oldest first.
    pub open spec fn contents(self) -> Seq<u8> {
        queue_contents(self.queue)
    }

    pub open spec fn capacity(self) -> nat {
        queue_capacity(self.queue)
    }
}

/// A fresh, empty input buffer.
pub fn init() -> (b: InputBuffer)
    ensures
        b.contents() == Seq::<u8>::empty(),
        b.capacity() == INPUT_BUF_SIZE,
{
    InputBuffer { queue: queue_new(INPUT_BUF_SIZE) }
}

/// Queue one byte of input; a byte arriving at a full buffer is dropped.
pub fn push_key(buffer: &mut InputBuffer, data: u8)
    ensures
        final(buffer).capacity() == old(buffer).capacity(),
        old(buffer).contents().len() < old(buffer).capacity() ==> final(buffer).contents()
            == old(buffer).contents().push(data),
        old(buffer).contents().len() >= old(buffer).capacity() ==> final(buffer).contents()
            == old(buffer).contents(),
{
    // a full buffer hands the byte back; it is dropped
    let _overflow = queue_push(&mut buffer.queue, data);
}

/// Take the oldest byte, if there is one.
pub fn try_pop_key(buffer: &mut InputBuffer) -> (r: Option<u8>)
    ensures
        final(buffer).capacity() == old(buffer).capacity(),
        old(buffer).contents().len() > 0 ==> r == Some(old(buffer).contents()[0])
            && final(buffer).contents() == old(buffer).contents().drop_first(),
        old(buffer).contents().len() == 0 ==> r is None && final(buffer).contents()
            == old(buffer).contents(),
{
    queue_pop(&mut buffer.queue)
}

/// Take the oldest byte. On hardware this spins until a key arrives; with
/// no interrupt source in the model, the buffer must already hold one.
pub fn pop_key(buffer: &mut InputBuffer) -> (r: u8)
    requires
        old(buffer).contents().len() > 0,
    ensures
        final(buffer).capacity() == old(buffer).capacity(),
        r == old(buffer).contents()[0],
        final(buffer).contents() == old(buffer).contents().drop_first(),
{
    let r = try_pop_key(buffer);
    match r {
        Some(b) => b,
        None => 0,
    }
}

/// Bytes still queued.
pub fn buffered_keys(buffer: &InputBuffer) -> (r: usize)
    ensures
        r == buffer.contents().len(),
{
    queue_len(&buffer.queue)
}

} // verus!
