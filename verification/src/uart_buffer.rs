//! The fixed-size ring buffer that holds bytes received by the serial
//! interrupt until the main loop reads them.

use vstd::prelude::*;

verus! {

/// The number of slots of the ring; one slot always stays free, so the
/// buffer holds at most `RX_SLOTS - 1` bytes.
pub const RX_SLOTS: usize = 128;

/// The most bytes the buffer holds at once.
pub open spec fn rx_capacity() -> nat {
    (RX_SLOTS - 1) as nat
}

/// The queue after pushing `byte`, and whether it was taken.
pub open spec fn queue_push(q: Seq<u8>, byte: u8) -> (Seq<u8>, bool) {
    if q.len() >= rx_capacity() {
        (q, false)
    } else {
        (q.push(byte), true)
    }
}

/// The queue after a pop, and the byte that came out.
pub open spec fn queue_pop(q: Seq<u8>) -> (Seq<u8>, Option<u8>) {
    if q.len() == 0 {
        (q, None)
    } else {
        (q.drop_first(), Some(q[0]))
    }
}

/// Fixed size buffer for bytes received on the serial line.
pub struct UartBuffer {
    buffer: [u8; 128],
    head: usize,
    tail: usize,
}

impl UartBuffer {
    #[verifier::type_invariant]
    spec fn inv(self) -> bool {
        self.head < RX_SLOTS && self.tail < RX_SLOTS
    }

    spec fn count(self) -> int {
        if self.head >= self.tail {
            self.head - self.tail
        } else {
            self.head + RX_SLOTS - self.tail
        }
    }

    spec fn slot(self, i: int) -> int {
        if self.tail + i < RX_SLOTS {
            self.tail + i
        } else {
            self.tail + i - RX_SLOTS
        }
    }
}

impl View for UartBuffer {
    type V = Seq<u8>;

    /// The queued bytes, oldest first.
    closed spec fn view(&self) -> Seq<u8> {
        Seq::new(self.count() as nat, |i: int| self.buffer@[self.slot(i)])
    }
}

impl UartBuffer {
    /// An empty buffer.
    pub fn new() -> (b: Self)
        ensures
            b@ == Seq::<u8>::empty(),
    {
        let b = UartBuffer { buffer: [0u8; 128], head: 0, tail: 0 };
        proof {
            assert(b@ =~= Seq::<u8>::empty());
        }
        b
    }

    /// Push a byte into the buffer; a full buffer refuses it and stays as it was.
    pub fn push(&mut self, byte: u8) -> (r: Result<(), ()>)
        ensures
            final(self)@ == queue_push(old(self)@, byte).0,
            r is Ok <==> queue_push(old(self)@, byte).1,
            final(self)@.len() <= rx_capacity(),
    {
        proof {
            use_type_invariant(&*self);
        }
        let next = (self.head + 1) % RX_SLOTS;
        if next == self.tail {
            return Err(());
        }
        let ghost before = *self;
        self.buffer[self.head] = byte;
        self.head = next;
        proof {
            assert(self@ =~= before@.push(byte)) by {
                assert forall|i: int| 0 <= i < self@.len() implies self@[i] == before@.push(
                    byte,
                )[i] by {
                    if i < before.count() {
                        assert(before.slot(i) != before.head);
                    }
                }
            }
        }
        Ok(())
    }

    /// Pop the oldest byte from the buffer, or `None` if it is empty.
    pub fn pop(&mut self) -> (r: Option<u8>)
        ensures
            final(self)@ == queue_pop(old(self)@).0,
            r == queue_pop(old(self)@).1,
            final(self)@.len() < rx_capacity(),
    {
        proof {
            use_type_invariant(&*self);
        }
        if self.head == self.tail {
            return None;
        }
        let ghost before = *self;
        let byte = self.buffer[self.tail];
        self.tail = (self.tail + 1) % RX_SLOTS;
        proof {
            assert(before.slot(0) == before.tail);
            assert(self.tail == before.slot(1));
            assert(self.count() == before.count() - 1);
            assert forall|i: int| 0 <= i < self.count() implies self.slot(i) == before.slot(
                i + 1,
            ) by {}
            assert(self@ =~= before@.drop_first());
        }
        Some(byte)
    }
}

/// The buffer is first in, first out: on a non-empty queue, pushing a byte
/// and then popping gives the same byte out, and the same queue, as popping
/// first and pushing afterwards.
pub proof fn lemma_fifo(q: Seq<u8>, byte: u8)
    requires
        q.len() > 0,
        q.len() < rx_capacity(),
    ensures
        queue_pop(queue_push(q, byte).0).1 == queue_pop(q).1,
        queue_pop(queue_push(q, byte).0).0 == queue_push(queue_pop(q).0, byte).0,
{
    assert(q.push(byte).drop_first() =~= q.drop_first().push(byte));
}

/// A byte pushed onto an empty buffer is the next one popped, and leaves the
/// buffer empty again.
pub proof fn lemma_push_then_pop_empty(byte: u8)
    ensures
        queue_pop(queue_push(Seq::<u8>::empty(), byte).0) == (Seq::<u8>::empty(), Some(byte)),
{
    assert(Seq::<u8>::empty().push(byte).drop_first() =~= Seq::<u8>::empty());
}

/// One operation on the buffer, as the contracts see it.
pub enum QueueOp {
    Push(u8),
    Pop,
}

/// The queue after one operation.
pub open spec fn queue_step(q: Seq<u8>, op: QueueOp) -> Seq<u8> {
    match op {
        QueueOp::Push(b) => queue_push(q, b).0,
        QueueOp::Pop => queue_pop(q).0,
    }
}

/// The queue after the operations `ops`, in order.
pub open spec fn queue_run(q: Seq<u8>, ops: Seq<QueueOp>) -> Seq<u8>
    decreases ops.len(),
{
    if ops.len() == 0 {
        q
    } else {
        queue_step(queue_run(q, ops.drop_last()), ops.last())
    }
}

/// The bytes whose push was taken, in order.
pub open spec fn queue_accepted(q: Seq<u8>, ops: Seq<QueueOp>) -> Seq<u8>
    decreases ops.len(),
{
    if ops.len() == 0 {
        seq![]
    } else {
        let prev = queue_run(q, ops.drop_last());
        queue_accepted(q, ops.drop_last()) + match ops.last() {
            QueueOp::Push(b) => if queue_push(prev, b).1 {
                seq![b]
            } else {
                seq![]
            },
            QueueOp::Pop => seq![],
        }
    }
}

/// The bytes that the pops gave out, in order.
pub open spec fn queue_popped(q: Seq<u8>, ops: Seq<QueueOp>) -> Seq<u8>
    decreases ops.len(),
{
    if ops.len() == 0 {
        seq![]
    } else {
        let prev = queue_run(q, ops.drop_last());
        queue_popped(q, ops.drop_last()) + match ops.last() {
            QueueOp::Push(b) => seq![],
            QueueOp::Pop => match queue_pop(prev).1 {
                Some(b) => seq![b],
                None => seq![],
            },
        }
    }
}

/// First in, first out over any sequence of operations: the bytes queued at
/// the start followed by the bytes whose push was taken are exactly the
/// bytes popped followed by the bytes still queued. So the pops give out a
/// prefix of them, in order, and a pop gives out nothing exactly when every
/// one of them has been popped.
pub proof fn lemma_fifo_runs(q: Seq<u8>, ops: Seq<QueueOp>)
    ensures
        q + queue_accepted(q, ops) == queue_popped(q, ops) + queue_run(q, ops),
        queue_popped(q, ops) == (q + queue_accepted(q, ops)).take(queue_popped(q, ops).len() as int),
        queue_pop(queue_run(q, ops)).1 is None <==> queue_popped(q, ops).len() == (q
            + queue_accepted(q, ops)).len(),
    decreases ops.len(),
{
    if ops.len() == 0 {
        assert(q + queue_accepted(q, ops) =~= queue_popped(q, ops) + queue_run(q, ops));
    } else {
        let dl = ops.drop_last();
        lemma_fifo_runs(q, dl);
        let prev = queue_run(q, dl);
        match ops.last() {
            QueueOp::Push(b) => {
                assert(queue_popped(q, ops) =~= queue_popped(q, dl));
                if prev.len() < rx_capacity() {
                    assert(queue_accepted(q, ops) =~= queue_accepted(q, dl) + seq![b]);
                    assert(queue_run(q, ops) =~= prev.push(b));
                    let a = queue_accepted(q, dl);
                    let pp = queue_popped(q, dl);
                    assert(q + a == pp + prev);
                    assert(q + (a + seq![b]) =~= (q + a) + seq![b]);
                    assert(pp + prev.push(b) =~= (pp + prev) + seq![b]);
                } else {
                    assert(queue_accepted(q, ops) =~= queue_accepted(q, dl));
                    assert(queue_run(q, ops) =~= prev);
                }
                assert(q + queue_accepted(q, ops) =~= queue_popped(q, ops) + queue_run(q, ops));
            },
            QueueOp::Pop => {
                assert(queue_accepted(q, ops) =~= queue_accepted(q, dl));
                if prev.len() > 0 {
                    assert(prev =~= seq![prev[0]] + prev.drop_first());
                    assert(queue_popped(q, ops) =~= queue_popped(q, dl) + seq![prev[0]]);
                    assert(queue_run(q, ops) =~= prev.drop_first());
                    let pp = queue_popped(q, dl);
                    assert(pp + prev =~= (pp + seq![prev[0]]) + prev.drop_first());
                } else {
                    assert(queue_popped(q, ops) =~= queue_popped(q, dl));
                    assert(queue_run(q, ops) =~= prev);
                }
                assert(q + queue_accepted(q, ops) =~= queue_popped(q, ops) + queue_run(q, ops));
            },
        }
    }
    let all = q + queue_accepted(q, ops);
    let p = queue_popped(q, ops);
    assert(all.take(p.len() as int) =~= p);
}

} // verus!
