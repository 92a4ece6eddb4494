//! The mathematical model of a ring: a row of cells, the position of the
//! oldest element and the number of elements held.
//!
//! Everything here is ghost code. The executable buffer states its contracts
//! over [`Ring`], and the laws of the queue are proved about it.

use vstd::prelude::*;

verus! {

/// Index of the cell that holds the `i`-th oldest element of a ring of
/// `capacity` cells whose oldest element sits in cell `head`.
pub open spec fn slot_index(head: nat, i: nat, capacity: nat) -> int
    recommends
        capacity > 0,
{
    ((head + i) % capacity) as int
}

/// A ring as a mathematical value.
#[verifier::ext_equal]
pub struct Ring<T> {
    /// The cells in storage order; a cell is `None` when it holds nothing.
    pub slots: Seq<Option<T>>,
    /// The cell of the oldest element.
    pub head: nat,
    /// The number of elements held.
    pub len: nat,
}

impl<T> Ring<T> {
    /// The number of cells.
    pub open spec fn capacity(self) -> nat {
        self.slots.len()
    }

    /// Whether the ring holds nothing.
    pub open spec fn is_empty(self) -> bool {
        self.len == 0
    }

    /// Whether every cell is taken. A ring without cells is full and empty
    /// at once.
    pub open spec fn is_full(self) -> bool {
        self.len == self.capacity()
    }

    /// The cell of the `i`-th oldest element.
    pub open spec fn slot(self, i: nat) -> int
        recommends
            self.capacity() > 0,
    {
        slot_index(self.head, i, self.capacity())
    }

    /// Whether cell `j` is the cell of one of the `len` elements.
    pub open spec fn occupied(self, j: int) -> bool {
        exists|i: nat| i < self.len && #[trigger] slot_index(self.head, i, self.capacity()) == j
    }

    /// The invariant of a ring: the count never exceeds the capacity, the
    /// head is a cell (or zero when there is no cell), and a cell holds a
    /// value exactly when it is the cell of one of the `len` elements.
    pub open spec fn wf(self) -> bool {
        &&& self.len <= self.capacity()
        &&& if self.capacity() == 0 {
            self.head == 0
        } else {
            self.head < self.capacity()
        }
        &&& forall|j: int|
            0 <= j < self.capacity() ==> ((#[trigger] self.slots[j]) is Some <==> self.occupied(j))
    }

    /// The elements held, oldest first.
    pub open spec fn contents(self) -> Seq<T> {
        Seq::new(self.len, |i: int| self.slots[self.slot(i as nat)]->0)
    }

    /// The ring of `capacity` empty cells.
    pub open spec fn empty(capacity: nat) -> Ring<T> {
        Ring { slots: Seq::new(capacity, |j: int| None), head: 0, len: 0 }
    }

    /// The ring after an attempt to append `value`: a full ring stays as it
    /// is, any other ring receives the value in the cell behind its newest
    /// element.
    pub open spec fn push(self, value: T) -> Ring<T> {
        if self.is_full() {
            self
        } else {
            Ring {
                slots: self.slots.update(self.slot(self.len), Some(value)),
                head: self.head,
                len: self.len + 1,
            }
        }
    }

    /// What the cell at the head hands out: nothing from an empty ring.
    pub open spec fn front(self) -> Option<T> {
        if self.is_empty() {
            None
        } else {
            self.slots[self.head as int]
        }
    }

    /// The ring after an attempt to remove its oldest element: an empty ring
    /// stays as it is, any other ring has the head cell emptied and the head
    /// moved one cell on.
    pub open spec fn pop(self) -> Ring<T> {
        if self.is_empty() {
            self
        } else {
            Ring {
                slots: self.slots.update(self.head as int, None),
                head: self.slot(1) as nat,
                len: (self.len - 1) as nat,
            }
        }
    }
}

/// One call on a buffer, as a value.
pub enum Op<T> {
    /// Replace the storage by this many empty cells.
    WithCapacity(nat),
    /// Offer a value.
    Push(T),
    /// Take the oldest element.
    Pop,
}

impl<T> Ring<T> {
    /// The ring after one call.
    pub open spec fn apply(self, op: Op<T>) -> Ring<T> {
        match op {
            Op::WithCapacity(capacity) => Ring::empty(capacity),
            Op::Push(value) => self.push(value),
            Op::Pop => self.pop(),
        }
    }

    /// The ring after a sequence of calls, made in order.
    pub open spec fn run(self, ops: Seq<Op<T>>) -> Ring<T>
        decreases ops.len(),
    {
        if ops.len() == 0 {
            self
        } else {
            self.run(ops.drop_last()).apply(ops.last())
        }
    }

    /// Whether no offer among `ops` meets a full ring.
    pub open spec fn never_overflows(self, ops: Seq<Op<T>>) -> bool {
        forall|k: int|
            0 <= k < ops.len() && (#[trigger] ops[k]) is Push ==> !self.run(ops.take(k)).is_full()
    }
}

/// An unbounded first-in, first-out queue after one call. This is the
/// yardstick that a ring is measured against.
pub open spec fn queue_apply<T>(queue: Seq<T>, op: Op<T>) -> Seq<T> {
    match op {
        Op::WithCapacity(_) => Seq::empty(),
        Op::Push(value) => queue.push(value),
        Op::Pop => if queue.len() == 0 {
            queue
        } else {
            queue.skip(1)
        },
    }
}

/// The unbounded queue after a sequence of calls, made in order.
pub open spec fn queue_run<T>(queue: Seq<T>, ops: Seq<Op<T>>) -> Seq<T>
    decreases ops.len(),
{
    if ops.len() == 0 {
        queue
    } else {
        queue_apply(queue_run(queue, ops.drop_last()), ops.last())
    }
}

/// What the unbounded queue hands out next.
pub open spec fn queue_front<T>(queue: Seq<T>) -> Option<T> {
    if queue.len() == 0 {
        None
    } else {
        Some(queue[0])
    }
}

/// The calls that offer each of `values` in turn.
pub open spec fn pushes<T>(values: Seq<T>) -> Seq<Op<T>> {
    Seq::new(values.len(), |i: int| Op::Push(values[i]))
}

/// `n` calls that each take the oldest element.
pub open spec fn pops<T>(n: nat) -> Seq<Op<T>> {
    Seq::new(n, |i: int| Op::Pop)
}

/// Inside the ranges that a ring uses, reduction modulo the capacity is a
/// single conditional subtraction.
pub proof fn lemma_slot_index(head: nat, i: nat, capacity: nat)
    requires
        head < capacity,
        i <= capacity,
    ensures
        slot_index(head, i, capacity) == if head + i < capacity {
            (head + i) as int
        } else {
            head + i - capacity
        },
        0 <= slot_index(head, i, capacity) < capacity,
{
    if head + i < capacity {
        vstd::arithmetic::div_mod::lemma_small_mod(head + i, capacity);
    } else {
        vstd::arithmetic::div_mod::lemma_mod_sub_multiples_vanish(
            (head + i) as int,
            capacity as int,
        );
        vstd::arithmetic::div_mod::lemma_small_mod((head + i - capacity) as nat, capacity);
    }
}

/// Two different positions in the queue never share a cell.
pub proof fn lemma_slot_index_injective(head: nat, i: nat, k: nat, capacity: nat)
    requires
        head < capacity,
        i < capacity,
        k < capacity,
        slot_index(head, i, capacity) == slot_index(head, k, capacity),
    ensures
        i == k,
{
    lemma_slot_index(head, i, capacity);
    lemma_slot_index(head, k, capacity);
}

} // verus!
