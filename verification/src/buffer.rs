//! The executable ring buffer.

use std::mem::swap;
use vstd::prelude::*;
use crate::laws::{lemma_empty_ring, lemma_pop, lemma_push};
use crate::model::{lemma_slot_index, Ring};

verus! {

/// A queue of at most `capacity` elements, held in a fixed row of cells and
/// handed out in the order in which they came.
pub struct RingBuffer<T> {
    data: Vec<Option<T>>,
    begin: usize,
    size: usize,
}

impl<T> View for RingBuffer<T> {
    type V = Seq<T>;

    /// The elements held, oldest first.
    open spec fn view(&self) -> Seq<T> {
        self.layout().contents()
    }
}

impl<T> RingBuffer<T> {
    /// The cells, the head and the count as a mathematical ring.
    pub closed spec fn layout(&self) -> Ring<T> {
        Ring { slots: self.data@, head: self.begin as nat, len: self.size as nat }
    }

    /// Every buffer is a well-formed ring at all times: Verus checks this
    /// wherever a buffer is built or changed.
    #[verifier::type_invariant]
    pub open spec fn wf(&self) -> bool {
        self.layout().wf()
    }

    /// A buffer without cells: it holds nothing and accepts nothing until it
    /// is given a capacity.
    pub fn new() -> (rb: RingBuffer<T>)
        ensures
            rb.layout() == Ring::<T>::empty(0),
            rb.wf(),
            rb@ == Seq::<T>::empty(),
    {
        proof {
            lemma_empty_ring::<T>(0);
        }
        let rb = RingBuffer { data: Vec::new(), begin: 0, size: 0 };
        assert(rb.layout() =~= Ring::<T>::empty(0));
        rb
    }

    /// Replaces the storage by `n` empty cells. Whatever the buffer held is
    /// dropped; the head returns to the first cell.
    pub fn with_capacity(&mut self, n: usize)
        ensures
            final(self).layout() == Ring::<T>::empty(n as nat),
            final(self).wf(),
            final(self).layout().capacity() == n,
            final(self)@ == Seq::<T>::empty(),
    {
        let mut data: Vec<Option<T>> = Vec::with_capacity(n);
        let mut filled: usize = 0;
        while filled < n
            invariant
                filled <= n,
                data@.len() == filled,
                forall|j: int| 0 <= j < filled ==> data@[j] is None,
            decreases n - filled,
        {
            data.push(None);
            filled += 1;
        }
        proof {
            lemma_empty_ring::<T>(n as nat);
            assert(data@ =~= Ring::<T>::empty(n as nat).slots);
        }
        *self = RingBuffer { data, begin: 0, size: 0 };
    }

    /// Offers `value` to the queue. A buffer with a free cell stores it in
    /// the cell behind its newest element and answers `true`; a full buffer
    /// answers `false` and is left untouched.
    pub fn push(&mut self, value: T) -> (accepted: bool)
        ensures
            accepted == !old(self).layout().is_full(),
            final(self).layout() == old(self).layout().push(value),
            final(self).wf(),
            final(self).layout().capacity() == old(self).layout().capacity(),
            final(self)@.len() <= final(self).layout().capacity(),
            final(self)@ == if accepted {
                old(self)@.push(value)
            } else {
                old(self)@
            },
            !accepted ==> *final(self) == *old(self),
    {
        proof {
            use_type_invariant(&*self);
            lemma_push(self.layout(), value);
        }
        let len = self.data.len();
        if self.size == len {
            return false;
        }
        // `begin + size` may not fit a `usize`, so the step back over the
        // end of storage is taken before the sum, not after it.
        let room = len - self.begin;
        let tail = if self.size < room {
            self.begin + self.size
        } else {
            self.size - room
        };
        proof {
            lemma_slot_index(self.begin as nat, self.size as nat, len as nat);
        }
        // The cell and the count change together: the parts are taken out
        // and put back as one value, so that no ill-formed buffer ever exists.
        let mut held = RingBuffer::new();
        swap(self, &mut held);
        let RingBuffer { mut data, begin, size } = held;
        data[tail] = Some(value);
        *self = RingBuffer { data, begin, size: size + 1 };
        true
    }

    /// Takes the oldest element out of the queue. Its cell is left empty and
    /// the head moves one cell on; an empty buffer answers `None` and is left
    /// untouched.
    pub fn pop(&mut self) -> (value: Option<T>)
        ensures
            value == old(self).layout().front(),
            final(self).layout() == old(self).layout().pop(),
            final(self).wf(),
            final(self).layout().capacity() == old(self).layout().capacity(),
            final(self)@.len() <= final(self).layout().capacity(),
            value == if old(self)@.len() == 0 {
                None
            } else {
                Some(old(self)@[0])
            },
            final(self)@ == if old(self)@.len() == 0 {
                old(self)@
            } else {
                old(self)@.skip(1)
            },
            old(self)@.len() == 0 ==> *final(self) == *old(self),
    {
        proof {
            use_type_invariant(&*self);
            lemma_pop(self.layout());
        }
        let mut value = None::<T>;
        if self.size != 0 {
            let mut held = RingBuffer::new();
            swap(self, &mut held);
            let RingBuffer { mut data, begin, size } = held;
            let len = data.len();
            swap(&mut value, &mut data[begin]);
            *self = RingBuffer { data, begin: (begin + 1) % len, size: size - 1 };
        }
        value
    }

    /// The number of cells.
    pub fn capacity(&self) -> (n: usize)
        ensures
            n == self.layout().capacity(),
    {
        self.data.len()
    }

    /// The number of elements held.
    pub fn len(&self) -> (n: usize)
        ensures
            n == self.layout().len,
            n == self@.len(),
            n <= self.layout().capacity(),
    {
        proof {
            use_type_invariant(&*self);
        }
        self.size
    }
}

} // verus!
