//! Draining a buffer: the buffer is given up for a handle that hands its
//! elements out one by one, oldest first.

use vstd::prelude::*;
use crate::buffer::RingBuffer;

verus! {

/// A buffer that is being drained. It owns the buffer it was made from, so
/// whatever has not been handed out when it is dropped goes with it.
pub struct IntoIter<T> {
    rb: RingBuffer<T>,
}

impl<T> View for IntoIter<T> {
    type V = Seq<T>;

    /// The elements still to come, in the order in which they will come.
    open spec fn view(&self) -> Seq<T> {
        self.buffer()@
    }
}

impl<T> IntoIter<T> {
    /// The buffer being drained.
    pub closed spec fn buffer(&self) -> RingBuffer<T> {
        self.rb
    }

    /// Hands out the next element: one `pop` on the buffer being drained.
    /// Once the buffer is empty every call answers `None`.
    pub fn next(&mut self) -> (item: Option<T>)
        ensures
            item == old(self).buffer().layout().front(),
            final(self).buffer().layout() == old(self).buffer().layout().pop(),
            final(self).buffer().wf(),
            item == if old(self)@.len() == 0 {
                None
            } else {
                Some(old(self)@[0])
            },
            final(self)@ == if old(self)@.len() == 0 {
                old(self)@
            } else {
                old(self)@.skip(1)
            },
            old(self)@.len() == 0 ==> *final(self) == *old(self),
    {
        self.rb.pop()
    }

    /// The number of elements still to come, as both the lower and the upper
    /// bound: the count is exact.
    pub fn size_hint(&self) -> (hint: (usize, Option<usize>))
        ensures
            hint.0 == self@.len(),
            hint.1 == Some(hint.0),
    {
        (self.rb.len(), Some(self.rb.len()))
    }
}

impl<T> RingBuffer<T> {
    /// Gives the buffer up for a handle that drains it. Nothing is moved or
    /// dropped: the handle holds the buffer as it is.
    pub fn into_iter(self) -> (iter: IntoIter<T>)
        ensures
            iter.buffer() == self,
            iter.buffer().wf(),
            iter@ == self@,
    {
        proof {
            use_type_invariant(&self);
        }
        IntoIter { rb: self }
    }
}

} // verus!
