//! What holds of every ring: the invariant survives each operation, and the
//! cells behave as a first-in, first-out queue wherever the head stands.

use vstd::prelude::*;
use crate::model::{
    lemma_slot_index, lemma_slot_index_injective, pops, pushes, queue_front, queue_run,
    slot_index, Op, Ring,
};

verus! {

/// A ring of empty cells is well formed, holds nothing and has the capacity
/// it was made with.
pub proof fn lemma_empty_ring<T>(capacity: nat)
    ensures
        Ring::<T>::empty(capacity).wf(),
        Ring::<T>::empty(capacity).capacity() == capacity,
        Ring::<T>::empty(capacity).contents() == Seq::<T>::empty(),
        Ring::<T>::empty(capacity).is_empty(),
{
    let r = Ring::<T>::empty(capacity);
    assert(r.contents() =~= Seq::<T>::empty());
}

/// Appending keeps a ring well formed and its capacity fixed. A full ring
/// (one without cells included) is left exactly as it was; any other ring
/// gains the value behind its newest element, whether or not the cell used
/// lies past the end of storage.
pub proof fn lemma_push<T>(r: Ring<T>, value: T)
    requires
        r.wf(),
    ensures
        r.push(value).wf(),
        r.push(value).capacity() == r.capacity(),
        r.is_full() ==> r.push(value) == r,
        !r.is_full() ==> r.push(value).contents() == r.contents().push(value),
{
    if !r.is_full() {
        let cap = r.capacity();
        let next = r.push(value);
        let tail = r.slot(r.len);
        lemma_slot_index(r.head, r.len, cap);
        assert(next.capacity() == cap);
        assert forall|j: int| 0 <= j < cap implies ((#[trigger] next.slots[j]) is Some
            <==> next.occupied(j)) by {
            if j == tail {
                assert(slot_index(next.head, r.len, cap) == j);
            } else {
                assert(next.slots[j] == r.slots[j]);
                if r.occupied(j) {
                    let i = choose|i: nat| i < r.len && #[trigger] slot_index(r.head, i, cap) == j;
                    assert(slot_index(next.head, i, cap) == j);
                }
                if next.occupied(j) {
                    let i = choose|i: nat|
                        i < next.len && #[trigger] slot_index(next.head, i, cap) == j;
                    assert(i != r.len);
                    assert(slot_index(r.head, i, cap) == j);
                }
            }
        }
        assert forall|i: int| 0 <= i < r.len implies next.contents()[i] == r.contents()[i] by {
            if r.slot(i as nat) == tail {
                lemma_slot_index_injective(r.head, i as nat, r.len, cap);
            }
        }
        assert(next.contents() =~= r.contents().push(value));
    }
}

/// Removing keeps a ring well formed and its capacity fixed. An empty ring
/// hands out nothing and is left exactly as it was; any other ring hands out
/// its oldest element and keeps the rest in order, whether or not the head
/// steps past the end of storage.
pub proof fn lemma_pop<T>(r: Ring<T>)
    requires
        r.wf(),
    ensures
        r.pop().wf(),
        r.pop().capacity() == r.capacity(),
        r.is_empty() ==> r.front() is None && r.pop() == r,
        !r.is_empty() ==> r.front() == Some(r.contents()[0]),
        !r.is_empty() ==> r.pop().contents() == r.contents().skip(1),
{
    if !r.is_empty() {
        let cap = r.capacity();
        let next = r.pop();
        assert(next.capacity() == cap);
        lemma_slot_index(r.head, 0, cap);
        lemma_slot_index(r.head, 1, cap);
        assert(r.slots[r.slot(0)] is Some) by {
            assert(slot_index(r.head, 0, cap) == r.head);
            assert(r.occupied(r.head as int));
        }
        assert forall|i: nat| i < cap implies #[trigger] slot_index(next.head, i, cap)
            == slot_index(r.head, i + 1, cap) by {
            lemma_slot_index(next.head, i, cap);
            lemma_slot_index(r.head, i + 1, cap);
        }
        assert forall|j: int| 0 <= j < cap implies ((#[trigger] next.slots[j]) is Some
            <==> next.occupied(j)) by {
            if j == r.head {
                if next.occupied(j) {
                    let i = choose|i: nat|
                        i < next.len && #[trigger] slot_index(next.head, i, cap) == j;
                    assert(slot_index(r.head, i + 1, cap) == slot_index(r.head, 0, cap));
                    lemma_slot_index_injective(r.head, i + 1, 0, cap);
                }
            } else {
                assert(next.slots[j] == r.slots[j]);
                if r.occupied(j) {
                    let i = choose|i: nat| i < r.len && #[trigger] slot_index(r.head, i, cap) == j;
                    assert(i != 0);
                    assert(slot_index(next.head, (i - 1) as nat, cap) == j);
                }
                if next.occupied(j) {
                    let i = choose|i: nat|
                        i < next.len && #[trigger] slot_index(next.head, i, cap) == j;
                    assert(slot_index(r.head, i + 1, cap) == j);
                }
            }
        }
        assert forall|i: int| 0 <= i < next.len implies next.contents()[i] == r.contents()[i
            + 1] by {
            assert(slot_index(next.head, i as nat, cap) == slot_index(r.head, (i + 1) as nat, cap));
            if r.slot((i + 1) as nat) == r.head {
                lemma_slot_index_injective(r.head, (i + 1) as nat, 0, cap);
            }
        }
        assert(next.contents() =~= r.contents().skip(1));
    }
}

/// Capacity bound. Whatever calls are made on a well-formed ring, in whatever
/// order, the ring stays well formed; so its count never exceeds its
/// capacity.
pub proof fn lemma_run_wf<T>(r: Ring<T>, ops: Seq<Op<T>>)
    requires
        r.wf(),
    ensures
        r.run(ops).wf(),
        r.run(ops).contents().len() <= r.run(ops).capacity(),
    decreases ops.len(),
{
    if ops.len() > 0 {
        let before = r.run(ops.drop_last());
        lemma_run_wf(r, ops.drop_last());
        match ops.last() {
            Op::WithCapacity(capacity) => lemma_empty_ring::<T>(capacity),
            Op::Push(value) => lemma_push(before, value),
            Op::Pop => lemma_pop(before),
        }
    }
}

/// If no offer among `ops` meets a full ring, none among the first `n` of
/// them does.
pub proof fn lemma_never_overflows_prefix<T>(r: Ring<T>, ops: Seq<Op<T>>, n: int)
    requires
        r.never_overflows(ops),
        0 <= n <= ops.len(),
    ensures
        r.never_overflows(ops.take(n)),
{
    let prefix = ops.take(n);
    assert forall|k: int| 0 <= k < prefix.len() && (#[trigger] prefix[k]) is Push implies !r.run(
        prefix.take(k),
    ).is_full() by {
        assert(prefix[k] == ops[k]);
        assert(prefix.take(k) =~= ops.take(k));
    }
}

/// First in, first out. As long as no offer meets a full ring, a ring holds
/// after any interleaving of calls exactly what an unbounded queue holds
/// after the same calls, and hands out next what that queue hands out next.
/// This holds from every well-formed start, so also where the elements wrap
/// round the end of storage.
pub proof fn lemma_run_fifo<T>(r: Ring<T>, ops: Seq<Op<T>>)
    requires
        r.wf(),
        r.never_overflows(ops),
    ensures
        r.run(ops).contents() == queue_run(r.contents(), ops),
        r.run(ops).front() == queue_front(queue_run(r.contents(), ops)),
    decreases ops.len(),
{
    if ops.len() > 0 {
        let earlier = ops.drop_last();
        let before = r.run(earlier);
        assert(earlier =~= ops.take(ops.len() - 1));
        lemma_never_overflows_prefix(r, ops, ops.len() - 1);
        lemma_run_fifo(r, earlier);
        lemma_run_wf(r, earlier);
        match ops.last() {
            Op::WithCapacity(capacity) => lemma_empty_ring::<T>(capacity),
            Op::Push(value) => {
                assert(ops[ops.len() - 1] is Push);
                lemma_push(before, value);
            },
            Op::Pop => lemma_pop(before),
        }
    }
    lemma_run_wf(r, ops);
    lemma_pop(r.run(ops));
}

/// The same at every point on the way: after each number of calls the ring
/// and the unbounded queue hold the same elements, so each removal among the
/// calls hands out what the queue hands out.
pub proof fn lemma_run_fifo_throughout<T>(r: Ring<T>, ops: Seq<Op<T>>)
    requires
        r.wf(),
        r.never_overflows(ops),
    ensures
        forall|n: int|
            0 <= n <= ops.len() ==> (#[trigger] r.run(ops.take(n))).contents() == queue_run(
                r.contents(),
                ops.take(n),
            ),
        forall|n: int|
            0 <= n <= ops.len() ==> (#[trigger] r.run(ops.take(n))).front() == queue_front(
                queue_run(r.contents(), ops.take(n)),
            ),
{
    assert forall|n: int| 0 <= n <= ops.len() implies {
        &&& (#[trigger] r.run(ops.take(n))).contents() == queue_run(r.contents(), ops.take(n))
        &&& r.run(ops.take(n)).front() == queue_front(queue_run(r.contents(), ops.take(n)))
    } by {
        lemma_never_overflows_prefix(r, ops, n);
        lemma_run_fifo(r, ops.take(n));
    }
}

/// Values offered to an empty ring that has a cell for each of them are all
/// taken, and come out again, pop by pop, in the order in which they went
/// in; after the last of them the ring hands out nothing.
pub proof fn lemma_push_then_pop<T>(capacity: nat, values: Seq<T>, k: nat)
    requires
        values.len() <= capacity,
        k <= values.len(),
    ensures
        Ring::<T>::empty(capacity).run(pushes(values)).contents() == values,
        Ring::<T>::empty(capacity).run(pushes(values)).run(pops(k)).front() == if k
            < values.len() {
            Some(values[k as int])
        } else {
            None
        },
{
    let start = Ring::<T>::empty(capacity);
    lemma_empty_ring::<T>(capacity);
    lemma_pushes_fit(start, values);
    lemma_run_fifo(start, pushes(values));
    lemma_queue_pushes(start.contents(), values);
    assert(start.contents() + values =~= values);
    let filled = start.run(pushes(values));
    lemma_run_wf(start, pushes(values));
    assert(filled.never_overflows(pops::<T>(k)));
    lemma_run_fifo(filled, pops(k));
    lemma_queue_pops(values, k);
}

/// Offers that a ring has room for never meet a full ring.
proof fn lemma_pushes_fit<T>(r: Ring<T>, values: Seq<T>)
    requires
        r.wf(),
        r.len + values.len() <= r.capacity(),
    ensures
        r.never_overflows(pushes(values)),
        r.run(pushes(values)).len == r.len + values.len(),
        r.run(pushes(values)).capacity() == r.capacity(),
    decreases values.len(),
{
    let ops = pushes(values);
    if values.len() > 0 {
        let earlier = values.drop_last();
        assert(ops.drop_last() =~= pushes(earlier));
        lemma_pushes_fit(r, earlier);
        lemma_run_wf(r, pushes(earlier));
        lemma_push(r.run(pushes(earlier)), values.last());
        assert forall|k: int| 0 <= k < ops.len() && (#[trigger] ops[k]) is Push implies !r.run(
            ops.take(k),
        ).is_full() by {
            assert(ops.take(k) =~= pushes(values.take(k)));
            lemma_pushes_fit(r, values.take(k));
        }
    }
}

/// Pushing onto the unbounded queue appends.
proof fn lemma_queue_pushes<T>(queue: Seq<T>, values: Seq<T>)
    ensures
        queue_run(queue, pushes(values)) == queue + values,
    decreases values.len(),
{
    if values.len() > 0 {
        assert(pushes(values).drop_last() =~= pushes(values.drop_last()));
        lemma_queue_pushes(queue, values.drop_last());
        assert(queue + values =~= (queue + values.drop_last()).push(values.last()));
    } else {
        assert(queue + values =~= queue);
    }
}

/// Popping the unbounded queue `n` times removes its first `n` elements.
proof fn lemma_queue_pops<T>(queue: Seq<T>, n: nat)
    requires
        n <= queue.len(),
    ensures
        queue_run(queue, pops(n)) == queue.skip(n as int),
    decreases n,
{
    if n > 0 {
        assert(pops::<T>(n).drop_last() =~= pops::<T>((n - 1) as nat));
        lemma_queue_pops(queue, (n - 1) as nat);
        assert(queue.skip(n as int) =~= queue.skip(n - 1).skip(1));
    } else {
        assert(queue.skip(0) =~= queue);
    }
}

} // verus!
