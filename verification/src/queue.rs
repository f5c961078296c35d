//! A bounded first-in, first-out queue: pushing onto a full queue drops its oldest item.

use std::collections::vec_deque::Iter;
use std::collections::VecDeque;
use vstd::prelude::*;
use vstd::std_specs::iter::IteratorSpec;

verus! {

broadcast use vstd::std_specs::vecdeque::group_vec_dequeue_axioms;

/// A queue that holds at most `size` items (at most one when `size` is zero).
pub struct Queue<T> {
    queue: VecDeque<T>,
    size: usize,
}

impl<T> View for Queue<T> {
    type V = Seq<T>;

    closed spec fn view(&self) -> Seq<T> {
        self.queue@
    }
}

/// The queue and the dropped item after pushing `e` onto `q`, which holds at most `size`.
pub open spec fn push_spec<T>(q: Seq<T>, size: nat, e: T) -> (Seq<T>, Option<T>) {
    if q.len() > 0 && q.len() >= size {
        (q.drop_first().push(e), Some(q[0]))
    } else {
        (q.push(e), None)
    }
}

/// The most items a queue of size `size` holds.
pub open spec fn bound(size: nat) -> nat {
    if size == 0 {
        1
    } else {
        size
    }
}

impl<T> Queue<T> {
    /// The number of items the queue keeps.
    pub closed spec fn size(&self) -> nat {
        self.size as nat
    }

    /// An empty queue that keeps at most `size` items.
    pub fn new(size: usize) -> (r: Self)
        ensures
            r@ == Seq::<T>::empty(),
            r.size() == size,
    {
        Queue { queue: VecDeque::with_capacity(size), size }
    }

    /// Adds `element` at the back; when the queue is full, its oldest item is dropped and
    /// returned.
    pub fn push(&mut self, element: T) -> (r: Option<T>)
        ensures
            (final(self)@, r) == push_spec(old(self)@, old(self).size(), element),
            final(self).size() == old(self).size(),
    {
        let out = if self.queue.len() > 0 && self.queue.len() >= self.size {
            self.queue.pop_front()
        } else {
            None
        };
        self.queue.push_back(element);
        out
    }

    /// Removes and returns the oldest item.
    pub fn pop(&mut self) -> (r: Option<T>)
        ensures
            match r {
                Some(x) => old(self)@.len() > 0 && x == old(self)@[0] && final(self)@ == old(
                    self,
                )@.drop_first(),
                None => old(self)@.len() == 0 && final(self)@ == old(self)@,
            },
            final(self).size() == old(self).size(),
    {
        let r = self.queue.pop_front();
        assert(old(self)@.subrange(1, old(self)@.len() as int) =~= old(self)@.drop_first());
        r
    }

    /// Whether the queue holds no item.
    pub fn is_empty(&self) -> (r: bool)
        ensures
            r == (self@.len() == 0),
    {
        self.queue.len() == 0
    }

    /// The items, oldest first.
    pub fn queue(&self) -> (r: &VecDeque<T>)
        ensures
            r@ == self@,
    {
        &self.queue
    }

    /// An iterator over the items, oldest first.
    pub fn iter(&self) -> (r: Iter<'_, T>)
        ensures
            r.remaining() == self@.map_values(|x: T| &x),
    {
        let r = self.queue.iter();
        assert(self.queue@.as_ref() =~= self@.map_values(|x: T| &x));
        r
    }
}

/// Pushing onto a queue that is not full drops nothing, and pushing onto a full one drops
/// its oldest item; either way the pushed item is last and what the queue keeps stays
/// within its bound.
pub proof fn law_push_bounded<T>(q: Seq<T>, size: nat, e: T)
    requires
        q.len() <= bound(size),
    ensures
        push_spec(q, size, e).0.len() <= bound(size),
        push_spec(q, size, e).0.last() == e,
        (q.len() < size) ==> push_spec(q, size, e).1 is None,
        (q.len() > 0 && q.len() >= size) ==> push_spec(q, size, e).1 == Some(q[0]),
{
}

/// Items leave the queue in the order they came: popping a queue that the pushes of `a`
/// then `b` left non-full gives `a` first.
pub proof fn law_fifo<T>(size: nat, a: T, b: T)
    requires
        size >= 2,
    ensures
        ({
            let q1 = push_spec(Seq::<T>::empty(), size, a).0;
            let q2 = push_spec(q1, size, b).0;
            q2[0] == a && q2[1] == b && q2.len() == 2
        }),
{
}

} // verus!
