//! The unbounded FIFO channel between the simulation tick and the bridge.
//!
//! One producer appends at the tail, one consumer takes from the head, and
//! nothing is lost or reordered in between: the view is the exact sequence
//! of commands still in flight, oldest first. Popping from an empty queue is
//! not an error; it only means nothing has arrived.

use vstd::prelude::*;

verus! {

/// An unbounded first-in, first-out queue of commands.
pub struct CommandQueue<T> {
    items: Vec<T>,
}

impl<T> View for CommandQueue<T> {
    type V = Seq<T>;

    closed spec fn view(&self) -> Seq<T> {
        self.items@
    }
}

impl<T> CommandQueue<T> {
    /// An empty queue.
    pub fn new() -> (q: Self)
        ensures
            q@ == Seq::<T>::empty(),
    {
        CommandQueue { items: Vec::new() }
    }

    /// How many commands are waiting.
    pub fn len(&self) -> (n: usize)
        ensures
            n == self@.len(),
    {
        self.items.len()
    }

    /// Whether nothing is waiting.
    pub fn is_empty(&self) -> (b: bool)
        ensures
            b == (self@.len() == 0),
    {
        self.items.len() == 0
    }

    /// Append one command at the tail.
    pub fn push(&mut self, item: T)
        ensures
            final(self)@ == old(self)@.push(item),
    {
        self.items.push(item);
    }

    /// Take the oldest command, if any is waiting; an empty queue stays
    /// empty and yields nothing.
    pub fn pop(&mut self) -> (r: Option<T>)
        ensures
            old(self)@.len() == 0 ==> r is None && final(self)@ == old(self)@,
            old(self)@.len() > 0 ==> r == Some(old(self)@[0]) && final(self)@ == old(
                self,
            )@.drop_first(),
    {
        if self.items.len() == 0 {
            None
        } else {
            let item = self.items.remove(0);
            proof {
                assert(self.items@ =~= old(self)@.drop_first());
            }
            Some(item)
        }
    }

    /// Take up to `count` commands, oldest first. This is the delivery-order
    /// guarantee over any window: however many commands the consumer takes,
    /// it receives exactly the oldest ones, in the order the producer
    /// appended them, and the rest wait unchanged.
    pub fn pop_many(&mut self, count: usize) -> (r: Vec<T>)
        ensures
            ({
                let k = if count <= old(self)@.len() {
                    count as int
                } else {
                    old(self)@.len() as int
                };
                &&& r@ == old(self)@.take(k)
                &&& final(self)@ == old(self)@.skip(k)
            }),
    {
        let mut taken: Vec<T> = Vec::new();
        proof {
            assert(taken@ =~= self@.take(0));
            assert(self@ =~= self@.skip(0));
        }
        let mut i: usize = 0;
        while i < count && self.items.len() > 0
            invariant
                i <= count,
                i <= old(self)@.len(),
                taken@ == old(self)@.take(i as int),
                self@ == old(self)@.skip(i as int),
            decreases count - i,
        {
            let item = self.items.remove(0);
            taken.push(item);
            proof {
                assert(old(self)@.skip(i as int)[0] == old(self)@[i as int]);
                assert(taken@ =~= old(self)@.take(i as int + 1));
                assert(self.items@ =~= old(self)@.skip(i as int + 1));
            }
            i = i + 1;
        }
        proof {
            let k = if count <= old(self)@.len() {
                count as int
            } else {
                old(self)@.len() as int
            };
            assert(i == k);
        }
        taken
    }

    /// Take everything at once, oldest first: the consumer sees the
    /// commands exactly in the order the producer appended them.
    pub fn drain(&mut self) -> (r: Vec<T>)
        ensures
            r@ == old(self)@,
            final(self)@ == Seq::<T>::empty(),
    {
        let mut taken: Vec<T> = Vec::new();
        core::mem::swap(&mut taken, &mut self.items);
        proof {
            assert(self.items@ =~= Seq::<T>::empty());
        }
        taken
    }
}

} // verus!
