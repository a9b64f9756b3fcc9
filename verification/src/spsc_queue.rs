//! A bounded single-producer, single-consumer queue.
//!
//! `SpscQueue<T, N>` is the same bounded FIFO as [`crate::queue::Queue`],
//! specified sequentially: `push` and `pop` take the queue exclusively,
//! so a producer and a consumer on different threads share it through a
//! mutual-exclusion primitive of the caller's choosing. Its mathematical
//! value is the sequence of queued items, oldest first.

use vstd::prelude::*;

verus! {

/// A bounded queue of capacity `N`, oldest item first.
pub struct SpscQueue<T: Default + Copy, const N: usize> {
    data: Vec<T>,
}

impl<T: Default + Copy, const N: usize> View for SpscQueue<T, N> {
    type V = Seq<T>;

    closed spec fn view(&self) -> Seq<T> {
        self.data@
    }
}

impl<T: Default + Copy, const N: usize> SpscQueue<T, N> {
    /// Never more than `N` items.
    pub open spec fn wf(self) -> bool {
        self@.len() <= N
    }

    /// Create an empty queue.
    pub fn new() -> (r: Self)
        ensures
            r.wf(),
            r@ == Seq::<T>::empty(),
    {
        let r = SpscQueue { data: Vec::new() };
        proof {
            assert(r@ =~= Seq::<T>::empty());
        }
        r
    }

    /// Append an item at the back. A full queue refuses and returns the
    /// item to the caller.
    pub fn push(&mut self, value: T) -> (r: Result<(), T>)
        requires
            old(self).wf(),
        ensures
            final(self).wf(),
            (if old(self)@.len() < N {
                r == Ok::<(), T>(()) && final(self)@ == old(self)@.push(value)
            } else {
                r == Err::<(), T>(value) && final(self)@ == old(self)@
            }),
    {
        if self.data.len() < N {
            self.data.push(value);
            Ok(())
        } else {
            Err(value)
        }
    }

    /// Remove and return the oldest item; nothing when empty.
    pub fn pop(&mut self) -> (r: Option<T>)
        requires
            old(self).wf(),
        ensures
            final(self).wf(),
            (if old(self)@.len() > 0 {
                r == Some(old(self)@[0]) && final(self)@ == old(self)@.drop_first()
            } else {
                r == None::<T> && final(self)@ == old(self)@
            }),
    {
        if self.data.len() > 0 {
            let v = self.data.remove(0);
            proof {
                assert(self@ =~= old(self)@.drop_first());
            }
            Some(v)
        } else {
            None
        }
    }
}

} // verus!
