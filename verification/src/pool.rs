//! The execution pool: a bounded count of concurrent execution slots plus a
//! bounded FIFO overflow queue. The pool tracks capacity only; which job a
//! slot runs is the dispatcher's business, and the queue holds the waiting
//! jobs' identities in admission order.

use vstd::prelude::*;

verus! {

/// Mathematical image of a `Pool`.
#[verifier::ext_equal]
pub ghost struct PoolView {
    /// Number of concurrent execution slots.
    pub capacity: int,
    /// Bound on the overflow queue's depth.
    pub queue_bound: int,
    /// Slots currently occupied.
    pub in_flight: int,
    /// Identities waiting for a slot, first in first out.
    pub queue: Seq<Seq<char>>,
}

impl PoolView {
    /// Slots and queue entries together: the pool's total load. Admission
    /// is possible exactly while this is below `capacity + queue_bound`.
    pub open spec fn load(self) -> int {
        self.in_flight + self.queue.len()
    }

    /// The pool's own coherence: counters within bounds, and the queue only
    /// ever holds entries while every slot is occupied.
    pub open spec fn wf(self) -> bool {
        &&& self.capacity >= 1
        &&& 0 <= self.in_flight <= self.capacity
        &&& self.queue.len() <= self.queue_bound
        &&& (self.queue.len() > 0 ==> self.in_flight == self.capacity)
    }
}

/// Bounded set of execution slots with a bounded FIFO overflow queue.
pub struct Pool {
    capacity: usize,
    queue_bound: usize,
    in_flight: usize,
    queue: Vec<String>,
}

impl View for Pool {
    type V = PoolView;

    closed spec fn view(&self) -> PoolView {
        PoolView {
            capacity: self.capacity as int,
            queue_bound: self.queue_bound as int,
            in_flight: self.in_flight as int,
            queue: self.queue@.map_values(|s: String| s@),
        }
    }
}

impl Pool {
    /// An idle pool with `capacity` slots and room for `queue_bound` waiting
    /// jobs.
    pub fn new(capacity: usize, queue_bound: usize) -> (r: Pool)
        requires
            capacity >= 1,
        ensures
            r@.wf(),
            r@.capacity == capacity,
            r@.queue_bound == queue_bound,
            r@.in_flight == 0,
            r@.queue == Seq::<Seq<char>>::empty(),
    {
        let r = Pool { capacity, queue_bound, in_flight: 0, queue: Vec::new() };
        proof {
            assert(r@.queue =~= Seq::<Seq<char>>::empty());
        }
        r
    }

    /// Whether a slot is free right now.
    pub fn has_slot(&self) -> (r: bool)
        ensures
            r == (self@.in_flight < self@.capacity),
    {
        self.in_flight < self.capacity
    }

    /// Whether the overflow queue has room for one more identity.
    pub fn can_queue(&self) -> (r: bool)
        ensures
            r == (self@.queue.len() < self@.queue_bound),
    {
        self.queue.len() < self.queue_bound
    }

    /// Occupies one free slot.
    pub fn take_slot(&mut self)
        requires
            old(self)@.wf(),
            old(self)@.in_flight < old(self)@.capacity,
        ensures
            final(self)@.wf(),
            final(self)@ == (PoolView { in_flight: old(self)@.in_flight + 1, ..old(self)@ }),
    {
        self.in_flight = self.in_flight + 1;
    }

    /// Parks one identity in the overflow queue; only sensible, and only
    /// permitted, while every slot is occupied.
    pub fn enqueue(&mut self, id: String)
        requires
            old(self)@.wf(),
            old(self)@.in_flight == old(self)@.capacity,
            old(self)@.queue.len() < old(self)@.queue_bound,
        ensures
            final(self)@.wf(),
            final(self)@ == (PoolView { queue: old(self)@.queue.push(id@), ..old(self)@ }),
    {
        let ghost pre = self@;
        self.queue.push(id);
        proof {
            assert(self@.queue =~= pre.queue.push(self.queue@.last()@));
        }
    }

    /// Frees one occupied slot. When jobs are waiting, the slot is handed
    /// straight to the frontmost one, whose identity is returned; otherwise
    /// the slot simply becomes free.
    pub fn release(&mut self) -> (r: Option<String>)
        requires
            old(self)@.wf(),
            old(self)@.in_flight >= 1,
        ensures
            final(self)@.wf(),
            old(self)@.queue.len() == 0 ==> r is None && final(self)@ == (PoolView {
                in_flight: old(self)@.in_flight - 1,
                ..old(self)@
            }),
            old(self)@.queue.len() > 0 ==> (match r {
                Some(id) => id@ == old(self)@.queue[0] && final(self)@ == (PoolView {
                    queue: old(self)@.queue.drop_first(),
                    ..old(self)@
                }),
                None => false,
            }),
    {
        if self.queue.len() > 0 {
            let ghost pre = self@;
            let id = self.queue.remove(0);
            proof {
                assert(self@.queue =~= pre.queue.drop_first());
            }
            Some(id)
        } else {
            self.in_flight = self.in_flight - 1;
            None
        }
    }

    /// How many slots are occupied.
    pub fn in_flight(&self) -> (r: usize)
        ensures
            r == self@.in_flight,
    {
        self.in_flight
    }

    /// How many identities are waiting in the overflow queue.
    pub fn queued(&self) -> (r: usize)
        ensures
            r == self@.queue.len(),
    {
        self.queue.len()
    }
}

} // verus!
