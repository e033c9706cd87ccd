//! In-order release of out-of-order completions. Each read request gets a
//! slot when it is issued; workers fill slots as they finish, in any order;
//! the consumer takes batches strictly in issue order, from the head.

use vstd::prelude::*;
use crate::ClientState;
use crate::entry::{ReadDirBatch, ReadDirSpec};

verus! {

/// One slot of the bus, keyed by its issue index.
pub enum BusSlot<C: ClientState> {
    /// Issued, not yet handed to a worker.
    Pending(ReadDirSpec<C>),
    /// Handed to a worker, not yet completed.
    InFlight,
    /// Completed; the batch waits for the consumer.
    Ready(ReadDirBatch<C>),
    /// Taken by the consumer.
    Consumed,
}

/// The coordinator: a queue of slots and the index of the next slot the
/// consumer will take. Whatever order completions arrive in, batches leave
/// in the order their requests were issued.
pub struct OrderedResultBus<C: ClientState> {
    pub slots: Vec<BusSlot<C>>,
    pub head: usize,
}

impl<C: ClientState> OrderedResultBus<C> {
    /// Slots already released lie strictly before the head, and nothing
    /// else does.
    pub open spec fn wf(&self) -> bool {
        &&& self.head <= self.slots@.len()
        &&& forall|i: int| 0 <= i < self.head ==> self.slots@[i] is Consumed
    }

    pub open spec fn slots_view(&self) -> Seq<BusSlot<C>> {
        self.slots@
    }

    pub open spec fn head_index(&self) -> usize {
        self.head
    }

    pub fn new() -> (r: OrderedResultBus<C>)
        ensures
            r.wf(),
            r.slots_view() == Seq::<BusSlot<C>>::empty(),
            r.head_index() == 0,
    {
        OrderedResultBus { slots: Vec::new(), head: 0 }
    }

    /// Issues a request: it takes the next slot and its issue index is
    /// returned.
    pub fn push_spec(&mut self, request: ReadDirSpec<C>) -> (token: usize)
        requires
            old(self).wf(),
        ensures
            final (self).wf(),
            token == old(self).slots_view().len(),
            final (self).slots_view() == old(self).slots_view().push(BusSlot::Pending(request)),
            final (self).head_index() == old(self).head_index(),
    {
        let token = self.slots.len();
        self.slots.push(BusSlot::Pending(request));
        token
    }

    /// Hands the request in slot `token` out for execution.
    pub fn take_spec(&mut self, token: usize) -> (request: ReadDirSpec<C>)
        requires
            old(self).wf(),
            token < old(self).slots_view().len(),
            old(self).slots_view()[token as int] is Pending,
        ensures
            final (self).wf(),
            old(self).slots_view()[token as int] == BusSlot::Pending(request),
            final (self).slots_view() == old(self).slots_view().update(
                token as int,
                BusSlot::InFlight,
            ),
            final (self).head_index() == old(self).head_index(),
    {
        let mut taken: BusSlot<C> = BusSlot::InFlight;
        core::mem::swap(&mut taken, &mut self.slots[token]);
        match taken {
            BusSlot::Pending(request) => request,
            _ => {
                proof {
                    assert(false);
                }
                vstd::pervasive::unreached()
            },
        }
    }

    /// Stores a finished batch in its slot. Completions may arrive in any
    /// order; storing touches nothing but the one slot, so two completions
    /// commute.
    pub fn complete(&mut self, token: usize, batch: ReadDirBatch<C>)
        requires
            old(self).wf(),
            token < old(self).slots_view().len(),
            old(self).slots_view()[token as int] is InFlight,
        ensures
            final (self).wf(),
            final (self).slots_view() == old(self).slots_view().update(
                token as int,
                BusSlot::Ready(batch),
            ),
            final (self).head_index() == old(self).head_index(),
    {
        self.slots[token] = BusSlot::Ready(batch);
    }

    /// Takes the head batch when it is ready. The result is pinned by the
    /// bus state alone: whichever order workers finished in, the consumer
    /// sees the batch of the oldest unreleased request, or waits.
    pub fn pop(&mut self) -> (r: Option<ReadDirBatch<C>>)
        requires
            old(self).wf(),
        ensures
            final (self).wf(),
            if old(self).head_index() < old(self).slots_view().len() && old(self).slots_view()[old(
                self,
            ).head_index() as int] is Ready {
                &&& r == Some(old(self).slots_view()[old(self).head_index() as int]->Ready_0)
                &&& final (self).slots_view() == old(self).slots_view().update(
                    old(self).head_index() as int,
                    BusSlot::Consumed::<C>,
                )
                &&& final (self).head_index() == old(self).head_index() + 1
            } else {
                &&& r is None
                &&& final (self).slots_view() == old(self).slots_view()
                &&& final (self).head_index() == old(self).head_index()
            },
    {
        if self.head < self.slots.len() {
            let ready = matches!(&self.slots[self.head], BusSlot::Ready(_));
            if ready {
                let mut taken: BusSlot<C> = BusSlot::Consumed;
                core::mem::swap(&mut taken, &mut self.slots[self.head]);
                self.head = self.head + 1;
                match taken {
                    BusSlot::Ready(batch) => Some(batch),
                    _ => {
                        proof {
                            assert(false);
                        }
                        None
                    },
                }
            } else {
                None
            }
        } else {
            None
        }
    }
}

} // verus!
