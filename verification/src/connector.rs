//! Connectors: bounded queues between the two sides of a flow, and the
//! handle by which a flow is cancelled.

use vstd::prelude::*;

verus! {

/// Where the cancelling of a flow stands. A state is only ever followed by
/// itself or by a later one.
#[derive(Clone, Copy, Debug, PartialEq, Eq, Structural)]
pub enum AbortState {
    Ready,
    Running,
    Cancelled,
}

/// The handle by which a flow is cancelled.
#[derive(Debug)]
pub struct AbortHandle {
    pub state: AbortState,
}

/// Why a connector did not take or give an item.
#[derive(Clone, Copy, Debug, PartialEq, Eq, Structural)]
pub enum ConnectorError {
    /// The flow was cancelled.
    Cancelled,
    /// The connector holds as many items as it can.
    Full,
}

/// The place of a state in the order of the states.
pub open spec fn rank(s: AbortState) -> int {
    match s {
        AbortState::Ready => 0,
        AbortState::Running => 1,
        AbortState::Cancelled => 2,
    }
}

impl AbortHandle {
    /// The handle of a flow whose tasks do not run yet.
    pub fn new() -> (h: AbortHandle)
        ensures
            h.state == AbortState::Ready,
    {
        AbortHandle { state: AbortState::Ready }
    }

    /// Notes that the tasks of the flow run. A cancelled flow stays
    /// cancelled.
    pub fn start(&mut self)
        ensures
            final(self).state == if old(self).state == AbortState::Cancelled {
                AbortState::Cancelled
            } else {
                AbortState::Running
            },
            rank(old(self).state) <= rank(final(self).state),
    {
        if self.state != AbortState::Cancelled {
            self.state = AbortState::Running;
        }
    }

    /// Cancels the flow. Cancelling again changes nothing.
    pub fn cancel(&mut self)
        ensures
            final(self).state == AbortState::Cancelled,
            rank(old(self).state) <= rank(final(self).state),
    {
        self.state = AbortState::Cancelled;
    }

    /// Whether the flow was cancelled.
    pub fn is_cancelled(&self) -> (b: bool)
        ensures
            b == (self.state == AbortState::Cancelled),
    {
        self.state == AbortState::Cancelled
    }
}

/// One direction of a connector: a queue of at most `capacity` items, which
/// gives them out in the order in which it took them.
#[derive(Debug)]
pub struct Connector<T> {
    pub queue: Vec<T>,
    pub capacity: usize,
}

impl<T> Connector<T> {
    /// Whether the queue holds no more than it can.
    pub open spec fn wf(&self) -> bool {
        self.queue@.len() <= self.capacity
    }

    /// A connector that holds nothing.
    pub fn new(capacity: usize) -> (c: Connector<T>)
        ensures
            c.wf(),
            c.queue@.len() == 0,
            c.capacity == capacity,
    {
        Connector { queue: Vec::new(), capacity }
    }

    /// A pair of connectors, one for each direction.
    pub fn new_pair(capacity: usize) -> (pair: (Connector<T>, Connector<T>))
        ensures
            pair.0.wf() && pair.0.queue@.len() == 0 && pair.0.capacity == capacity,
            pair.1.wf() && pair.1.queue@.len() == 0 && pair.1.capacity == capacity,
    {
        (Connector::new(capacity), Connector::new(capacity))
    }

    /// The number of items that the connector can still take.
    pub fn capacity(&self) -> (n: usize)
        requires
            self.wf(),
        ensures
            n == self.capacity - self.queue@.len(),
    {
        self.capacity - self.queue.len()
    }

    /// Puts an item at the end of the queue, unless the flow is cancelled
    /// or the queue is full; the item is then handed back.
    pub fn send(&mut self, item: T, abort: &AbortHandle) -> (r: Result<(), (T, ConnectorError)>)
        requires
            old(self).wf(),
        ensures
            final(self).wf(),
            final(self).capacity == old(self).capacity,
            if abort.state == AbortState::Cancelled {
                r == Err::<(), (T, ConnectorError)>((item, ConnectorError::Cancelled)) && final(self).queue@
                    == old(self).queue@
            } else if old(self).queue@.len() >= old(self).capacity {
                r == Err::<(), (T, ConnectorError)>((item, ConnectorError::Full)) && final(self).queue@
                    == old(self).queue@
            } else {
                r is Ok && final(self).queue@ == old(self).queue@.push(item)
            },
    {
        if abort.is_cancelled() {
            Err((item, ConnectorError::Cancelled))
        } else if self.queue.len() >= self.capacity {
            Err((item, ConnectorError::Full))
        } else {
            self.queue.push(item);
            Ok(())
        }
    }

    /// Takes the item at the front of the queue, if there is one and the
    /// flow is not cancelled.
    pub fn recv(&mut self, abort: &AbortHandle) -> (r: Result<Option<T>, ConnectorError>)
        requires
            old(self).wf(),
        ensures
            final(self).wf(),
            final(self).capacity == old(self).capacity,
            if abort.state == AbortState::Cancelled {
                r == Err::<Option<T>, ConnectorError>(ConnectorError::Cancelled) && final(self).queue@
                    == old(self).queue@
            } else if old(self).queue@.len() == 0 {
                r == Ok::<Option<T>, ConnectorError>(None) && final(self).queue@ == old(self).queue@
            } else {
                r == Ok::<Option<T>, ConnectorError>(Some(old(self).queue@[0])) && final(self).queue@
                    == old(self).queue@.skip(1)
            },
    {
        if abort.is_cancelled() {
            Err(ConnectorError::Cancelled)
        } else if self.queue.len() == 0 {
            Ok(None)
        } else {
            let item = self.queue.remove(0);
            assert(self.queue@ =~= old(self).queue@.skip(1));
            Ok(Some(item))
        }
    }

    /// Moves the item at the front of this connector to the end of `next`,
    /// where there is one and `next` has room. Returns whether one was
    /// moved. What the two hold together, in order, stays the same.
    pub fn relay(&mut self, next: &mut Connector<T>, abort: &AbortHandle) -> (moved: bool)
        requires
            old(self).wf(),
            old(next).wf(),
        ensures
            final(self).wf(),
            final(next).wf(),
            final(self).capacity == old(self).capacity,
            final(next).capacity == old(next).capacity,
            final(next).queue@ + final(self).queue@ == old(next).queue@ + old(self).queue@,
            moved == (abort.state != AbortState::Cancelled && old(self).queue@.len() > 0 && old(
                next,
            ).queue@.len() < old(next).capacity),
            moved ==> final(self).queue@ == old(self).queue@.skip(1) && final(next).queue@ == old(
                next,
            ).queue@.push(old(self).queue@[0]),
            !moved ==> final(self).queue@ == old(self).queue@ && final(next).queue@ == old(next).queue@,
    {
        if abort.is_cancelled() || self.queue.len() == 0 || next.queue.len() >= next.capacity {
            return false;
        }
        let item = self.queue.remove(0);
        next.queue.push(item);
        assert(self.queue@ =~= old(self).queue@.skip(1));
        assert(next.queue@ + self.queue@ =~= old(next).queue@ + old(self).queue@);
        true
    }
}

/// What is sent into a connector comes out in the order in which it went
/// in: what was received, followed by what the connector still holds, is
/// what was sent. The law holds of a step of sending, of receiving, and of
/// relaying from one connector to the next, so it holds of every chain of
/// connectors.
pub proof fn order_kept<T>(sent: Seq<T>, received: Seq<T>, held: Seq<T>, item: T)
    requires
        received + held == sent,
    ensures
        received + held.push(item) == sent.push(item),
        held.len() > 0 ==> received.push(held[0]) + held.skip(1) == sent,
{
    assert(received + held.push(item) =~= (received + held).push(item));
    if held.len() > 0 {
        assert(received.push(held[0]) + held.skip(1) =~= received + held);
    }
}

} // verus!
