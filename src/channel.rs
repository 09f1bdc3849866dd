//! The result channel: many senders, one receiver, closed once every send
//! endpoint has been released.
use vstd::prelude::*;

verus! {

/// What one receive attempt observes.
#[derive(Clone, Copy, Debug, PartialEq, Eq, Structural)]
pub enum Poll {
    /// The oldest port that was sent and not yet received.
    Value(u16),
    /// Nothing queued, but a send endpoint is still held.
    Pending,
    /// Nothing queued and no send endpoint left: no value can ever come.
    Closed,
}

/// The state of a result channel: the ports sent and not yet received, in
/// the order they were sent, and the number of live send endpoints.
pub struct ResultChannel {
    queue: Vec<u16>,
    senders: u64,
}

impl ResultChannel {
    /// Ports sent and not yet received, oldest first.
    pub closed spec fn queued(&self) -> Seq<u16> {
        self.queue@
    }

    /// Number of send endpoints still held.
    pub closed spec fn live(&self) -> nat {
        self.senders as nat
    }

    /// Closed: nothing queued and no endpoint left to send more.
    pub open spec fn closed(&self) -> bool {
        self.queued().len() == 0 && self.live() == 0
    }

    /// A new channel; its creator holds the one send endpoint.
    pub fn new() -> (r: ResultChannel)
        ensures
            r.queued() == Seq::<u16>::empty(),
            r.live() == 1,
    {
        ResultChannel { queue: Vec::new(), senders: 1 }
    }

    /// Number of send endpoints still held.
    pub fn live_senders(&self) -> (r: u64)
        ensures
            r == self.live(),
    {
        self.senders
    }

    /// Whether the channel is closed.
    pub fn is_closed(&self) -> (r: bool)
        ensures
            r == self.closed(),
    {
        self.queue.len() == 0 && self.senders == 0
    }

    /// A holder of a live endpoint hands out one more.
    pub fn clone_sender(&mut self)
        requires
            old(self).live() >= 1,
            old(self).live() < u64::MAX,
        ensures
            final(self).live() == old(self).live() + 1,
            final(self).queued() == old(self).queued(),
    {
        self.senders = self.senders + 1;
    }

    /// A holder of a live endpoint sends `port`.
    pub fn send(&mut self, port: u16)
        requires
            old(self).live() >= 1,
        ensures
            final(self).live() == old(self).live(),
            final(self).queued() == old(self).queued().push(port),
    {
        self.queue.push(port);
    }

    /// A holder releases its endpoint; releasing the last one closes the
    /// channel as soon as the queue is drained.
    pub fn release(&mut self)
        requires
            old(self).live() >= 1,
        ensures
            final(self).live() == old(self).live() - 1,
            final(self).queued() == old(self).queued(),
    {
        self.senders = self.senders - 1;
    }

    /// One receive attempt: the oldest queued port if there is one; else
    /// `Pending` while an endpoint is held, `Closed` once none is.
    pub fn poll(&mut self) -> (r: Poll)
        ensures
            final(self).live() == old(self).live(),
            old(self).queued().len() > 0 ==> r == Poll::Value(old(self).queued()[0])
                && final(self).queued() == old(self).queued().drop_first(),
            old(self).queued().len() == 0 && old(self).live() > 0 ==> r == Poll::Pending
                && final(self).queued() == old(self).queued(),
            old(self).queued().len() == 0 && old(self).live() == 0 ==> r == Poll::Closed
                && final(self).queued() == old(self).queued(),
    {
        if self.queue.len() > 0 {
            let p = self.queue.remove(0);
            proof {
                assert(self.queue@ =~= old(self).queue@.drop_first());
            }
            Poll::Value(p)
        } else if self.senders > 0 {
            Poll::Pending
        } else {
            Poll::Closed
        }
    }

    /// Once every endpoint has been released, receives until the channel
    /// reports `Closed`; this always ends, and yields every queued port in
    /// the order it was sent.
    pub fn drain(&mut self) -> (r: Vec<u16>)
        requires
            old(self).live() == 0,
        ensures
            r@ == old(self).queued(),
            final(self).closed(),
    {
        let mut r: Vec<u16> = Vec::new();
        loop
            invariant
                self.live() == 0,
                r@ + self.queued() == old(self).queued(),
            decreases self.queued().len(),
        {
            let ghost before = self.queued();
            match self.poll() {
                Poll::Value(p) => {
                    r.push(p);
                    proof {
                        assert(r@ + self.queued() =~= old(self).queued()) by {
                            assert(before =~= seq![p] + before.drop_first());
                        }
                    }
                },
                _ => {
                    proof {
                        assert(r@ + self.queued() =~= r@);
                    }
                    return r;
                },
            }
        }
    }
}

} // verus!
