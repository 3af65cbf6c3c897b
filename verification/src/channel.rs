//! A bounded multi-consumer broadcast primitive. Every receiver holds its own
//! cursor over the stream; a receiver whose buffer is full loses the oldest
//! undelivered message and learns of the loss on its next receive.

use vstd::prelude::*;

verus! {

use vstd::pervasive::VecAdditionalExecFns;
use crate::messages::{InputMessage, InputMessageView};

/// Model of one receiver: its undelivered messages, oldest first, and how
/// many messages it has lost to the bounded buffer since it last received.
#[verifier::ext_equal]
pub ghost struct ReceiverView {
    pub queue: Seq<InputMessageView>,
    pub lagged: nat,
}

struct ReceiverState {
    queue: Vec<InputMessage>,
    lagged: u64,
}

impl View for ReceiverState {
    type V = ReceiverView;

    closed spec fn view(&self) -> ReceiverView {
        ReceiverView {
            queue: Seq::new(self.queue@.len(), |i: int| self.queue@[i]@),
            lagged: self.lagged as nat,
        }
    }
}

/// Model of a whole channel: its capacity and the state of each receiver, in
/// the order the receivers were created.
#[verifier::ext_equal]
pub ghost struct ChannelView {
    pub capacity: nat,
    pub receivers: Seq<ReceiverView>,
}

/// A bounded broadcast channel. Receivers are addressed by the index that
/// [`BroadcastChannel::subscribe`] handed out.
pub struct BroadcastChannel {
    capacity: usize,
    receivers: Vec<ReceiverState>,
}

impl View for BroadcastChannel {
    type V = ChannelView;

    closed spec fn view(&self) -> ChannelView {
        ChannelView {
            capacity: self.capacity as nat,
            receivers: Seq::new(self.receivers@.len(), |i: int| self.receivers@[i]@),
        }
    }
}

/// What `send` does to a single receiver: append the message, and when the
/// buffer is already full, drop the oldest message and count the loss.
pub open spec fn spec_send_one(r: ReceiverView, cap: nat, m: InputMessageView) -> ReceiverView {
    if r.queue.len() >= cap {
        ReceiverView {
            queue: r.queue.drop_first().push(m),
            lagged: if r.lagged < u64::MAX as nat {
                r.lagged + 1
            } else {
                r.lagged
            },
        }
    } else {
        ReceiverView { queue: r.queue.push(m), lagged: r.lagged }
    }
}

/// What `send` does to a whole channel: every receiver sees the message
/// under the slow-consumer policy.
pub open spec fn spec_send(c: ChannelView, m: InputMessageView) -> ChannelView {
    ChannelView {
        capacity: c.capacity,
        receivers: Seq::new(
            c.receivers.len(),
            |i: int| spec_send_one(c.receivers[i], c.capacity, m),
        ),
    }
}

/// Why a receive returned no message: nothing is buffered, or the receiver
/// fell behind and lost the given number of messages.
#[derive(Clone, Copy, Debug, PartialEq, Eq, Structural)]
pub enum RecvError {
    Empty,
    Lagged(u64),
}

/// The full behaviour of one `try_recv` call on receiver `idx`: channel `c0`
/// becomes `c1` and the call returns `r`.
pub open spec fn spec_try_recv_post(
    c0: ChannelView,
    c1: ChannelView,
    idx: int,
    r: Result<InputMessage, RecvError>,
) -> bool {
    &&& c1.capacity == c0.capacity
    &&& c1.receivers.len() == c0.receivers.len()
    &&& forall|i: int|
        0 <= i < c0.receivers.len() && i != idx ==> #[trigger] c1.receivers[i] == c0.receivers[i]
    &&& ({
        let r0 = c0.receivers[idx];
        let r1 = c1.receivers[idx];
        if r0.lagged > 0 {
            &&& r matches Err(RecvError::Lagged(n)) && n as nat == r0.lagged
            &&& r1.queue == r0.queue
            &&& r1.lagged == 0
        } else if r0.queue.len() == 0 {
            &&& r matches Err(RecvError::Empty)
            &&& r1 == r0
        } else {
            &&& r matches Ok(m) && m@ == r0.queue[0]
            &&& r1.queue == r0.queue.drop_first()
            &&& r1.lagged == 0
        }
    })
}

/// A channel is well formed when it can buffer at least one message and no
/// receiver holds more than the capacity.
pub open spec fn channel_wf(c: ChannelView) -> bool {
    &&& c.capacity >= 1
    &&& forall|i: int| 0 <= i < c.receivers.len() ==> #[trigger] c.receivers[i].queue.len() <= c.capacity
}

impl BroadcastChannel {
    /// A fresh channel with the given capacity and no receivers.
    pub fn new(capacity: usize) -> (r: Self)
        requires
            capacity >= 1,
        ensures
            r@.capacity == capacity,
            r@.receivers.len() == 0,
            channel_wf(r@),
    {
        BroadcastChannel { capacity, receivers: Vec::new() }
    }

    /// Registers a new receiver, which starts with an empty buffer, and
    /// returns its index.
    pub fn subscribe(&mut self) -> (idx: usize)
        ensures
            idx == old(self)@.receivers.len(),
            final(self)@.capacity == old(self)@.capacity,
            final(self)@.receivers == old(self)@.receivers.push(
                ReceiverView { queue: Seq::empty(), lagged: 0 },
            ),
            channel_wf(old(self)@) ==> channel_wf(final(self)@),
    {
        let idx = self.receivers.len();
        self.receivers.push(ReceiverState { queue: Vec::new(), lagged: 0 });
        proof {
            assert(self@.receivers =~~= old(self)@.receivers.push(
                ReceiverView { queue: Seq::empty(), lagged: 0 },
            ));
        }
        idx
    }

    /// Delivers a clone of `m` to every receiver, applying the slow-consumer
    /// policy to each.
    pub fn send(&mut self, m: &InputMessage)
        requires
            channel_wf(old(self)@),
        ensures
            channel_wf(final(self)@),
            final(self)@.capacity == old(self)@.capacity,
            final(self)@.receivers.len() == old(self)@.receivers.len(),
            forall|i: int|
                0 <= i < old(self)@.receivers.len() ==> #[trigger] final(self)@.receivers[i]
                    == spec_send_one(old(self)@.receivers[i], old(self)@.capacity, m@),
            final(self)@ == spec_send(old(self)@, m@),
    {
        let n = self.receivers.len();
        let mut k: usize = 0;
        while k < n
            invariant
                n == self.receivers.len(),
                k <= n,
                self.capacity == old(self)@.capacity,
                channel_wf(old(self)@),
                forall|i: int|
                    k <= i < n ==> #[trigger] self@.receivers[i] == old(self)@.receivers[i],
                forall|i: int|
                    0 <= i < k ==> #[trigger] self@.receivers[i] == spec_send_one(
                        old(self)@.receivers[i],
                        old(self)@.capacity,
                        m@,
                    ),
            decreases n - k,
        {
            let ghost pre = self@;
            let mut tmp = ReceiverState { queue: Vec::new(), lagged: 0 };
            self.receivers.set_and_swap(k, &mut tmp);
            proof {
                assert(tmp@ == pre.receivers[k as int]);
                assert(pre.receivers[k as int] == old(self)@.receivers[k as int]);
            }
            if tmp.queue.len() >= self.capacity {
                tmp.queue.remove(0);
                if tmp.lagged < u64::MAX {
                    tmp.lagged = tmp.lagged + 1;
                }
            }
            tmp.queue.push(m.clone());
            proof {
                assert(tmp@.queue =~= spec_send_one(
                    pre.receivers[k as int],
                    old(self)@.capacity,
                    m@,
                ).queue);
                assert(tmp@ == spec_send_one(
                    pre.receivers[k as int],
                    old(self)@.capacity,
                    m@,
                ));
            }
            self.receivers.set_and_swap(k, &mut tmp);
            proof {
                assert(forall|i: int|
                    0 <= i < n && i != k ==> #[trigger] self@.receivers[i] == pre.receivers[i]);
                assert(self@.receivers[k as int] == spec_send_one(
                    old(self)@.receivers[k as int],
                    old(self)@.capacity,
                    m@,
                ));
            }
            k += 1;
        }
        proof {
            assert(self@ =~~= spec_send(old(self)@, m@));
        }
    }

    /// Takes the oldest buffered message for receiver `idx`, or reports why
    /// none is available. A loss is reported once and then cleared.
    pub fn try_recv(&mut self, idx: usize) -> (r: Result<InputMessage, RecvError>)
        requires
            idx < old(self)@.receivers.len(),
        ensures
            final(self)@.capacity == old(self)@.capacity,
            final(self)@.receivers.len() == old(self)@.receivers.len(),
            forall|i: int|
                0 <= i < old(self)@.receivers.len() && i != idx
                    ==> #[trigger] final(self)@.receivers[i] == old(self)@.receivers[i],
            ({
                let r0 = old(self)@.receivers[idx as int];
                let r1 = final(self)@.receivers[idx as int];
                if r0.lagged > 0 {
                    &&& r matches Err(RecvError::Lagged(n)) && n as nat == r0.lagged
                    &&& r1.queue == r0.queue
                    &&& r1.lagged == 0
                } else if r0.queue.len() == 0 {
                    &&& r matches Err(RecvError::Empty)
                    &&& r1 == r0
                } else {
                    &&& r matches Ok(m) && m@ == r0.queue[0]
                    &&& r1.queue == r0.queue.drop_first()
                    &&& r1.lagged == 0
                }
            }),
            channel_wf(old(self)@) ==> channel_wf(final(self)@),
            spec_try_recv_post(old(self)@, final(self)@, idx as int, r),
    {
        let ghost pre = self@;
        let mut tmp = ReceiverState { queue: Vec::new(), lagged: 0 };
        self.receivers.set_and_swap(idx, &mut tmp);
        proof {
            assert(tmp@ == pre.receivers[idx as int]);
        }
        let r: Result<InputMessage, RecvError> = if tmp.lagged > 0 {
            let n = tmp.lagged;
            tmp.lagged = 0;
            Result::Err(RecvError::Lagged(n))
        } else if tmp.queue.len() == 0 {
            Result::Err(RecvError::Empty)
        } else {
            Result::Ok(tmp.queue.remove(0))
        };
        proof {
            let r0 = pre.receivers[idx as int];
            if r0.lagged == 0 && r0.queue.len() > 0 {
                assert(tmp@.queue =~= r0.queue.drop_first());
            }
        }
        self.receivers.set_and_swap(idx, &mut tmp);
        proof {
            assert(forall|i: int|
                0 <= i < pre.receivers.len() && i != idx ==> #[trigger] self@.receivers[i]
                    == pre.receivers[i]);
        }
        r
    }

    /// How many receivers the channel has.
    pub fn receiver_count(&self) -> (n: usize)
        ensures
            n == self@.receivers.len(),
    {
        self.receivers.len()
    }
}

/// Law: deliveries keep publish order. Sending `m1` then `m2` to a
/// receiver with room for both leaves `m1` queued ahead of `m2`.
pub proof fn lemma_delivery_order(
    r: ReceiverView,
    cap: nat,
    m1: InputMessageView,
    m2: InputMessageView,
)
    requires
        r.queue.len() + 2 <= cap,
    ensures
        ({
            let r2 = spec_send_one(spec_send_one(r, cap, m1), cap, m2);
            &&& r2.queue.len() == r.queue.len() + 2
            &&& r2.queue[r.queue.len() as int] == m1
            &&& r2.queue[r.queue.len() as int + 1] == m2
        }),
{
}

/// Builds a channel of the given capacity with no receivers yet; the
/// adapters all create their fan-out channels through this.
pub fn create_channel(capacity: usize) -> (r: BroadcastChannel)
    requires
        capacity >= 1,
    ensures
        r@.capacity == capacity,
        r@.receivers.len() == 0,
        channel_wf(r@),
{
    BroadcastChannel::new(capacity)
}

} // verus!
