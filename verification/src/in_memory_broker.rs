//! The in-process broker: topic fan-out and queue-group round-robin over
//! verified broadcast channels, with wildcard subject matching.

use vstd::prelude::*;

verus! {

use vstd::pervasive::VecAdditionalExecFns;
use crate::channel::{
    BroadcastChannel,
    ChannelView,
    ReceiverView,
    RecvError,
    channel_wf,
    spec_send,
    spec_try_recv_post,
};
use crate::errors::TriggerError;
use crate::matcher::{matches_chars, spec_matches};
use crate::configs::SubscriptionType;
use crate::messages::{InputMessage, InputMessageView, OutputMessage, OutputMessageView, opt_str_view};
use crate::subjects::{generate_request_subscription, spec_request_subscription};
use crate::strutil::{chars_vec, str_eq};

/// Buffer capacity of each in-process subscription.
pub const IN_MEMORY_CAPACITY: usize = 10;

/// One topic subscription: the pattern as given, the pattern split once into
/// characters, and the fan-out channel shared by its receivers.
pub struct Subscription {
    pattern: String,
    pattern_chars: Vec<char>,
    channel: BroadcastChannel,
}

/// Model of a topic subscription.
#[verifier::ext_equal]
pub ghost struct SubscriptionView {
    pub pattern: Seq<char>,
    pub channel: ChannelView,
}

impl View for Subscription {
    type V = SubscriptionView;

    closed spec fn view(&self) -> SubscriptionView {
        SubscriptionView { pattern: self.pattern@, channel: self.channel@ }
    }
}

impl Subscription {
    spec fn wf(&self) -> bool {
        &&& self.pattern_chars@ == self.pattern@
        &&& channel_wf(self.channel@)
        &&& self.channel@.capacity == IN_MEMORY_CAPACITY
    }
}

/// One queue group: members share the topic pattern; each matching publish
/// reaches exactly one member, selected round-robin by the cursor.
pub struct QueueGroup {
    topic: String,
    topic_chars: Vec<char>,
    group: String,
    members: Vec<BroadcastChannel>,
    cursor: u64,
}

/// Model of a queue group.
#[verifier::ext_equal]
pub ghost struct QueueGroupView {
    pub topic: Seq<char>,
    pub group: Seq<char>,
    pub members: Seq<ChannelView>,
    pub cursor: nat,
}

impl View for QueueGroup {
    type V = QueueGroupView;

    closed spec fn view(&self) -> QueueGroupView {
        QueueGroupView {
            topic: self.topic@,
            group: self.group@,
            members: Seq::new(self.members@.len(), |i: int| self.members@[i]@),
            cursor: self.cursor as nat,
        }
    }
}

impl QueueGroup {
    spec fn wf(&self) -> bool {
        &&& self.topic_chars@ == self.topic@
        &&& self.members@.len() >= 1
        &&& forall|i: int|
            0 <= i < self.members@.len() ==> channel_wf(#[trigger] self.members@[i]@)
                && self.members@[i]@.capacity == IN_MEMORY_CAPACITY
    }
}

/// The in-process broker: a name, the topic subscriptions, and the queue
/// groups.
pub struct InMemoryBroker {
    name: String,
    topic_subscriptions: Vec<Subscription>,
    queue_subscriptions: Vec<QueueGroup>,
}

/// Model of the broker.
#[verifier::ext_equal]
pub ghost struct InMemoryBrokerView {
    pub name: Seq<char>,
    pub topics: Seq<SubscriptionView>,
    pub queues: Seq<QueueGroupView>,
}

impl View for InMemoryBroker {
    type V = InMemoryBrokerView;

    closed spec fn view(&self) -> InMemoryBrokerView {
        InMemoryBrokerView {
            name: self.name@,
            topics: Seq::new(self.topic_subscriptions@.len(), |i: int| self.topic_subscriptions@[i]@),
            queues: Seq::new(self.queue_subscriptions@.len(), |i: int| self.queue_subscriptions@[i]@),
        }
    }
}

/// A handle to one subscription receiver of this broker, as returned by the
/// subscribe operations and consumed by [`InMemoryBroker::try_recv`].
#[derive(Clone, Copy, Debug, PartialEq, Eq, Structural)]
pub enum Receiver {
    Topic { entry: usize, receiver: usize },
    Queue { entry: usize, member: usize, receiver: usize },
}

/// The state of a freshly created receiver: empty, nothing lost.
pub open spec fn spec_fresh_receiver() -> ReceiverView {
    ReceiverView { queue: Seq::empty(), lagged: 0 }
}

/// Does the handle `rx` address a live receiver of broker `v`?
pub open spec fn spec_receiver_valid(v: InMemoryBrokerView, rx: Receiver) -> bool {
    match rx {
        Receiver::Topic { entry, receiver } => {
            &&& (entry as int) < v.topics.len()
            &&& (receiver as int) < v.topics[entry as int].channel.receivers.len()
        },
        Receiver::Queue { entry, member, receiver } => {
            &&& (entry as int) < v.queues.len()
            &&& (member as int) < v.queues[entry as int].members.len()
            &&& (receiver as int) < v.queues[entry as int].members[member as int].receivers.len()
        },
    }
}

/// What subscribing to a topic does: an existing entry for the same pattern
/// gains one receiver; otherwise a new entry appears with one receiver.
/// `rx` is the handle handed back.
pub open spec fn spec_topic_subscribed(
    pre: InMemoryBrokerView,
    post: InMemoryBrokerView,
    pattern: Seq<char>,
    rx: Receiver,
) -> bool {
    match rx {
        Receiver::Topic { entry, receiver } => {
            &&& (entry as int) < post.topics.len()
            &&& post.topics[entry as int].pattern == pattern
            &&& post.topics[entry as int].channel.receivers == (if (entry as int) < pre.topics.len() {
                pre.topics[entry as int].channel.receivers
            } else {
                Seq::empty()
            }).push(spec_fresh_receiver())
            &&& (receiver as int) + 1 == post.topics[entry as int].channel.receivers.len()
            &&& (if exists|j: int| 0 <= j < pre.topics.len() && pre.topics[j].pattern == pattern {
                &&& post.topics.len() == pre.topics.len()
                &&& (entry as int) < pre.topics.len()
                &&& pre.topics[entry as int].pattern == pattern
                &&& post.topics[entry as int].channel.capacity == pre.topics[entry as int].channel.capacity
            } else {
                &&& post.topics.len() == pre.topics.len() + 1
                &&& entry as int == pre.topics.len()
                &&& receiver == 0
                &&& post.topics[entry as int].channel.capacity == IN_MEMORY_CAPACITY as nat
            })
            &&& forall|k: int|
                0 <= k < pre.topics.len() && k != entry ==> #[trigger] post.topics[k] == pre.topics[k]
        },
        _ => false,
    }
}

/// What subscribing to a queue group does: an existing `(topic, group)`
/// entry gains one fresh member channel; otherwise a new entry appears with
/// that member alone and its cursor at zero.
pub open spec fn spec_queue_subscribed(
    pre: InMemoryBrokerView,
    post: InMemoryBrokerView,
    topic: Seq<char>,
    group: Seq<char>,
    rx: Receiver,
) -> bool {
    match rx {
        Receiver::Queue { entry, member, receiver } => {
            &&& receiver == 0
            &&& (entry as int) < post.queues.len()
            &&& post.queues[entry as int].topic == topic
            &&& post.queues[entry as int].group == group
            &&& (member as int) + 1 == post.queues[entry as int].members.len()
            &&& post.queues[entry as int].members[member as int] == ChannelView {
                capacity: IN_MEMORY_CAPACITY as nat,
                receivers: seq![spec_fresh_receiver()],
            }
            &&& (if exists|j: int|
                0 <= j < pre.queues.len() && pre.queues[j].topic == topic && pre.queues[j].group
                    == group {
                &&& post.queues.len() == pre.queues.len()
                &&& (entry as int) < pre.queues.len()
                &&& pre.queues[entry as int].topic == topic
                &&& pre.queues[entry as int].group == group
                &&& member as int == pre.queues[entry as int].members.len()
                &&& post.queues[entry as int].members == pre.queues[entry as int].members.push(
                    ChannelView {
                        capacity: IN_MEMORY_CAPACITY as nat,
                        receivers: seq![spec_fresh_receiver()],
                    },
                )
                &&& post.queues[entry as int].cursor == pre.queues[entry as int].cursor
            } else {
                &&& post.queues.len() == pre.queues.len() + 1
                &&& entry as int == pre.queues.len()
                &&& member == 0
                &&& post.queues[entry as int].cursor == 0
            })
            &&& forall|k: int|
                0 <= k < pre.queues.len() && k != entry ==> #[trigger] post.queues[k] == pre.queues[k]
        },
        _ => false,
    }
}

/// What one `try_recv` through handle `rx` does: the addressed receiver
/// behaves as the channel contract says, and nothing else moves.
pub open spec fn spec_try_recv_effect(
    pre: InMemoryBrokerView,
    post: InMemoryBrokerView,
    rx: Receiver,
    r: Result<InputMessage, RecvError>,
) -> bool {
    match rx {
        Receiver::Topic { entry, receiver } => {
            &&& post.queues == pre.queues
            &&& post.topics.len() == pre.topics.len()
            &&& forall|k: int|
                0 <= k < pre.topics.len() && k != entry ==> #[trigger] post.topics[k] == pre.topics[k]
            &&& post.topics[entry as int].pattern == pre.topics[entry as int].pattern
            &&& spec_try_recv_post(
                pre.topics[entry as int].channel,
                post.topics[entry as int].channel,
                receiver as int,
                r,
            )
        },
        Receiver::Queue { entry, member, receiver } => {
            &&& post.topics == pre.topics
            &&& post.queues.len() == pre.queues.len()
            &&& forall|k: int|
                0 <= k < pre.queues.len() && k != entry ==> #[trigger] post.queues[k] == pre.queues[k]
            &&& post.queues[entry as int].topic == pre.queues[entry as int].topic
            &&& post.queues[entry as int].group == pre.queues[entry as int].group
            &&& post.queues[entry as int].cursor == pre.queues[entry as int].cursor
            &&& post.queues[entry as int].members.len() == pre.queues[entry as int].members.len()
            &&& forall|k: int|
                0 <= k < pre.queues[entry as int].members.len() && k != member
                    ==> #[trigger] post.queues[entry as int].members[k] == pre.queues[
                    entry as int
                ].members[k]
            &&& spec_try_recv_post(
                pre.queues[entry as int].members[member as int],
                post.queues[entry as int].members[member as int],
                receiver as int,
                r,
            )
        },
    }
}

/// Does a publish under `subject` reach a subscription with this pattern?
/// A stored pattern that is literally the subject always receives, besides
/// everything the wildcard match accepts.
pub open spec fn spec_delivers(pattern: Seq<char>, subject: Seq<char>) -> bool {
    pattern == subject || spec_matches(pattern, subject)
}

/// The inbound message that publishing `m` on the broker named `name`
/// produces. The subject must be present for a publish to happen at all.
pub open spec fn spec_inbound(m: OutputMessageView, name: Seq<char>) -> InputMessageView {
    InputMessageView {
        message: m.message,
        subject: m.subject.unwrap(),
        broker: name,
        response_subject: m.response_subject,
    }
}

/// The cursor value after one queue-group delivery.
pub open spec fn spec_next_cursor(c: nat) -> nat {
    if c < u64::MAX as nat {
        c + 1
    } else {
        0
    }
}

/// What one matching publish does to a queue group: the member at
/// `cursor mod member-count` receives, and the cursor advances.
pub open spec fn spec_queue_publish(q: QueueGroupView, m: InputMessageView) -> QueueGroupView {
    let sel = (q.cursor % q.members.len()) as int;
    QueueGroupView {
        topic: q.topic,
        group: q.group,
        members: q.members.update(sel, spec_send(q.members[sel], m)),
        cursor: spec_next_cursor(q.cursor),
    }
}

/// The broker state after publishing `m`: a publish without a subject does
/// nothing; otherwise every matching topic subscription's channel sees the
/// inbound message, and every matching queue group delivers it to exactly
/// the member its cursor selects.
pub open spec fn spec_publish_effect(v: InMemoryBrokerView, m: OutputMessageView) -> InMemoryBrokerView {
    match m.subject {
        Option::None => v,
        Option::Some(subject) => {
            let inb = spec_inbound(m, v.name);
            InMemoryBrokerView {
                name: v.name,
                topics: Seq::new(
                    v.topics.len(),
                    |i: int|
                        if spec_delivers(v.topics[i].pattern, subject) {
                            SubscriptionView {
                                pattern: v.topics[i].pattern,
                                channel: spec_send(v.topics[i].channel, inb),
                            }
                        } else {
                            v.topics[i]
                        },
                ),
                queues: Seq::new(
                    v.queues.len(),
                    |i: int|
                        if spec_delivers(v.queues[i].topic, subject) {
                            spec_queue_publish(v.queues[i], inb)
                        } else {
                            v.queues[i]
                        },
                ),
            }
        },
    }
}

impl InMemoryBroker {
    /// The broker's internal consistency: compiled patterns agree with their
    /// text, channels are well formed at the fixed capacity, every queue
    /// group has a member, and subscriptions are keyed uniquely.
    pub closed spec fn wf(&self) -> bool {
        &&& forall|i: int|
            0 <= i < self.topic_subscriptions@.len() ==> (#[trigger] self.topic_subscriptions@[i]).wf()
        &&& forall|i: int|
            0 <= i < self.queue_subscriptions@.len() ==> (#[trigger] self.queue_subscriptions@[i]).wf()
        &&& forall|i: int, j: int|
            0 <= i < j < self.topic_subscriptions@.len() ==> (#[trigger] self.topic_subscriptions@[i]).pattern@
                != (#[trigger] self.topic_subscriptions@[j]).pattern@
        &&& forall|i: int, j: int|
            0 <= i < j < self.queue_subscriptions@.len() ==> !((#[trigger] self.queue_subscriptions@[i]).topic@
                == (#[trigger] self.queue_subscriptions@[j]).topic@
                && self.queue_subscriptions@[i].group@ == self.queue_subscriptions@[j].group@)
    }

    /// A fresh broker with the given name and no subscriptions.
    pub fn new(name: String) -> (r: Self)
        ensures
            r.wf(),
            r@.name == name@,
            r@.topics.len() == 0,
            r@.queues.len() == 0,
    {
        InMemoryBroker { name, topic_subscriptions: Vec::new(), queue_subscriptions: Vec::new() }
    }

    /// The broker's stable, registry-unique name; it is stamped into every
    /// inbound message this broker produces.
    pub fn name(&self) -> (r: &str)
        ensures
            r@ == self@.name,
    {
        self.name.as_str()
    }

    /// Publishes one message: requires a subject, synthesizes the inbound
    /// message stamped with this broker's name, fans it out to every
    /// matching topic subscription, and hands it to exactly one member of
    /// every matching queue group.
    pub fn publish(&mut self, message: OutputMessage) -> (r: Result<(), TriggerError>)
        requires
            old(self).wf(),
        ensures
            final(self).wf(),
            message@.subject is Some <==> r is Ok,
            message@.subject is None ==> r === Result::Err(TriggerError::NoSubject),
            final(self)@ == spec_publish_effect(old(self)@, message@),
    {
        let OutputMessage { message: body, subject: subj_opt, broker: _broker, response_subject: resp } =
            message;
        let subject = match subj_opt {
            Option::None => {
                proof {
                    assert(self@ =~~= spec_publish_effect(old(self)@, message@));
                }
                return Result::Err(TriggerError::NoSubject);
            },
            Option::Some(s) => s,
        };
        let inbound = InputMessage {
            message: body,
            subject,
            broker: self.name.clone(),
            response_subject: resp,
        };
        proof {
            assert(inbound@ == spec_inbound(message@, old(self)@.name));
        }
        let ghost inb = inbound@;
        let ghost subject_view = message@.subject.unwrap();

        let nt = self.topic_subscriptions.len();
        let mut i: usize = 0;
        while i < nt
            invariant
                old(self).wf(),
                self.wf(),
                nt == self.topic_subscriptions.len(),
                i <= nt,
                self@.name == old(self)@.name,
                self@.queues == old(self)@.queues,
                inbound@ == inb,
                inb == spec_inbound(message@, old(self)@.name),
                subject_view == inbound@.subject,
                forall|k: int| i <= k < nt ==> #[trigger] self@.topics[k] == old(self)@.topics[k],
                forall|k: int|
                    0 <= k < i ==> #[trigger] self@.topics[k] == (if spec_delivers(
                        old(self)@.topics[k].pattern,
                        subject_view,
                    ) {
                        SubscriptionView {
                            pattern: old(self)@.topics[k].pattern,
                            channel: spec_send(old(self)@.topics[k].channel, inb),
                        }
                    } else {
                        old(self)@.topics[k]
                    }),
            decreases nt - i,
        {
            let ghost pre = self@;
            let mut tmp = Subscription {
                pattern: String::new(),
                pattern_chars: Vec::new(),
                channel: BroadcastChannel::new(1),
            };
            self.topic_subscriptions.set_and_swap(i, &mut tmp);
            proof {
                assert(tmp@ == pre.topics[i as int]);
                assert(tmp.wf());
            }
            let deliver = str_eq(tmp.pattern.as_str(), inbound.subject.as_str()) || matches_chars(
                &tmp.pattern_chars,
                inbound.subject.as_str(),
            );
            if deliver {
                tmp.channel.send(&inbound);
            }
            self.topic_subscriptions.set_and_swap(i, &mut tmp);
            proof {
                assert(deliver == spec_delivers(pre.topics[i as int].pattern, subject_view));
                assert(self@.topics[i as int] == (if spec_delivers(
                    old(self)@.topics[i as int].pattern,
                    subject_view,
                ) {
                    SubscriptionView {
                        pattern: old(self)@.topics[i as int].pattern,
                        channel: spec_send(old(self)@.topics[i as int].channel, inb),
                    }
                } else {
                    old(self)@.topics[i as int]
                }));
                assert(forall|k: int|
                    0 <= k < nt && k != i ==> #[trigger] self@.topics[k] == pre.topics[k]);
                assert(self@.queues =~= pre.queues);
            }
            i += 1;
        }

        let nq = self.queue_subscriptions.len();
        let mut j: usize = 0;
        while j < nq
            invariant
                old(self).wf(),
                self.wf(),
                nq == self.queue_subscriptions.len(),
                j <= nq,
                self@.name == old(self)@.name,
                inbound@ == inb,
                inb == spec_inbound(message@, old(self)@.name),
                subject_view == inbound@.subject,
                self@.topics == spec_publish_effect(old(self)@, message@).topics,
                forall|k: int| j <= k < nq ==> #[trigger] self@.queues[k] == old(self)@.queues[k],
                forall|k: int|
                    0 <= k < j ==> #[trigger] self@.queues[k] == (if spec_delivers(
                        old(self)@.queues[k].topic,
                        subject_view,
                    ) {
                        spec_queue_publish(old(self)@.queues[k], inb)
                    } else {
                        old(self)@.queues[k]
                    }),
            decreases nq - j,
        {
            let ghost pre = self@;
            let mut tmp = QueueGroup {
                topic: String::new(),
                topic_chars: Vec::new(),
                group: String::new(),
                members: Vec::new(),
                cursor: 0,
            };
            self.queue_subscriptions.set_and_swap(j, &mut tmp);
            proof {
                assert(tmp@ == pre.queues[j as int]);
                assert(tmp.wf());
            }
            let deliver = str_eq(tmp.topic.as_str(), inbound.subject.as_str()) || matches_chars(
                &tmp.topic_chars,
                inbound.subject.as_str(),
            );
            if deliver {
                let len = tmp.members.len();
                let sel = (tmp.cursor % (len as u64)) as usize;
                let ghost pre_members = tmp@.members;
                let mut ch = BroadcastChannel::new(1);
                tmp.members.set_and_swap(sel, &mut ch);
                ch.send(&inbound);
                tmp.members.set_and_swap(sel, &mut ch);
                tmp.cursor = if tmp.cursor == u64::MAX {
                    0
                } else {
                    tmp.cursor + 1
                };
                proof {
                    assert(tmp@.members =~= pre_members.update(
                        sel as int,
                        spec_send(pre_members[sel as int], inb),
                    ));
                    assert(tmp@ =~~= spec_queue_publish(pre.queues[j as int], inb));
                }
            }
            self.queue_subscriptions.set_and_swap(j, &mut tmp);
            proof {
                assert(deliver == spec_delivers(pre.queues[j as int].topic, subject_view));
                assert(self@.queues[j as int] == (if spec_delivers(
                    old(self)@.queues[j as int].topic,
                    subject_view,
                ) {
                    spec_queue_publish(old(self)@.queues[j as int], inb)
                } else {
                    old(self)@.queues[j as int]
                }));
                assert(forall|k: int|
                    0 <= k < nq && k != j ==> #[trigger] self@.queues[k] == pre.queues[k]);
                assert(self@.topics =~= pre.topics);
            }
            j += 1;
        }

        proof {
            assert(self@ =~~= spec_publish_effect(old(self)@, message@));
        }
        Result::Ok(())
    }

    /// Subscribes to a topic pattern. An entry for the same pattern is
    /// reused; otherwise one is created, compiled once. Never fails.
    #[verifier::rlimit(60)]
    pub fn subscribe_to_topic(&mut self, subject: &str) -> (r: Result<Receiver, TriggerError>)
        requires
            old(self).wf(),
        ensures
            final(self).wf(),
            final(self)@.name == old(self)@.name,
            final(self)@.queues == old(self)@.queues,
            r matches Result::Ok(rx) && spec_topic_subscribed(old(self)@, final(self)@, subject@, rx)
                && spec_receiver_valid(final(self)@, rx),
    {
        let n = self.topic_subscriptions.len();
        let mut found: Option<usize> = Option::None;
        let mut i: usize = 0;
        while i < n
            invariant
                *self == *old(self),
                n == self.topic_subscriptions.len(),
                i <= n,
                match found {
                    Option::Some(f) => f < i && self@.topics[f as int].pattern == subject@,
                    Option::None => forall|k: int|
                        0 <= k < i ==> #[trigger] self@.topics[k].pattern != subject@,
                },
            decreases n - i,
        {
            if found.is_none() {
                if str_eq(self.topic_subscriptions[i].pattern.as_str(), subject) {
                    found = Option::Some(i);
                }
            }
            i += 1;
        }
        match found {
            Option::Some(entry) => {
                let ghost pre = self@;
                let mut tmp = Subscription {
                    pattern: String::new(),
                    pattern_chars: Vec::new(),
                    channel: BroadcastChannel::new(1),
                };
                self.topic_subscriptions.set_and_swap(entry, &mut tmp);
                proof {
                    assert(tmp@ == pre.topics[entry as int]);
                    assert(tmp.wf());
                }
                let ridx = tmp.channel.subscribe();
                proof {
                    assert(tmp.wf());
                }
                let ghost tmp2 = tmp;
                self.topic_subscriptions.set_and_swap(entry, &mut tmp);
                let rx = Receiver::Topic { entry, receiver: ridx };
                proof {
                    assert(self.topic_subscriptions@ =~= old(self).topic_subscriptions@.update(
                        entry as int,
                        tmp2,
                    ));
                    assert(tmp2.pattern@ == old(self).topic_subscriptions@[entry as int].pattern@);
                    assert forall|a: int, b: int| 0 <= a < b < n implies (
                    #[trigger] self.topic_subscriptions@[a]).pattern@ != (
                    #[trigger] self.topic_subscriptions@[b]).pattern@ by {
                        assert(old(self).topic_subscriptions@[a].pattern@ != old(
                            self,
                        ).topic_subscriptions@[b].pattern@);
                        assert(self.topic_subscriptions@[a].pattern@ == old(
                            self,
                        ).topic_subscriptions@[a].pattern@);
                        assert(self.topic_subscriptions@[b].pattern@ == old(
                            self,
                        ).topic_subscriptions@[b].pattern@);
                    }
                    assert(forall|k: int|
                        0 <= k < n && k != entry
                            ==> (#[trigger] self.topic_subscriptions@[k])
                            == old(self).topic_subscriptions@[k]);
                    assert(forall|k: int|
                        0 <= k < n && k != entry ==> #[trigger] self@.topics[k] == pre.topics[k]);
                    assert(self@.queues =~= pre.queues);
                    assert(spec_topic_subscribed(pre, self@, subject@, rx));
                    assert(self.wf());
                }
                Result::Ok(rx)
            },
            Option::None => {
                let ghost pre = self@;
                let pattern_chars = chars_vec(subject);
                let mut channel = BroadcastChannel::new(IN_MEMORY_CAPACITY);
                let ridx = channel.subscribe();
                let sub = Subscription {
                    pattern: subject.to_owned(),
                    pattern_chars,
                    channel,
                };
                self.topic_subscriptions.push(sub);
                let rx = Receiver::Topic { entry: n, receiver: ridx };
                proof {
                    assert(forall|k: int|
                        0 <= k < n ==> #[trigger] self@.topics[k] == pre.topics[k]);
                    assert(self@.queues =~= pre.queues);
                    assert(self@.topics[n as int].channel.receivers =~= Seq::<
                        ReceiverView,
                    >::empty().push(spec_fresh_receiver()));
                    assert(spec_topic_subscribed(pre, self@, subject@, rx));
                    assert(self.topic_subscriptions@[n as int].pattern@ == subject@);
                    assert forall|k: int| 0 <= k < n implies (
                    #[trigger] self.topic_subscriptions@[k]).pattern@ != subject@ by {
                        assert(self.topic_subscriptions@[k] == old(self).topic_subscriptions@[k]);
                        assert(pre.topics[k] == old(self).topic_subscriptions@[k]@);
                        assert(pre.topics[k].pattern != subject@);
                    }
                    assert(self.wf());
                }
                Result::Ok(rx)
            },
        }
    }

    /// Subscribes a fresh member to the queue group `(topic, group)`,
    /// creating the group when it does not exist yet. Never fails.
    #[verifier::rlimit(60)]
    pub fn subscribe_to_queue(&mut self, topic: &str, group: &str) -> (r: Result<
        Receiver,
        TriggerError,
    >)
        requires
            old(self).wf(),
        ensures
            final(self).wf(),
            final(self)@.name == old(self)@.name,
            final(self)@.topics == old(self)@.topics,
            r matches Result::Ok(rx) && spec_queue_subscribed(
                old(self)@,
                final(self)@,
                topic@,
                group@,
                rx,
            ) && spec_receiver_valid(final(self)@, rx),
    {
        let n = self.queue_subscriptions.len();
        let mut found: Option<usize> = Option::None;
        let mut i: usize = 0;
        while i < n
            invariant
                *self == *old(self),
                n == self.queue_subscriptions.len(),
                i <= n,
                match found {
                    Option::Some(f) => f < i && self@.queues[f as int].topic == topic@
                        && self@.queues[f as int].group == group@,
                    Option::None => forall|k: int|
                        0 <= k < i ==> !(#[trigger] self@.queues[k].topic == topic@
                            && self@.queues[k].group == group@),
                },
            decreases n - i,
        {
            if found.is_none() {
                if str_eq(self.queue_subscriptions[i].topic.as_str(), topic) && str_eq(
                    self.queue_subscriptions[i].group.as_str(),
                    group,
                ) {
                    found = Option::Some(i);
                }
            }
            i += 1;
        }
        match found {
            Option::Some(entry) => {
                let ghost pre = self@;
                let mut tmp = QueueGroup {
                    topic: String::new(),
                    topic_chars: Vec::new(),
                    group: String::new(),
                    members: Vec::new(),
                    cursor: 0,
                };
                self.queue_subscriptions.set_and_swap(entry, &mut tmp);
                proof {
                    assert(tmp@ == pre.queues[entry as int]);
                    assert(tmp.wf());
                }
                let member = tmp.members.len();
                let mut channel = BroadcastChannel::new(IN_MEMORY_CAPACITY);
                let ridx = channel.subscribe();
                tmp.members.push(channel);
                proof {
                    assert(tmp@.members =~~= pre.queues[entry as int].members.push(ChannelView {
                        capacity: IN_MEMORY_CAPACITY as nat,
                        receivers: seq![spec_fresh_receiver()],
                    }));
                }
                proof {
                    assert(tmp.wf());
                }
                let ghost tmp2 = tmp;
                self.queue_subscriptions.set_and_swap(entry, &mut tmp);
                let rx = Receiver::Queue { entry, member, receiver: ridx };
                proof {
                    assert(self.queue_subscriptions@ =~= old(self).queue_subscriptions@.update(
                        entry as int,
                        tmp2,
                    ));
                    assert(tmp2.topic@ == old(self).queue_subscriptions@[entry as int].topic@);
                    assert(tmp2.group@ == old(self).queue_subscriptions@[entry as int].group@);
                    assert forall|a: int, b: int| 0 <= a < b < n implies !((
                    #[trigger] self.queue_subscriptions@[a]).topic@ == (
                    #[trigger] self.queue_subscriptions@[b]).topic@
                        && self.queue_subscriptions@[a].group@
                        == self.queue_subscriptions@[b].group@) by {
                        assert(!(old(self).queue_subscriptions@[a].topic@ == old(
                            self,
                        ).queue_subscriptions@[b].topic@ && old(self).queue_subscriptions@[a].group@
                            == old(self).queue_subscriptions@[b].group@));
                        assert(self.queue_subscriptions@[a].topic@ == old(
                            self,
                        ).queue_subscriptions@[a].topic@ && self.queue_subscriptions@[a].group@
                            == old(self).queue_subscriptions@[a].group@);
                        assert(self.queue_subscriptions@[b].topic@ == old(
                            self,
                        ).queue_subscriptions@[b].topic@ && self.queue_subscriptions@[b].group@
                            == old(self).queue_subscriptions@[b].group@);
                    }
                    assert(forall|k: int|
                        0 <= k < n && k != entry
                            ==> (#[trigger] self.queue_subscriptions@[k])
                            == old(self).queue_subscriptions@[k]);
                    assert(forall|k: int|
                        0 <= k < n && k != entry ==> #[trigger] self@.queues[k] == pre.queues[k]);
                    assert(self@.topics =~= pre.topics);
                    assert(spec_queue_subscribed(pre, self@, topic@, group@, rx));
                    assert(self.wf());
                }
                Result::Ok(rx)
            },
            Option::None => {
                let ghost pre = self@;
                let topic_chars = chars_vec(topic);
                let mut channel = BroadcastChannel::new(IN_MEMORY_CAPACITY);
                let ridx = channel.subscribe();
                let mut members: Vec<BroadcastChannel> = Vec::new();
                members.push(channel);
                let qg = QueueGroup {
                    topic: topic.to_owned(),
                    topic_chars,
                    group: group.to_owned(),
                    members,
                    cursor: 0,
                };
                self.queue_subscriptions.push(qg);
                let rx = Receiver::Queue { entry: n, member: 0, receiver: ridx };
                proof {
                    assert(forall|k: int|
                        0 <= k < n ==> #[trigger] self@.queues[k] == pre.queues[k]);
                    assert(self@.topics =~= pre.topics);
                    assert(self@.queues[n as int].members[0].receivers =~= seq![
                        spec_fresh_receiver(),
                    ]);
                    assert(self@.queues[n as int].members[0] =~~= ChannelView {
                        capacity: IN_MEMORY_CAPACITY as nat,
                        receivers: seq![spec_fresh_receiver()],
                    });
                    assert(spec_queue_subscribed(pre, self@, topic@, group@, rx));
                    assert(self.queue_subscriptions@[n as int].topic@ == topic@);
                    assert(self.queue_subscriptions@[n as int].group@ == group@);
                    assert forall|k: int| 0 <= k < n implies !((
                    #[trigger] self.queue_subscriptions@[k]).topic@ == topic@
                        && self.queue_subscriptions@[k].group@ == group@) by {
                        assert(self.queue_subscriptions@[k] == old(self).queue_subscriptions@[k]);
                        assert(pre.queues[k] == old(self).queue_subscriptions@[k]@);
                        assert(!(pre.queues[k].topic == topic@ && pre.queues[k].group == group@));
                    }
                    assert(self.wf());
                }
                Result::Ok(rx)
            },
        }
    }

    /// Takes the oldest undelivered message for the receiver `rx` addresses,
    /// or reports why none is available.
    pub fn try_recv(&mut self, rx: &Receiver) -> (r: Result<InputMessage, RecvError>)
        requires
            old(self).wf(),
            spec_receiver_valid(old(self)@, *rx),
        ensures
            final(self).wf(),
            final(self)@.name == old(self)@.name,
            spec_receiver_valid(final(self)@, *rx),
            spec_try_recv_effect(old(self)@, final(self)@, *rx, r),
    {
        match rx {
            Receiver::Topic { entry, receiver } => {
                let ghost pre = self@;
                let mut tmp = Subscription {
                    pattern: String::new(),
                    pattern_chars: Vec::new(),
                    channel: BroadcastChannel::new(1),
                };
                self.topic_subscriptions.set_and_swap(*entry, &mut tmp);
                proof {
                    assert(tmp@ == pre.topics[*entry as int]);
                    assert(tmp.wf());
                }
                let r = tmp.channel.try_recv(*receiver);
                self.topic_subscriptions.set_and_swap(*entry, &mut tmp);
                proof {
                    assert(forall|k: int|
                        0 <= k < pre.topics.len() && k != *entry ==> #[trigger] self@.topics[k]
                            == pre.topics[k]);
                    assert(self@.queues =~= pre.queues);
                }
                r
            },
            Receiver::Queue { entry, member, receiver } => {
                let ghost pre = self@;
                let mut tmp = QueueGroup {
                    topic: String::new(),
                    topic_chars: Vec::new(),
                    group: String::new(),
                    members: Vec::new(),
                    cursor: 0,
                };
                self.queue_subscriptions.set_and_swap(*entry, &mut tmp);
                proof {
                    assert(tmp@ == pre.queues[*entry as int]);
                    assert(tmp.wf());
                }
                let ghost pre_members = tmp@.members;
                let mut ch = BroadcastChannel::new(1);
                tmp.members.set_and_swap(*member, &mut ch);
                let r = ch.try_recv(*receiver);
                tmp.members.set_and_swap(*member, &mut ch);
                proof {
                    assert(forall|k: int|
                        0 <= k < pre_members.len() && k != *member ==> #[trigger] tmp@.members[k]
                            == pre_members[k]);
                }
                self.queue_subscriptions.set_and_swap(*entry, &mut tmp);
                proof {
                    assert(forall|k: int|
                        0 <= k < pre.queues.len() && k != *entry ==> #[trigger] self@.queues[k]
                            == pre.queues[k]);
                    assert(self@.topics =~= pre.topics);
                }
                r
            },
        }
    }

    /// Subscribes to the topic pattern that serves requests for `path`
    /// under `method` (`*` when no method is pinned).
    pub fn subscribe_to_request(&mut self, path: &str, method: &Option<String>) -> (r: Result<
        Receiver,
        TriggerError,
    >)
        requires
            old(self).wf(),
        ensures
            final(self).wf(),
            final(self)@.name == old(self)@.name,
            final(self)@.queues == old(self)@.queues,
            r matches Result::Ok(rx) && spec_topic_subscribed(
                old(self)@,
                final(self)@,
                spec_request_subscription(path@, opt_str_view(*method)),
                rx,
            ) && spec_receiver_valid(final(self)@, rx),
    {
        let pattern = generate_request_subscription(path, method);
        self.subscribe_to_topic(pattern.as_str())
    }

    /// Subscribes as the binding's subscription asks: a plain topic, a queue
    /// group, or a request pattern. A binding without a subscription type is
    /// refused.
    pub fn subscribe(&mut self, subscription: &SubscriptionType) -> (r: Result<
        Receiver,
        TriggerError,
    >)
        requires
            old(self).wf(),
        ensures
            final(self).wf(),
            final(self)@.name == old(self)@.name,
            match subscription {
                SubscriptionType::NoSubscription => r === Result::Err(
                    TriggerError::NoSubscriptionType,
                ) && final(self)@ == old(self)@,
                SubscriptionType::Topic { topic, result: _ } => r matches Result::Ok(rx)
                    && spec_topic_subscribed(old(self)@, final(self)@, topic@, rx)
                    && spec_receiver_valid(final(self)@, rx),
                SubscriptionType::Request { path, method } => r matches Result::Ok(rx)
                    && spec_topic_subscribed(
                    old(self)@,
                    final(self)@,
                    spec_request_subscription(path@, opt_str_view(*method)),
                    rx,
                ) && spec_receiver_valid(final(self)@, rx),
                SubscriptionType::Queue { topic, group, result: _ } => r matches Result::Ok(rx)
                    && spec_queue_subscribed(old(self)@, final(self)@, topic@, group@, rx)
                    && spec_receiver_valid(final(self)@, rx),
            },
    {
        match subscription {
            SubscriptionType::NoSubscription => Result::Err(TriggerError::NoSubscriptionType),
            SubscriptionType::Topic { topic, result: _ } => self.subscribe_to_topic(
                topic.as_str(),
            ),
            SubscriptionType::Request { path, method } => self.subscribe_to_request(
                path.as_str(),
                method,
            ),
            SubscriptionType::Queue { topic, group, result: _ } => self.subscribe_to_queue(
                topic.as_str(),
                group.as_str(),
            ),
        }
    }

    /// Publishes a batch in order, stopping at the first message without a
    /// subject.
    pub fn publish_all(&mut self, messages: Vec<OutputMessage>) -> (r: Result<(), TriggerError>)
        requires
            old(self).wf(),
        ensures
            final(self).wf(),
            ({
                let ms = spec_msgs_view(messages@);
                let k = spec_first_subjectless(ms);
                &&& (r is Ok <==> k == ms.len())
                &&& (!(r is Ok) ==> r === Result::Err(TriggerError::NoSubject))
                &&& final(self)@ == spec_publish_seq(old(self)@, ms.take(k))
            }),
    {
        let ghost ms = spec_msgs_view(messages@);
        let n = messages.len();
        let mut i: usize = 0;
        while i < n
            invariant
                old(self).wf(),
                self.wf(),
                n == messages.len(),
                i <= n,
                ms == spec_msgs_view(messages@),
                forall|j: int| 0 <= j < i ==> (#[trigger] ms[j]).subject is Some,
                self@ == spec_publish_seq(old(self)@, ms.take(i as int)),
            decreases n - i,
        {
            let ghost pre = self@;
            let m = messages[i].clone();
            let r = self.publish(m);
            proof {
                lemma_publish_seq_push(old(self)@, ms.take(i as int), ms[i as int]);
                assert(ms.take(i as int).push(ms[i as int]) =~= ms.take(i + 1 as int));
            }
            if let Result::Err(e) = r {
                proof {
                    lemma_first_subjectless_at(ms, i as int);
                    assert(self@ == spec_publish_seq(old(self)@, ms.take(i as int)));
                }
                return Result::Err(e);
            }
            i += 1;
        }
        proof {
            lemma_first_subjectless_at(ms, n as int);
            assert(ms.take(n as int) =~= ms);
        }
        Result::Ok(())
    }
}

impl Default for InMemoryBroker {
    /// An unnamed broker with no subscriptions, as the tests construct it.
    fn default() -> (r: Self)
        ensures
            r.wf(),
            r@.name == Seq::<char>::empty(),
            r@.topics.len() == 0,
            r@.queues.len() == 0,
    {
        InMemoryBroker::new(String::new())
    }
}

/// The models of a batch of outbound messages, in order.
pub open spec fn spec_msgs_view(v: Seq<OutputMessage>) -> Seq<OutputMessageView> {
    Seq::new(v.len(), |i: int| v[i]@)
}

/// The broker state after publishing a batch in order.
pub open spec fn spec_publish_seq(v: InMemoryBrokerView, msgs: Seq<OutputMessageView>) -> InMemoryBrokerView
    decreases msgs.len(),
{
    if msgs.len() == 0 {
        v
    } else {
        spec_publish_seq(spec_publish_effect(v, msgs[0]), msgs.drop_first())
    }
}

/// The index of the first message in the batch without a subject, or the
/// batch length when every message has one.
pub open spec fn spec_first_subjectless(msgs: Seq<OutputMessageView>) -> int
    decreases msgs.len(),
{
    if msgs.len() == 0 {
        0
    } else if msgs[0].subject is None {
        0
    } else {
        1 + spec_first_subjectless(msgs.drop_first())
    }
}

proof fn lemma_publish_seq_push(v: InMemoryBrokerView, msgs: Seq<OutputMessageView>, m: OutputMessageView)
    ensures
        spec_publish_seq(v, msgs.push(m)) == spec_publish_effect(spec_publish_seq(v, msgs), m),
    decreases msgs.len(),
{
    reveal_with_fuel(spec_publish_seq, 3);
    if msgs.len() == 0 {
        assert(msgs.push(m).drop_first() =~= Seq::<OutputMessageView>::empty());
    } else {
        assert(msgs.push(m).drop_first() =~= msgs.drop_first().push(m));
        lemma_publish_seq_push(spec_publish_effect(v, msgs[0]), msgs.drop_first(), m);
    }
}

proof fn lemma_first_subjectless_at(msgs: Seq<OutputMessageView>, i: int)
    requires
        0 <= i <= msgs.len(),
        forall|j: int| 0 <= j < i ==> (#[trigger] msgs[j]).subject is Some,
        i < msgs.len() ==> msgs[i].subject is None,
    ensures
        spec_first_subjectless(msgs) == i,
    decreases msgs.len(),
{
    if msgs.len() == 0 {
    } else if i == 0 {
    } else {
        assert(msgs[0].subject is Some);
        assert(forall|j: int|
            0 <= j < i - 1 ==> (#[trigger] msgs.drop_first()[j]).subject is Some) by {
            assert(forall|j: int|
                0 <= j < i - 1 ==> msgs.drop_first()[j] == #[trigger] msgs[j + 1]);
        }
        lemma_first_subjectless_at(msgs.drop_first(), i - 1);
    }
}

/// Law: a publish with subject `s` hands every receiver of every topic
/// subscription whose pattern matches `s` (a literally equal pattern
/// included) an inbound message whose body is exactly the published body,
/// whose subject is `s`, and whose broker is this broker's name.
pub proof fn lemma_publish_topic_fanout(
    pre: InMemoryBrokerView,
    m: OutputMessageView,
    i: int,
    k: int,
)
    requires
        m.subject is Some,
        0 <= i < pre.topics.len(),
        channel_wf(pre.topics[i].channel),
        spec_delivers(pre.topics[i].pattern, m.subject.unwrap()),
        0 <= k < pre.topics[i].channel.receivers.len(),
    ensures
        ({
            let q = spec_publish_effect(pre, m).topics[i].channel.receivers[k].queue;
            &&& q.len() >= 1
            &&& q.last() == spec_inbound(m, pre.name)
            &&& q.last().message == m.message
            &&& q.last().subject == m.subject.unwrap()
            &&& q.last().broker == pre.name
        }),
{
}

/// Law: a publish whose subject does not match a topic subscription's
/// pattern (and is not literally that pattern) leaves the subscription
/// untouched: nothing is delivered to it.
pub proof fn lemma_no_topic_delivery_without_match(
    pre: InMemoryBrokerView,
    m: OutputMessageView,
    i: int,
)
    requires
        m.subject is Some,
        0 <= i < pre.topics.len(),
        !spec_delivers(pre.topics[i].pattern, m.subject.unwrap()),
    ensures
        spec_publish_effect(pre, m).topics[i] == pre.topics[i],
{
}

/// Law: the same for a queue group whose topic pattern does not match: no
/// member receives anything and the cursor stands still.
pub proof fn lemma_no_queue_delivery_without_match(
    pre: InMemoryBrokerView,
    m: OutputMessageView,
    i: int,
)
    requires
        m.subject is Some,
        0 <= i < pre.queues.len(),
        !spec_delivers(pre.queues[i].topic, m.subject.unwrap()),
    ensures
        spec_publish_effect(pre, m).queues[i] == pre.queues[i],
{
}

/// Law: a matching publish reaches exactly one member of a queue group: the
/// one its cursor selects. Every other member's channel is untouched.
pub proof fn lemma_queue_delivery_exactly_one(
    pre: InMemoryBrokerView,
    m: OutputMessageView,
    i: int,
)
    requires
        m.subject is Some,
        0 <= i < pre.queues.len(),
        pre.queues[i].members.len() >= 1,
        spec_delivers(pre.queues[i].topic, m.subject.unwrap()),
    ensures
        ({
            let q0 = pre.queues[i];
            let q1 = spec_publish_effect(pre, m).queues[i];
            let sel = (q0.cursor % q0.members.len()) as int;
            &&& 0 <= sel < q0.members.len()
            &&& q1.members.len() == q0.members.len()
            &&& q1.members[sel] == spec_send(q0.members[sel], spec_inbound(m, pre.name))
            &&& forall|t: int|
                0 <= t < q0.members.len() && t != sel ==> #[trigger] q1.members[t] == q0.members[t]
        }),
{
}

/// Of `n` consecutive round-robin turns beginning at cursor `c`, how many
/// fall to member `j` of `k` members. One matching publish is one turn: it
/// delivers to member `cursor mod k` and advances the cursor (see
/// [`spec_queue_publish`] and [`lemma_queue_delivery_exactly_one`]).
pub open spec fn spec_rr_count(c: nat, n: nat, k: nat, j: nat) -> nat
    decreases n,
{
    if n == 0 {
        0
    } else {
        (if c % k == j {
            1nat
        } else {
            0nat
        }) + spec_rr_count((c + 1) as nat, (n - 1) as nat, k, j)
    }
}

/// How many turns member `j` must wait, from cursor `c`, until its first
/// delivery.
pub open spec fn spec_rr_offset(c: nat, k: nat, j: nat) -> int {
    ((j as int) + (k as int) - ((c % k) as int)) % (k as int)
}

proof fn lemma_div_mod_unique(x: int, d: int, q: int, r: int)
    requires
        d > 0,
        0 <= r < d,
        x == q * d + r,
    ensures
        x / d == q,
        x % d == r,
{
    vstd::arithmetic::div_mod::lemma_fundamental_div_mod_converse_mod(x, d, q, r);
    vstd::arithmetic::div_mod::lemma_fundamental_div_mod_converse_div(x, d, q, r);
}

/// Law: over any `n` consecutive deliveries to a queue group of `k` fixed
/// members starting at cursor `c`, member `j` receives exactly `n / k`
/// deliveries, plus one more when its turn offset falls inside the
/// remainder `n % k` — hence always ⌊n/k⌋ or ⌈n/k⌉ of them.
pub proof fn lemma_round_robin_fair(c: nat, n: nat, k: nat, j: nat)
    requires
        k >= 1,
        j < k,
    ensures
        spec_rr_count(c, n, k, j) as int == (n / k) as int + if spec_rr_offset(c, k, j) < (n
            % k) as int {
            1int
        } else {
            0int
        },
    decreases n,
{
    let ki = k as int;
    let ci = c as int;
    let ji = j as int;
    let r = (c % k) as int;
    vstd::arithmetic::div_mod::lemma_mod_bound(ci, ki);
    vstd::arithmetic::div_mod::lemma_fundamental_div_mod(ci, ki);
    let q = ci / ki;
    let off = spec_rr_offset(c, k, j);
    vstd::arithmetic::div_mod::lemma_mod_bound(ji + ki - r, ki);
    if ji >= r {
        lemma_div_mod_unique(ji + ki - r, ki, 1, ji - r);
    } else {
        lemma_div_mod_unique(ji + ki - r, ki, 0, ji + ki - r);
    }
    if n == 0 {
        lemma_div_mod_unique(0, ki, 0, 0);
    } else {
        lemma_round_robin_fair((c + 1) as nat, (n - 1) as nat, k, j);
        let ni = n as int;
        vstd::arithmetic::div_mod::lemma_fundamental_div_mod(ni, ki);
        let p = ni / ki;
        let s = ni % ki;
        vstd::arithmetic::div_mod::lemma_mod_bound(ni, ki);
        // the cursor after one turn
        let r2 = ((c + 1) as nat % k) as int;
        if r + 1 < ki {
            assert(ci + 1 == q * ki + (r + 1));
            lemma_div_mod_unique(ci + 1, ki, q, r + 1);
            assert(r2 == r + 1);
        } else {
            assert(r + 1 == ki);
            assert((q + 1) * ki == q * ki + ki) by (nonlinear_arith);
            assert(ci + 1 == (q + 1) * ki + 0);
            lemma_div_mod_unique(ci + 1, ki, q + 1, 0);
            assert(r2 == 0);
        }
        // length and remainder after one turn
        if s == 0 {
            assert(ni == ki * p);
            assert(p >= 1) by {
                if p <= 0 {
                    assert(ki * p <= 0) by (nonlinear_arith)
                        requires
                            ki >= 1,
                            p <= 0,
                    ;
                }
            }
            assert(ki * (p - 1) == ki * p - ki) by (nonlinear_arith);
            lemma_div_mod_unique(ni - 1, ki, p - 1, ki - 1);
        } else {
            assert(ni - 1 == p * ki + (s - 1)) by {
                assert(ni == ki * p + s);
                assert(ki * p == p * ki) by (nonlinear_arith);
            }
            lemma_div_mod_unique(ni - 1, ki, p, s - 1);
        }
        // the offset after one turn
        let off2 = spec_rr_offset((c + 1) as nat, k, j);
        vstd::arithmetic::div_mod::lemma_mod_bound(ji + ki - r2, ki);
        if ji >= r2 {
            lemma_div_mod_unique(ji + ki - r2, ki, 1, ji - r2);
        } else {
            lemma_div_mod_unique(ji + ki - r2, ki, 0, ji + ki - r2);
        }
        if r == ji {
            // this turn delivers to j; j then waits a full cycle
            assert(off == 0);
            assert(off2 == ki - 1);
        } else {
            assert(off > 0);
            assert(off2 == off - 1);
        }
    }
}

/// The total number of deliveries that the first `jmax` members receive
/// over `n` turns from cursor `c`.
pub open spec fn spec_rr_sum(c: nat, n: nat, k: nat, jmax: nat) -> nat
    decreases jmax,
{
    if jmax == 0 {
        0
    } else {
        spec_rr_sum(c, n, k, (jmax - 1) as nat) + spec_rr_count(c, n, k, (jmax - 1) as nat)
    }
}

proof fn lemma_rr_sum_zero(c: nat, k: nat, jmax: nat)
    ensures
        spec_rr_sum(c, 0, k, jmax) == 0,
    decreases jmax,
{
    if jmax > 0 {
        lemma_rr_sum_zero(c, k, (jmax - 1) as nat);
    }
}

proof fn lemma_rr_sum_step(c: nat, n: nat, k: nat, jmax: nat)
    requires
        k >= 1,
        n >= 1,
        jmax <= k,
    ensures
        spec_rr_sum(c, n, k, jmax) == (if (c % k) < jmax {
            1nat
        } else {
            0nat
        }) + spec_rr_sum((c + 1) as nat, (n - 1) as nat, k, jmax),
    decreases jmax,
{
    if jmax > 0 {
        lemma_rr_sum_step(c, n, k, (jmax - 1) as nat);
    }
}

/// Law: over any `n` consecutive deliveries to a queue group of `k` fixed
/// members, the members' delivery counts sum to exactly `n`: every turn
/// reaches exactly one member.
pub proof fn lemma_round_robin_total(c: nat, n: nat, k: nat)
    requires
        k >= 1,
    ensures
        spec_rr_sum(c, n, k, k) == n,
    decreases n,
{
    if n == 0 {
        lemma_rr_sum_zero(c, k, k);
    } else {
        vstd::arithmetic::div_mod::lemma_mod_bound(c as int, k as int);
        lemma_rr_sum_step(c, n, k, k);
        lemma_round_robin_total((c + 1) as nat, (n - 1) as nat, k);
    }
}

/// The queue group state after a run of publishes that all match its
/// topic, taken in order.
pub open spec fn spec_queue_after(q: QueueGroupView, msgs: Seq<InputMessageView>) -> QueueGroupView
    decreases msgs.len(),
{
    if msgs.len() == 0 {
        q
    } else {
        spec_queue_after(spec_queue_publish(q, msgs[0]), msgs.drop_first())
    }
}

/// How many of those publishes reach member `j`.
pub open spec fn spec_member_deliveries(
    q: QueueGroupView,
    msgs: Seq<InputMessageView>,
    j: nat,
) -> nat
    decreases msgs.len(),
{
    if msgs.len() == 0 {
        0
    } else {
        (if q.cursor % q.members.len() == j {
            1nat
        } else {
            0nat
        }) + spec_member_deliveries(spec_queue_publish(q, msgs[0]), msgs.drop_first(), j)
    }
}

/// Law: over a run of `n` publishes that all match a queue group with `k`
/// stable members, member `j` receives exactly the round-robin count for
/// its turn offset — always ⌊n/k⌋ or ⌈n/k⌉ deliveries.
pub proof fn lemma_queue_run_fairness(q: QueueGroupView, msgs: Seq<InputMessageView>, j: nat)
    requires
        q.members.len() >= 1,
        j < q.members.len(),
        q.cursor + msgs.len() <= u64::MAX,
    ensures
        spec_member_deliveries(q, msgs, j) == spec_rr_count(
            q.cursor,
            msgs.len(),
            q.members.len(),
            j,
        ),
        spec_member_deliveries(q, msgs, j) as int == (msgs.len() / q.members.len()) as int
            + if spec_rr_offset(q.cursor, q.members.len(), j) < (msgs.len() % q.members.len()) as int {
            1int
        } else {
            0int
        },
    decreases msgs.len(),
{
    if msgs.len() > 0 {
        let q2 = spec_queue_publish(q, msgs[0]);
        assert(q2.members.len() == q.members.len());
        assert(q2.cursor == q.cursor + 1);
        lemma_queue_run_fairness(q2, msgs.drop_first(), j);
    }
    lemma_round_robin_fair(q.cursor, msgs.len(), q.members.len(), j);
}

/// Law: the deliveries of such a run sum to its length over the members:
/// every matching publish reaches exactly one member.
pub proof fn lemma_queue_run_total(q: QueueGroupView, msgs: Seq<InputMessageView>)
    requires
        q.members.len() >= 1,
        q.cursor + msgs.len() <= u64::MAX,
    ensures
        spec_rr_sum_of_deliveries(q, msgs, q.members.len()) == msgs.len(),
    decreases msgs.len(),
{
    lemma_deliveries_match_rr(q, msgs, q.members.len());
    lemma_round_robin_total(q.cursor, msgs.len(), q.members.len());
}

/// The members' delivery counts for the run, summed over the first `jmax`
/// members.
pub open spec fn spec_rr_sum_of_deliveries(
    q: QueueGroupView,
    msgs: Seq<InputMessageView>,
    jmax: nat,
) -> nat
    decreases jmax,
{
    if jmax == 0 {
        0
    } else {
        spec_rr_sum_of_deliveries(q, msgs, (jmax - 1) as nat) + spec_member_deliveries(
            q,
            msgs,
            (jmax - 1) as nat,
        )
    }
}

proof fn lemma_deliveries_match_rr(q: QueueGroupView, msgs: Seq<InputMessageView>, jmax: nat)
    requires
        q.members.len() >= 1,
        jmax <= q.members.len(),
        q.cursor + msgs.len() <= u64::MAX,
    ensures
        spec_rr_sum_of_deliveries(q, msgs, jmax) == spec_rr_sum(
            q.cursor,
            msgs.len(),
            q.members.len(),
            jmax,
        ),
    decreases jmax,
{
    if jmax > 0 {
        lemma_deliveries_match_rr(q, msgs, (jmax - 1) as nat);
        lemma_queue_run_fairness(q, msgs, (jmax - 1) as nat);
        lemma_round_robin_fair(q.cursor, msgs.len(), q.members.len(), (jmax - 1) as nat);
    }
}

} // verus!
