//! The dispatch core: resolving where a handler's outputs go, applying the
//! default broker and subject, and publishing them through the registry of
//! named in-process brokers.

use vstd::prelude::*;

verus! {

use vstd::pervasive::VecAdditionalExecFns;
use vstd::string::StringExecFns;
use crate::configs::{BrokerTypeConfig, MessageMetadata, MessageTriggerConfig, SubscriptionType};
use crate::errors::TriggerError;
use crate::in_memory_broker::{
    InMemoryBroker,
    InMemoryBrokerView,
    Receiver,
    spec_msgs_view,
    spec_publish_effect,
    spec_queue_subscribed,
    spec_receiver_valid,
    spec_topic_subscribed,
    spec_try_recv_effect,
};
use crate::channel::RecvError;
use crate::messages::{InputMessage, Outcome, OutputMessage, OutputMessageView, opt_str_view};
use crate::strutil::str_eq;
use crate::subjects::spec_request_subscription;

/// The result route a subscription carries, if any: `(broker, subject)`.
pub open spec fn spec_result_route(sub: SubscriptionType) -> Option<(Seq<char>, Seq<char>)> {
    match sub {
        SubscriptionType::Topic { topic: _, result: Option::Some(r) } => Option::Some(
            (r.default_broker@, r.default_subject@),
        ),
        SubscriptionType::Queue { topic: _, group: _, result: Option::Some(r) } => Option::Some(
            (r.default_broker@, r.default_subject@),
        ),
        _ => Option::None,
    }
}

/// The `(broker, subject)` fallback for a binding's outputs: the
/// subscription's own result route when it carries one, else the binding's
/// broker and the subject the inbound message arrived under.
pub open spec fn spec_default_route(
    sub: SubscriptionType,
    binding_broker: Seq<char>,
    inbound_subject: Seq<char>,
) -> (Seq<char>, Seq<char>) {
    match spec_result_route(sub) {
        Option::Some(p) => p,
        Option::None => (binding_broker, inbound_subject),
    }
}

/// Resolves the fallback route for one binding and one inbound subject.
pub fn resolve_default_route(config: &MessageTriggerConfig, inbound_subject: &str) -> (r: (
    String,
    String,
))
    ensures
        r.0@ == spec_default_route(config.subscription, config.broker@, inbound_subject@).0,
        r.1@ == spec_default_route(config.subscription, config.broker@, inbound_subject@).1,
{
    match &config.subscription {
        SubscriptionType::Topic { topic: _, result: Option::Some(r) } => (
            r.default_broker.clone(),
            r.default_subject.clone(),
        ),
        SubscriptionType::Queue { topic: _, group: _, result: Option::Some(r) } => (
            r.default_broker.clone(),
            r.default_subject.clone(),
        ),
        _ => (config.broker.clone(), String::from_str(inbound_subject)),
    }
}

/// The broker an output is published through: its own when set, else the
/// default.
pub open spec fn spec_routed_broker(m: OutputMessageView, default_broker: Seq<char>) -> Seq<
    char,
> {
    match m.broker {
        Option::Some(b) => b,
        Option::None => default_broker,
    }
}

/// An output with the default subject filled in where its own is absent.
pub open spec fn spec_routed_message(m: OutputMessageView, default_subject: Seq<char>) -> OutputMessageView {
    OutputMessageView {
        message: m.message,
        subject: Option::Some(
            match m.subject {
                Option::Some(s) => s,
                Option::None => default_subject,
            },
        ),
        broker: m.broker,
        response_subject: m.response_subject,
    }
}

/// Applies the defaults to one output: the broker name it travels through,
/// and the message with its subject fixed. The adapter layer publishes the
/// returned message through the named broker, wherever that broker runs.
pub fn route_output(msg: OutputMessage, default_broker: &str, default_subject: &str) -> (r: (
    String,
    OutputMessage,
))
    ensures
        r.0@ == spec_routed_broker(msg@, default_broker@),
        r.1@ == spec_routed_message(msg@, default_subject@),
{
    let OutputMessage { message: body, subject, broker, response_subject } = msg;
    let name: String = match &broker {
        Option::Some(b) => b.clone(),
        Option::None => String::from_str(default_broker),
    };
    let routed_subject: String = match subject {
        Option::Some(s) => s,
        Option::None => String::from_str(default_subject),
    };
    (
        name,
        OutputMessage {
            message: body,
            subject: Option::Some(routed_subject),
            broker,
            response_subject,
        },
    )
}

/// Law: an output that names neither subject nor broker, under a binding
/// without a result route, is published through the binding's broker under
/// the inbound subject — the dispatch defaults.
pub proof fn lemma_dispatch_defaults(
    m: OutputMessageView,
    sub: SubscriptionType,
    binding_broker: Seq<char>,
    inbound_subject: Seq<char>,
)
    requires
        m.subject is None,
        m.broker is None,
        spec_result_route(sub) is None,
    ensures
        spec_routed_broker(m, spec_default_route(sub, binding_broker, inbound_subject).0)
            == binding_broker,
        spec_routed_message(m, spec_default_route(sub, binding_broker, inbound_subject).1).subject
            == Option::Some(inbound_subject),
{
}

/// The model of the registry: named broker states, in registration order.
pub type RegistryView = Seq<(Seq<char>, InMemoryBrokerView)>;

/// Does the registry hold a broker under `name`?
pub open spec fn spec_has_broker(v: RegistryView, name: Seq<char>) -> bool {
    exists|i: int| 0 <= i < v.len() && v[i].0 == name
}

/// The registry after the broker under `name` publishes `m`.
pub open spec fn spec_registry_publish(
    v: RegistryView,
    name: Seq<char>,
    m: OutputMessageView,
) -> RegistryView {
    Seq::new(
        v.len(),
        |i: int|
            if v[i].0 == name {
                (v[i].0, spec_publish_effect(v[i].1, m))
            } else {
                v[i]
            },
    )
}

/// The registry after one output is sent with the given defaults: the
/// routed broker publishes the routed message; an unknown broker name
/// changes nothing.
pub open spec fn spec_send_effect(
    v: RegistryView,
    default_broker: Seq<char>,
    default_subject: Seq<char>,
    m: OutputMessageView,
) -> RegistryView {
    let name = spec_routed_broker(m, default_broker);
    if spec_has_broker(v, name) {
        spec_registry_publish(v, name, spec_routed_message(m, default_subject))
    } else {
        v
    }
}

/// The registry after a batch of outputs is sent in list order. A failure
/// on one output does not stop the rest.
pub open spec fn spec_send_all_effect(
    v: RegistryView,
    default_broker: Seq<char>,
    default_subject: Seq<char>,
    msgs: Seq<OutputMessageView>,
) -> RegistryView
    decreases msgs.len(),
{
    if msgs.len() == 0 {
        v
    } else {
        spec_send_all_effect(
            spec_send_effect(v, default_broker, default_subject, msgs[0]),
            default_broker,
            default_subject,
            msgs.drop_first(),
        )
    }
}

/// The registry after one handler outcome is dispatched for one inbound
/// message: a handler error only gets logged; published outputs travel
/// under the binding's default route.
pub open spec fn spec_dispatch_effect(
    v: RegistryView,
    config: MessageTriggerConfig,
    inbound_subject: Seq<char>,
    outcome: Outcome,
) -> RegistryView {
    match outcome {
        Outcome::Error(_) => v,
        Outcome::Publish(msgs) => spec_send_all_effect(
            v,
            spec_default_route(config.subscription, config.broker@, inbound_subject).0,
            spec_default_route(config.subscription, config.broker@, inbound_subject).1,
            spec_msgs_view(msgs@),
        ),
    }
}

proof fn lemma_send_all_push(
    v: RegistryView,
    db: Seq<char>,
    ds: Seq<char>,
    msgs: Seq<OutputMessageView>,
    m: OutputMessageView,
)
    ensures
        spec_send_all_effect(v, db, ds, msgs.push(m)) == spec_send_effect(
            spec_send_all_effect(v, db, ds, msgs),
            db,
            ds,
            m,
        ),
    decreases msgs.len(),
{
    reveal_with_fuel(spec_send_all_effect, 3);
    if msgs.len() == 0 {
        assert(msgs.push(m).drop_first() =~= Seq::<OutputMessageView>::empty());
    } else {
        assert(msgs.push(m).drop_first() =~= msgs.drop_first().push(m));
        lemma_send_all_push(spec_send_effect(v, db, ds, msgs[0]), db, ds, msgs.drop_first(), m);
    }
}

/// The runtime's registry of named brokers. Read-mostly after startup: the
/// dispatch loop resolves each output's broker by name in it.
pub struct BrokerRegistry {
    entries: Vec<(String, InMemoryBroker)>,
}

impl View for BrokerRegistry {
    type V = RegistryView;

    closed spec fn view(&self) -> RegistryView {
        Seq::new(self.entries@.len(), |i: int| (self.entries@[i].0@, self.entries@[i].1@))
    }
}

impl BrokerRegistry {
    /// Registered names are unique, each broker is internally consistent,
    /// and each broker carries the name it is registered under.
    pub closed spec fn wf(&self) -> bool {
        &&& forall|i: int|
            0 <= i < self.entries@.len() ==> (#[trigger] self.entries@[i]).1.wf()
        &&& forall|i: int|
            0 <= i < self.entries@.len() ==> (#[trigger] self.entries@[i]).1@.name
                == self.entries@[i].0@
        &&& forall|i: int, j: int|
            0 <= i < j < self.entries@.len() ==> (#[trigger] self.entries@[i]).0@
                != (#[trigger] self.entries@[j]).0@
    }

    /// An empty registry.
    pub fn new() -> (r: Self)
        ensures
            r.wf(),
            r@.len() == 0,
    {
        BrokerRegistry { entries: Vec::new() }
    }

    /// Registers a fresh in-process broker under `name`. A name already
    /// taken is left as it is, as a configuration map holds each key once.
    pub fn register_in_memory(&mut self, name: &str) -> (r: bool)
        requires
            old(self).wf(),
        ensures
            final(self).wf(),
            r == !spec_has_broker(old(self)@, name@),
            !r ==> final(self)@ == old(self)@,
            r ==> final(self)@.len() == old(self)@.len() + 1 && final(self)@.last().0 == name@
                && final(self)@.last().1.name == name@ && final(self)@.last().1.topics.len() == 0
                && final(self)@.last().1.queues.len() == 0 && forall|k: int|
                0 <= k < old(self)@.len() ==> #[trigger] final(self)@[k] == old(self)@[k],
    {
        let n = self.entries.len();
        let mut i: usize = 0;
        while i < n
            invariant
                old(self).wf(),
                *self == *old(self),
                n == self.entries.len(),
                i <= n,
                forall|k: int| 0 <= k < i ==> (#[trigger] self@[k]).0 != name@,
            decreases n - i,
        {
            if str_eq(self.entries[i].0.as_str(), name) {
                proof {
                    assert(self@[i as int].0 == name@);
                }
                return false;
            }
            i += 1;
        }
        let broker = InMemoryBroker::new(name.to_owned());
        let entry_pair = (name.to_owned(), broker);
        let ghost ep = entry_pair;
        self.entries.push(entry_pair);
        proof {
            assert(self.entries@ == old(self).entries@.push(ep));
            assert(ep.0@ == name@ && ep.1.wf() && ep.1@.name == name@);
            assert(forall|k: int|
                0 <= k < old(self)@.len() ==> #[trigger] self@[k] == old(self)@[k]);
            assert(!spec_has_broker(old(self)@, name@));
            assert forall|k: int| 0 <= k < n implies (#[trigger] self.entries@[k]).0@ != name@ by {
                assert(self.entries@[k] == old(self).entries@[k]);
                assert(old(self)@[k].0 != name@);
            }
            assert(self.wf());
        }
        true
    }

    /// Builds the in-process side of the registry from the trigger
    /// metadata: every broker configured as in-memory is registered under
    /// its key; the indices of the remaining entries are handed back for
    /// the adapter layer to connect over their own transports.
    pub fn register_from_metadata(&mut self, metadata: &MessageMetadata) -> (r: Vec<usize>)
        requires
            old(self).wf(),
        ensures
            final(self).wf(),
            forall|j: int|
                0 <= j < r@.len() ==> (#[trigger] r@[j]) < metadata.brokers@.len() && !(
                metadata.brokers@[r@[j] as int].1.broker_type matches BrokerTypeConfig::InMemoryBroker),
            forall|i: int|
                (0 <= i < metadata.brokers@.len() && ((#[trigger] metadata.brokers@[i]).1.broker_type
                    matches BrokerTypeConfig::InMemoryBroker)) ==> spec_has_broker(
                    final(self)@,
                    metadata.brokers@[i].0@,
                ),
    {
        let mut remote: Vec<usize> = Vec::new();
        let n = metadata.brokers.len();
        let mut i: usize = 0;
        while i < n
            invariant
                self.wf(),
                n == metadata.brokers@.len(),
                i <= n,
                forall|j: int|
                    0 <= j < remote@.len() ==> (#[trigger] remote@[j]) < n && !(
                    metadata.brokers@[remote@[j] as int].1.broker_type
                        matches BrokerTypeConfig::InMemoryBroker),
                forall|k: int|
                    (0 <= k < i && ((#[trigger] metadata.brokers@[k]).1.broker_type
                        matches BrokerTypeConfig::InMemoryBroker)) ==> spec_has_broker(
                        self@,
                        metadata.brokers@[k].0@,
                    ),
            decreases n - i,
        {
            let ghost pre = self@;
            let is_in_memory = match &metadata.brokers[i].1.broker_type {
                BrokerTypeConfig::InMemoryBroker => true,
                _ => false,
            };
            if is_in_memory {
                let _ = self.register_in_memory(metadata.brokers[i].0.as_str());
                proof {
                    assert(spec_has_broker(self@, metadata.brokers@[i as int].0@));
                    assert forall|k: int|
                        0 <= k < i && (#[trigger] metadata.brokers@[k]).1.broker_type
                            matches BrokerTypeConfig::InMemoryBroker implies spec_has_broker(
                        self@,
                        metadata.brokers@[k].0@,
                    ) by {
                        let w = choose|w: int|
                            0 <= w < pre.len() && pre[w].0 == metadata.brokers@[k].0@;
                        assert(self@[w].0 == pre[w].0);
                    }
                }
            } else {
                remote.push(i);
            }
            i += 1;
        }
        remote
    }

    /// Publishes one message through the broker registered under `name`.
    pub fn publish_with(&mut self, name: &str, message: OutputMessage) -> (r: Result<
        (),
        TriggerError,
    >)
        requires
            old(self).wf(),
        ensures
            final(self).wf(),
            !spec_has_broker(old(self)@, name@) ==> r === Result::Err(TriggerError::UnknownBroker)
                && final(self)@ == old(self)@,
            spec_has_broker(old(self)@, name@) ==> final(self)@ == spec_registry_publish(
                old(self)@,
                name@,
                message@,
            ) && (r is Ok <==> message@.subject is Some) && (message@.subject is None ==> r
                === Result::Err(TriggerError::NoSubject)),
    {
        let n = self.entries.len();
        let mut found: Option<usize> = Option::None;
        let mut i: usize = 0;
        while i < n
            invariant
                *self == *old(self),
                n == self.entries.len(),
                i <= n,
                match found {
                    Option::Some(f) => f < i && self@[f as int].0 == name@,
                    Option::None => forall|k: int| 0 <= k < i ==> (#[trigger] self@[k]).0 != name@,
                },
            decreases n - i,
        {
            if found.is_none() {
                if str_eq(self.entries[i].0.as_str(), name) {
                    found = Option::Some(i);
                }
            }
            i += 1;
        }
        match found {
            Option::None => {
                proof {
                    assert(!spec_has_broker(old(self)@, name@));
                }
                Result::Err(TriggerError::UnknownBroker)
            },
            Option::Some(entry) => {
                let ghost pre = self@;
                let mut tmp: (String, InMemoryBroker) = (
                    String::new(),
                    InMemoryBroker::new(String::new()),
                );
                self.entries.set_and_swap(entry, &mut tmp);
                proof {
                    assert(tmp.1.wf());
                }
                let r = tmp.1.publish(message);
                let ghost tmp2 = tmp;
                self.entries.set_and_swap(entry, &mut tmp);
                proof {
                    assert(self.entries@ =~= old(self).entries@.update(entry as int, tmp2));
                    assert(tmp2.0@ == old(self).entries@[entry as int].0@);
                    assert(forall|k: int|
                        0 <= k < n && k != entry ==> (#[trigger] self.entries@[k]) == old(self).entries@[k]);
                    assert forall|a: int, b: int| 0 <= a < b < n implies (
                    #[trigger] self.entries@[a]).0@ != (#[trigger] self.entries@[b]).0@ by {
                        assert(old(self).entries@[a].0@ != old(self).entries@[b].0@);
                        assert(self.entries@[a].0@ == old(self).entries@[a].0@);
                        assert(self.entries@[b].0@ == old(self).entries@[b].0@);
                    }
                    assert(spec_has_broker(pre, name@));
                    assert forall|k: int| 0 <= k < n && k != entry implies pre[k].0 != name@ by {
                        if pre[k].0 == name@ {
                            assert(old(self).entries@[k].0@ == old(self).entries@[entry as int].0@);
                        }
                    }
                    assert(self@ =~~= spec_registry_publish(pre, name@, message@));
                }
                r
            },
        }
    }

    /// Subscribes through the broker registered under `name` as the
    /// subscription asks, and hands back the receiver.
    pub fn subscribe_with(&mut self, name: &str, subscription: &SubscriptionType) -> (r: Result<
        Receiver,
        TriggerError,
    >)
        requires
            old(self).wf(),
        ensures
            final(self).wf(),
            !spec_has_broker(old(self)@, name@) ==> r === Result::Err(TriggerError::UnknownBroker)
                && final(self)@ == old(self)@,
            spec_has_broker(old(self)@, name@) ==> final(self)@.len() == old(self)@.len() && (forall|k: int|
                0 <= k < old(self)@.len() && old(self)@[k].0 != name@ ==> #[trigger] final(self)@[k] == old(self)@[k]) && (forall|k: int|
                0 <= k < old(self)@.len() && old(self)@[k].0 == name@ ==> (#[trigger] final(self)@[k]).0 == name@ && (match subscription {
                    SubscriptionType::NoSubscription => r === Result::Err(
                        TriggerError::NoSubscriptionType,
                    ) && final(self)@[k].1 == old(self)@[k].1,
                    SubscriptionType::Topic { topic, result: _ } => r matches Result::Ok(rx)
                        && spec_topic_subscribed(old(self)@[k].1, final(self)@[k].1, topic@, rx)
                        && spec_receiver_valid(final(self)@[k].1, rx),
                    SubscriptionType::Request { path, method } => r matches Result::Ok(rx)
                        && spec_topic_subscribed(
                        old(self)@[k].1,
                        final(self)@[k].1,
                        spec_request_subscription(path@, opt_str_view(*method)),
                        rx,
                    ) && spec_receiver_valid(final(self)@[k].1, rx),
                    SubscriptionType::Queue { topic, group, result: _ } => r matches Result::Ok(rx)
                        && spec_queue_subscribed(
                        old(self)@[k].1,
                        final(self)@[k].1,
                        topic@,
                        group@,
                        rx,
                    ) && spec_receiver_valid(final(self)@[k].1, rx),
                })),
    {
        let n = self.entries.len();
        let mut found: Option<usize> = Option::None;
        let mut i: usize = 0;
        while i < n
            invariant
                *self == *old(self),
                n == self.entries.len(),
                i <= n,
                match found {
                    Option::Some(f) => f < i && self@[f as int].0 == name@,
                    Option::None => forall|k: int| 0 <= k < i ==> (#[trigger] self@[k]).0 != name@,
                },
            decreases n - i,
        {
            if found.is_none() {
                if str_eq(self.entries[i].0.as_str(), name) {
                    found = Option::Some(i);
                }
            }
            i += 1;
        }
        match found {
            Option::None => {
                proof {
                    assert(!spec_has_broker(old(self)@, name@));
                }
                Result::Err(TriggerError::UnknownBroker)
            },
            Option::Some(entry) => {
                let ghost pre = self@;
                let mut tmp: (String, InMemoryBroker) = (
                    String::new(),
                    InMemoryBroker::new(String::new()),
                );
                self.entries.set_and_swap(entry, &mut tmp);
                proof {
                    assert(tmp.1.wf());
                }
                let r = tmp.1.subscribe(subscription);
                let ghost tmp2 = tmp;
                self.entries.set_and_swap(entry, &mut tmp);
                proof {
                    assert(self.entries@ =~= old(self).entries@.update(entry as int, tmp2));
                    assert(tmp2.0@ == old(self).entries@[entry as int].0@);
                    assert(forall|k: int|
                        0 <= k < n && k != entry ==> (#[trigger] self.entries@[k]) == old(self).entries@[k]);
                    assert forall|a: int, b: int| 0 <= a < b < n implies (
                    #[trigger] self.entries@[a]).0@ != (#[trigger] self.entries@[b]).0@ by {
                        assert(old(self).entries@[a].0@ != old(self).entries@[b].0@);
                        assert(self.entries@[a].0@ == old(self).entries@[a].0@);
                        assert(self.entries@[b].0@ == old(self).entries@[b].0@);
                    }
                    assert forall|k: int| 0 <= k < n && k != entry implies pre[k].0 != name@ by {
                        if pre[k].0 == name@ {
                            assert(old(self).entries@[k].0@ == old(self).entries@[entry as int].0@);
                        }
                    }
                }
                r
            },
        }
    }

    /// Receives through the broker registered under `name`, for a receiver
    /// handle that broker handed out.
    pub fn try_recv_with(&mut self, name: &str, rx: &Receiver) -> (r: Result<
        InputMessage,
        RecvError,
    >)
        requires
            old(self).wf(),
            spec_has_broker(old(self)@, name@),
            forall|k: int|
                0 <= k < old(self)@.len() && (#[trigger] old(self)@[k]).0 == name@
                    ==> spec_receiver_valid(old(self)@[k].1, *rx),
        ensures
            final(self).wf(),
            final(self)@.len() == old(self)@.len(),
            forall|k: int|
                0 <= k < old(self)@.len() && (#[trigger] old(self)@[k]).0 != name@ ==> final(self)@[k] == old(self)@[k],
            forall|k: int|
                0 <= k < old(self)@.len() && (#[trigger] old(self)@[k]).0 == name@ ==> final(self)@[k].0 == name@ && spec_try_recv_effect(
                    old(self)@[k].1,
                    final(self)@[k].1,
                    *rx,
                    r,
                ),
    {
        let n = self.entries.len();
        let mut found: Option<usize> = Option::None;
        let mut i: usize = 0;
        while i < n
            invariant
                *self == *old(self),
                n == self.entries.len(),
                i <= n,
                match found {
                    Option::Some(f) => f < i && self@[f as int].0 == name@,
                    Option::None => forall|k: int| 0 <= k < i ==> (#[trigger] self@[k]).0 != name@,
                },
            decreases n - i,
        {
            if found.is_none() {
                if str_eq(self.entries[i].0.as_str(), name) {
                    found = Option::Some(i);
                }
            }
            i += 1;
        }
        match found {
            Option::None => {
                proof {
                    assert(!spec_has_broker(old(self)@, name@));
                }
                // unreachable: the registry was required to hold the name
                Result::Err(RecvError::Empty)
            },
            Option::Some(entry) => {
                let ghost pre = self@;
                let mut tmp: (String, InMemoryBroker) = (
                    String::new(),
                    InMemoryBroker::new(String::new()),
                );
                self.entries.set_and_swap(entry, &mut tmp);
                proof {
                    assert(tmp.1.wf());
                    assert(pre[entry as int].0 == name@);
                    assert(spec_receiver_valid(pre[entry as int].1, *rx));
                }
                let r = tmp.1.try_recv(rx);
                let ghost tmp2 = tmp;
                self.entries.set_and_swap(entry, &mut tmp);
                proof {
                    assert(self.entries@ =~= old(self).entries@.update(entry as int, tmp2));
                    assert(tmp2.0@ == old(self).entries@[entry as int].0@);
                    assert(forall|k: int|
                        0 <= k < n && k != entry ==> (#[trigger] self.entries@[k]) == old(self).entries@[k]);
                    assert forall|a: int, b: int| 0 <= a < b < n implies (
                    #[trigger] self.entries@[a]).0@ != (#[trigger] self.entries@[b]).0@ by {
                        assert(old(self).entries@[a].0@ != old(self).entries@[b].0@);
                        assert(self.entries@[a].0@ == old(self).entries@[a].0@);
                        assert(self.entries@[b].0@ == old(self).entries@[b].0@);
                    }
                    assert forall|k: int| 0 <= k < n && k != entry implies pre[k].0 != name@ by {
                        if pre[k].0 == name@ {
                            assert(old(self).entries@[k].0@ == old(self).entries@[entry as int].0@);
                        }
                    }
                }
                r
            },
        }
    }

    /// Sends one handler output: the output's own broker name wins over the
    /// default, an absent subject becomes the default subject, and the
    /// resolved broker publishes. An unknown broker name is an error.
    pub fn send_with_broker(
        &mut self,
        default_broker: &str,
        default_subject: &str,
        msg: OutputMessage,
    ) -> (r: Result<(), TriggerError>)
        requires
            old(self).wf(),
        ensures
            final(self).wf(),
            final(self)@ == spec_send_effect(old(self)@, default_broker@, default_subject@, msg@),
            r is Ok <==> spec_has_broker(
                old(self)@,
                spec_routed_broker(msg@, default_broker@),
            ),
            !(r is Ok) ==> r === Result::Err(TriggerError::UnknownBroker),
    {
        let (name, routed) = route_output(msg, default_broker, default_subject);
        self.publish_with(name.as_str(), routed)
    }

    /// Sends a batch of handler outputs in list order with the given
    /// defaults. A failed output is logged by the runtime and does not stop
    /// the others, so the batch as a whole always goes through.
    pub fn send_all_with_broker(
        &mut self,
        default_broker: &str,
        default_subject: &str,
        msgs: Vec<OutputMessage>,
    ) -> (r: Result<(), TriggerError>)
        requires
            old(self).wf(),
        ensures
            final(self).wf(),
            r is Ok,
            final(self)@ == spec_send_all_effect(
                old(self)@,
                default_broker@,
                default_subject@,
                spec_msgs_view(msgs@),
            ),
    {
        let ghost ms = spec_msgs_view(msgs@);
        let n = msgs.len();
        let mut i: usize = 0;
        while i < n
            invariant
                old(self).wf(),
                self.wf(),
                n == msgs.len(),
                i <= n,
                ms == spec_msgs_view(msgs@),
                self@ == spec_send_all_effect(
                    old(self)@,
                    default_broker@,
                    default_subject@,
                    ms.take(i as int),
                ),
            decreases n - i,
        {
            let m = msgs[i].clone();
            let _ = self.send_with_broker(default_broker, default_subject, m);
            proof {
                lemma_send_all_push(
                    old(self)@,
                    default_broker@,
                    default_subject@,
                    ms.take(i as int),
                    ms[i as int],
                );
                assert(ms.take(i as int).push(ms[i as int]) =~= ms.take(i + 1 as int));
            }
            i += 1;
        }
        proof {
            assert(ms.take(n as int) =~= ms);
        }
        Result::Ok(())
    }

    /// Dispatches one handler outcome for one inbound subject: an error
    /// outcome is only logged; published outputs are routed under the
    /// binding's defaults and published in list order, each exactly once.
    pub fn dispatch_outcome(
        &mut self,
        config: &MessageTriggerConfig,
        inbound_subject: &str,
        outcome: Outcome,
    ) -> (r: Result<(), TriggerError>)
        requires
            old(self).wf(),
        ensures
            final(self).wf(),
            r is Ok,
            final(self)@ == spec_dispatch_effect(old(self)@, *config, inbound_subject@, outcome),
    {
        match outcome {
            Outcome::Error(_reason) => Result::Ok(()),
            Outcome::Publish(msgs) => {
                let (default_broker, default_subject) = resolve_default_route(
                    config,
                    inbound_subject,
                );
                self.send_all_with_broker(
                    default_broker.as_str(),
                    default_subject.as_str(),
                    msgs,
                )
            },
        }
    }
}

} // verus!
