//! The message fabric: point-to-point inboxes with explicit backpressure,
//! lossy broadcast queues, a bounded history ring and cumulative counters.
//!
//! Expiry is judged against an explicit `now` argument; the caller reads the
//! clock once and hands it in.

use vstd::prelude::*;

use crate::errors::{AgentError, AgentErrorView, DeliveryError};
use crate::message::{Message, MessageFilter, MessageFilterView, MessageView};

verus! {

/// Configuration of the bus.
#[derive(Debug, Clone, Copy, PartialEq, Eq, Structural)]
pub struct MessageBusConfig {
    /// Capacity of each subscriber's broadcast queue.
    pub broadcast_capacity: usize,
    /// Capacity of each point-to-point inbox.
    pub p2p_capacity: usize,
    /// Size of the history ring.
    pub history_size: usize,
    /// Whether history should be persisted by the host.
    pub enable_persistence: bool,
}

impl core::default::Default for MessageBusConfig {
    /// The conventional defaults.
    fn default() -> (r: MessageBusConfig)
        ensures
            r.broadcast_capacity == 1000,
            r.p2p_capacity == 100,
            r.history_size == 1000,
            !r.enable_persistence,
    {
        MessageBusConfig {
            broadcast_capacity: 1000,
            p2p_capacity: 100,
            history_size: 1000,
            enable_persistence: false,
        }
    }
}

/// Cumulative delivery counters. Counters saturate instead of wrapping.
#[derive(Debug, Clone, Copy, PartialEq, Eq, Structural)]
pub struct MessageBusStats {
    pub total_messages: u64,
    pub broadcast_messages: u64,
    pub p2p_messages: u64,
    pub failed_deliveries: u64,
    pub expired_messages: u64,
}

/// A counter increment that saturates at the maximum.
pub open spec fn bump(x: u64) -> u64 {
    if x == u64::MAX {
        x
    } else {
        (x + 1) as u64
    }
}

/// Saturating counter increment.
fn bump_counter(x: u64) -> (r: u64)
    ensures
        r == bump(x),
{
    if x < u64::MAX {
        x + 1
    } else {
        x
    }
}

/// One subscriber: its point-to-point inbox and its broadcast queue.
struct Inbox {
    agent_id: String,
    p2p: Vec<Message>,
    bcast: Vec<Message>,
}

/// Ghost form of [`Inbox`].
pub struct InboxView {
    pub agent_id: Seq<char>,
    pub p2p: Seq<MessageView>,
    pub bcast: Seq<MessageView>,
}

impl View for Inbox {
    type V = InboxView;

    closed spec fn view(&self) -> InboxView {
        InboxView {
            agent_id: self.agent_id@,
            p2p: self.p2p.deep_view(),
            bcast: self.bcast.deep_view(),
        }
    }
}

impl DeepView for Inbox {
    type V = InboxView;

    closed spec fn deep_view(&self) -> InboxView {
        self.view()
    }
}

impl InboxView {
    /// The messages this subscriber can still receive, in delivery order:
    /// point-to-point first, then broadcasts that it did not author itself.
    pub open spec fn deliverable(self) -> Seq<MessageView> {
        self.p2p + keep_other(self.bcast, self.agent_id)
    }
}

/// The broadcasts not authored by `id`, in order.
pub open spec fn keep_other(q: Seq<MessageView>, id: Seq<char>) -> Seq<MessageView>
    decreases q.len(),
{
    if q.len() == 0 {
        Seq::empty()
    } else if q[0].sender_id == id {
        keep_other(q.drop_first(), id)
    } else {
        seq![q[0]] + keep_other(q.drop_first(), id)
    }
}

/// What remains after discarding leading self-authored broadcasts starts,
/// if anything remains, with a broadcast from another agent.
pub proof fn lemma_drop_own_head(q: Seq<MessageView>, id: Seq<char>)
    ensures
        drop_own(q, id).len() > 0 ==> drop_own(q, id)[0].sender_id != id,
    decreases q.len(),
{
    if q.len() == 0 {
    } else if q[0].sender_id == id {
        lemma_drop_own_head(q.drop_first(), id);
    }
}

/// Discarding leading self-authored broadcasts does not change what is
/// deliverable.
pub proof fn lemma_keep_other_drop_own(q: Seq<MessageView>, id: Seq<char>)
    ensures
        keep_other(drop_own(q, id), id) == keep_other(q, id),
    decreases q.len(),
{
    if q.len() == 0 {
    } else if q[0].sender_id == id {
        lemma_keep_other_drop_own(q.drop_first(), id);
    }
}


/// A bounded append: on overflow the oldest entry is evicted; a zero bound
/// stores nothing.
pub open spec fn push_bounded(q: Seq<MessageView>, m: MessageView, cap: int) -> Seq<MessageView> {
    if cap <= 0 {
        q
    } else if q.len() >= cap {
        q.drop_first().push(m)
    } else {
        q.push(m)
    }
}

/// Leading broadcasts authored by `id` are discarded, never delivered.
pub open spec fn drop_own(q: Seq<MessageView>, id: Seq<char>) -> Seq<MessageView>
    decreases q.len(),
{
    if q.len() == 0 {
        Seq::empty()
    } else if q[0].sender_id == id {
        drop_own(q.drop_first(), id)
    } else {
        q
    }
}

/// The bus: one inbox per registered agent, a history ring, counters.
pub struct MessageBus {
    config: MessageBusConfig,
    inboxes: Vec<Inbox>,
    history: Vec<Message>,
    stats: MessageBusStats,
}

impl MessageBus {
    /// Ghost form of the inbox list.
    pub closed spec fn inboxes_v(&self) -> Seq<InboxView> {
        self.inboxes.deep_view()
    }

    /// Ghost form of the history ring, oldest first.
    pub closed spec fn history_v(&self) -> Seq<MessageView> {
        self.history.deep_view()
    }

    /// The counters.
    pub closed spec fn stats_v(&self) -> MessageBusStats {
        self.stats
    }

    /// The configuration.
    pub closed spec fn config_v(&self) -> MessageBusConfig {
        self.config
    }

    /// Whether an agent id has a registered inbox.
    pub open spec fn registered(&self, id: Seq<char>) -> bool {
        exists|i: int|
            0 <= i < self.inboxes_v().len() && self.inboxes_v()[i].agent_id == id
    }

    /// Well-formedness: distinct subscribers, bounded queues, a bounded ring,
    /// and every queued message routed to the right place.
    pub open spec fn wf(&self) -> bool {
        &&& forall|i: int, j: int|
            0 <= i < j < self.inboxes_v().len() ==> self.inboxes_v()[i].agent_id
                != self.inboxes_v()[j].agent_id
        &&& forall|i: int|
            0 <= i < self.inboxes_v().len() ==> (#[trigger] self.inboxes_v()[i]).p2p.len()
                <= self.config_v().p2p_capacity
        &&& forall|i: int|
            0 <= i < self.inboxes_v().len() ==> (#[trigger] self.inboxes_v()[i]).bcast.len()
                <= self.config_v().broadcast_capacity
        &&& self.history_v().len() <= self.config_v().history_size
        &&& forall|i: int, k: int|
            0 <= i < self.inboxes_v().len() && 0 <= k < self.inboxes_v()[i].p2p.len()
                ==> (#[trigger] self.inboxes_v()[i].p2p[k]).receiver_id == Some(
                self.inboxes_v()[i].agent_id,
            )
        &&& forall|i: int, k: int|
            0 <= i < self.inboxes_v().len() && 0 <= k < self.inboxes_v()[i].bcast.len()
                ==> (#[trigger] self.inboxes_v()[i].bcast[k]).receiver_id is None
    }

    /// A fresh bus with no subscribers, no history and zero counters.
    pub fn new(config: MessageBusConfig) -> (r: MessageBus)
        ensures
            r.wf(),
            r.config_v() == config,
            r.inboxes_v() =~= Seq::<InboxView>::empty(),
            r.history_v() =~= Seq::<MessageView>::empty(),
            r.stats_v() == (MessageBusStats {
                total_messages: 0,
                broadcast_messages: 0,
                p2p_messages: 0,
                failed_deliveries: 0,
                expired_messages: 0,
            }),
    {
        MessageBus {
            config,
            inboxes: Vec::new(),
            history: Vec::new(),
            stats: MessageBusStats {
                total_messages: 0,
                broadcast_messages: 0,
                p2p_messages: 0,
                failed_deliveries: 0,
                expired_messages: 0,
            },
        }
    }

    /// The index of the inbox registered for `id`, if any.
    #[verifier::loop_isolation(false)]
    fn find_inbox(&self, id: &str) -> (r: Option<usize>)
        ensures
            match r {
                Some(j) => j < self.inboxes_v().len() && self.inboxes_v()[j as int].agent_id
                    == id@,
                None => !self.registered(id@),
            },
    {
        let id_owned = id.to_owned();
        let mut k: usize = 0;
        while k < self.inboxes.len()
            invariant
                k <= self.inboxes.len(),
                forall|j: int| 0 <= j < k ==> self.inboxes_v()[j].agent_id != id@,
            decreases self.inboxes.len() - k,
        {
            if self.inboxes[k].agent_id == id_owned {
                return Some(k);
            }
            k += 1;
        }
        None
    }

    /// Registers an agent: a fresh empty inbox and broadcast subscription.
    /// Fails when the id is already registered; nothing changes then.
    pub fn register_agent(&mut self, agent_id: String) -> (r: Result<(), AgentError>)
        requires
            old(self).wf(),
        ensures
            final(self).wf(),
            final(self).config_v() == old(self).config_v(),
            final(self).history_v() == old(self).history_v(),
            final(self).stats_v() == old(self).stats_v(),
            match r {
                Ok(()) => ({
                    &&& !old(self).registered(agent_id@)
                    &&& final(self).inboxes_v() =~= old(self).inboxes_v().push(
                        InboxView { agent_id: agent_id@, p2p: Seq::empty(), bcast: Seq::empty() },
                    )
                }),
                Err(e) => ({
                    &&& old(self).registered(agent_id@)
                    &&& e@ is InternalError
                    &&& final(self).inboxes_v() == old(self).inboxes_v()
                }),
            },
    {
        if let Some(_j) = self.find_inbox(agent_id.as_str()) {
            return Err(AgentError::InternalError("agent already registered".to_owned()));
        }
        let inbox = Inbox { agent_id, p2p: Vec::new(), bcast: Vec::new() };
        let ghost iv = inbox@;
        proof {
            assert(iv.p2p =~= Seq::<MessageView>::empty());
            assert(iv.bcast =~= Seq::<MessageView>::empty());
        }
        self.inboxes.push(inbox);
        proof {
            assert(self.inboxes_v() =~= old(self).inboxes_v().push(iv));
        }
        Ok(())
    }

    /// Unregisters an agent, dropping its inbox and anything still queued.
    /// Unknown ids are ignored, as registration state is idempotent here.
    #[verifier::loop_isolation(false)]
    pub fn unregister_agent(&mut self, agent_id: &str) -> (r: Result<(), AgentError>)
        requires
            old(self).wf(),
        ensures
            final(self).wf(),
            final(self).config_v() == old(self).config_v(),
            final(self).history_v() == old(self).history_v(),
            final(self).stats_v() == old(self).stats_v(),
            r is Ok,
            !final(self).registered(agent_id@),
            if old(self).registered(agent_id@) {
                exists|j: int|
                    0 <= j < old(self).inboxes_v().len() && old(self).inboxes_v()[j].agent_id
                        == agent_id@ && final(self).inboxes_v() =~= old(self).inboxes_v().remove(j)
            } else {
                final(self).inboxes_v() == old(self).inboxes_v()
            },
    {
        match self.find_inbox(agent_id) {
            Some(j) => {
                self.inboxes.remove(j);
                proof {
                    assert(final(self).inboxes_v() =~= old(self).inboxes_v().remove(j as int));
                    assert(forall|i: int|
                        0 <= i < final(self).inboxes_v().len() ==> (#[trigger] final(self).inboxes_v()[i]) == if i < j {
                            old(self).inboxes_v()[i]
                        } else {
                            old(self).inboxes_v()[i + 1]
                        });
                }
                Ok(())
            },
            None => Ok(()),
        }
    }
}

impl MessageBus {
    /// The position of the registered inbox for `id` (meaningful only when
    /// `registered(id)` holds).
    pub open spec fn index_of(&self, id: Seq<char>) -> int {
        choose|i: int| 0 <= i < self.inboxes_v().len() && self.inboxes_v()[i].agent_id == id
    }

    /// The registered inbox for `id`.
    pub open spec fn inbox_for(&self, id: Seq<char>) -> InboxView {
        self.inboxes_v()[self.index_of(id)]
    }

    /// Appends to the bounded history ring, evicting the oldest entry.
    fn push_history(&mut self, message: Message)
        requires
            old(self).wf(),
        ensures
            final(self).wf(),
            final(self).config_v() == old(self).config_v(),
            final(self).inboxes_v() == old(self).inboxes_v(),
            final(self).stats_v() == old(self).stats_v(),
            final(self).history_v() == push_bounded(
                old(self).history_v(),
                message@,
                old(self).config_v().history_size as int,
            ),
    {
        if self.config.history_size == 0 {
            return ;
        }
        if self.history.len() >= self.config.history_size {
            self.history.remove(0);
        }
        self.history.push(message);
        proof {
            assert(final(self).history_v() =~= push_bounded(
                old(self).history_v(),
                message@,
                old(self).config_v().history_size as int,
            ));
        }
    }

    /// Routes a message at time `now`.
    ///
    /// An already-expired message is rejected as `Expired` and leaves the
    /// history untouched. Otherwise the message enters the history ring and
    /// is either fanned out to every subscriber's broadcast queue (failing
    /// with `NoSubscribers` when there is none) or appended to the one
    /// receiver's inbox (failing with `UnknownReceiver` or `Backpressure`).
    /// The counters record every path.
    #[verifier::loop_isolation(false)]
    pub fn send(&mut self, message: Message, now: u64) -> (r: Result<(), AgentError>)
        requires
            old(self).wf(),
        ensures
            final(self).wf(),
            final(self).config_v() == old(self).config_v(),
            final(self).inboxes_v().len() == old(self).inboxes_v().len(),
            forall|i: int|
                0 <= i < old(self).inboxes_v().len() ==> (#[trigger] final(self).inboxes_v()[i]).agent_id == old(self).inboxes_v()[i].agent_id,
            message@.expired_at(now as int) ==> ({
                &&& r matches Err(e) && e@ == AgentErrorView::MessageDeliveryError(
                    DeliveryError::Expired,
                )
                &&& final(self).history_v() == old(self).history_v()
                &&& final(self).inboxes_v() == old(self).inboxes_v()
                &&& final(self).stats_v() == (MessageBusStats {
                    expired_messages: bump(old(self).stats_v().expired_messages),
                    ..old(self).stats_v()
                })
            }),
            !message@.expired_at(now as int) ==> final(self).history_v() == push_bounded(
                old(self).history_v(),
                message@,
                old(self).config_v().history_size as int,
            ),
            (!message@.expired_at(now as int) && message@.receiver_id is None && old(self).inboxes_v().len() == 0) ==> ({
                &&& r matches Err(e) && e@ == AgentErrorView::MessageDeliveryError(
                    DeliveryError::NoSubscribers,
                )
                &&& final(self).inboxes_v() == old(self).inboxes_v()
                &&& final(self).stats_v() == (MessageBusStats {
                    total_messages: bump(old(self).stats_v().total_messages),
                    broadcast_messages: bump(old(self).stats_v().broadcast_messages),
                    failed_deliveries: bump(old(self).stats_v().failed_deliveries),
                    ..old(self).stats_v()
                })
            }),
            (!message@.expired_at(now as int) && message@.receiver_id is None && old(self).inboxes_v().len() > 0) ==> ({
                &&& r is Ok
                &&& forall|i: int|
                    0 <= i < old(self).inboxes_v().len() ==> (#[trigger] final(self).inboxes_v()[i]) == (InboxView {
                        bcast: push_bounded(
                            old(self).inboxes_v()[i].bcast,
                            message@,
                            old(self).config_v().broadcast_capacity as int,
                        ),
                        ..old(self).inboxes_v()[i]
                    })
                &&& final(self).stats_v() == (MessageBusStats {
                    total_messages: bump(old(self).stats_v().total_messages),
                    broadcast_messages: bump(old(self).stats_v().broadcast_messages),
                    ..old(self).stats_v()
                })
            }),
            match message@.receiver_id {
                Some(rid) => ({
                    &&& ((!message@.expired_at(now as int) && !old(self).registered(rid))
                        ==> ({
                        &&& r matches Err(e) && e@ == AgentErrorView::MessageDeliveryError(
                            DeliveryError::UnknownReceiver,
                        )
                        &&& final(self).inboxes_v() == old(self).inboxes_v()
                        &&& final(self).stats_v() == (MessageBusStats {
                            total_messages: bump(old(self).stats_v().total_messages),
                            p2p_messages: bump(old(self).stats_v().p2p_messages),
                            failed_deliveries: bump(old(self).stats_v().failed_deliveries),
                            ..old(self).stats_v()
                        })
                    }))
                    &&& ((!message@.expired_at(now as int) && old(self).registered(rid) && old(self).inbox_for(rid).p2p.len() >= old(self).config_v().p2p_capacity) ==> ({
                        &&& r matches Err(e) && e@ == AgentErrorView::MessageDeliveryError(
                            DeliveryError::Backpressure,
                        )
                        &&& final(self).inboxes_v() == old(self).inboxes_v()
                        &&& final(self).stats_v() == (MessageBusStats {
                            total_messages: bump(old(self).stats_v().total_messages),
                            p2p_messages: bump(old(self).stats_v().p2p_messages),
                            failed_deliveries: bump(old(self).stats_v().failed_deliveries),
                            ..old(self).stats_v()
                        })
                    }))
                    &&& ((!message@.expired_at(now as int) && old(self).registered(rid) && old(self).inbox_for(rid).p2p.len() < old(self).config_v().p2p_capacity) ==> ({
                        &&& r is Ok
                        &&& forall|i: int|
                            0 <= i < old(self).inboxes_v().len() ==> (#[trigger] final(self).inboxes_v()[i]) == if old(self).inboxes_v()[i].agent_id == rid {
                                InboxView {
                                    p2p: old(self).inboxes_v()[i].p2p.push(message@),
                                    ..old(self).inboxes_v()[i]
                                }
                            } else {
                                old(self).inboxes_v()[i]
                            }
                        &&& final(self).stats_v() == (MessageBusStats {
                            total_messages: bump(old(self).stats_v().total_messages),
                            p2p_messages: bump(old(self).stats_v().p2p_messages),
                            ..old(self).stats_v()
                        })
                    }))
                }),
                None => true,
            },
    {
        if message.is_expired(now) {
            self.stats.expired_messages = bump_counter(self.stats.expired_messages);
            return Err(AgentError::MessageDeliveryError(DeliveryError::Expired));
        }
        self.stats.total_messages = bump_counter(self.stats.total_messages);
        let broadcast = message.is_broadcast();
        if broadcast {
            self.stats.broadcast_messages = bump_counter(self.stats.broadcast_messages);
            if self.inboxes.len() == 0 {
                self.push_history(message);
                self.stats.failed_deliveries = bump_counter(self.stats.failed_deliveries);
                return Err(AgentError::MessageDeliveryError(DeliveryError::NoSubscribers));
            }
            let ghost pre = self.inboxes_v();
            let mut k: usize = 0;
            while k < self.inboxes.len()
                invariant
                    self.inboxes.len() == pre.len(),
                    k <= pre.len(),
                    self.config_v() == old(self).config_v(),
                    self.history_v() == old(self).history_v(),
                    self.stats_v() == (MessageBusStats {
                        total_messages: bump(old(self).stats_v().total_messages),
                        broadcast_messages: bump(old(self).stats_v().broadcast_messages),
                        ..old(self).stats_v()
                    }),
                    pre == old(self).inboxes_v(),
                    forall|i: int|
                        0 <= i < k ==> (#[trigger] self.inboxes_v()[i]) == (InboxView {
                            bcast: push_bounded(
                                pre[i].bcast,
                                message@,
                                self.config_v().broadcast_capacity as int,
                            ),
                            ..pre[i]
                        }),
                    forall|i: int|
                        k <= i < pre.len() ==> (#[trigger] self.inboxes_v()[i]) == pre[i],
                decreases pre.len() - k,
            {
                let copy = message.duplicate();
                let ghost snap = self.inboxes_v();
                let ghost b0 = self.inboxes_v()[k as int].bcast;
                proof {
                    assert(b0 == pre[k as int].bcast);
                    assert(copy@ == message@);
                }
                if self.config.broadcast_capacity == 0 {
                    // a zero-capacity broadcast queue keeps nothing
                } else {
                    if self.inboxes[k].bcast.len() >= self.config.broadcast_capacity {
                        self.inboxes[k].bcast.remove(0);
                        proof {
                            assert(self.inboxes_v()[k as int].bcast == b0.remove(0));
                            assert(b0.remove(0) =~= b0.drop_first());
                        }
                    }
                    self.inboxes[k].bcast.push(copy);
                }
                proof {
                    assert(self.inboxes_v()[k as int].bcast =~= push_bounded(
                        pre[k as int].bcast,
                        message@,
                        self.config_v().broadcast_capacity as int,
                    ));
                    assert(self.inboxes_v()[k as int] == (InboxView {
                        bcast: push_bounded(
                            pre[k as int].bcast,
                            message@,
                            self.config_v().broadcast_capacity as int,
                        ),
                        ..pre[k as int]
                    }));
                    assert(forall|i: int|
                        0 <= i < pre.len() && i != k ==> (#[trigger] self.inboxes_v()[i])
                            == snap[i]);
                }
                k += 1;
            }
            self.push_history(message);
            Ok(())
        } else {
            self.stats.p2p_messages = bump_counter(self.stats.p2p_messages);
            let receiver_id = match &message.receiver_id {
                Some(rid) => rid.clone(),
                None => {
                    // unreachable: a non-broadcast message has a receiver
                    return Err(AgentError::MessageDeliveryError(DeliveryError::UnknownReceiver));
                },
            };
            match self.find_inbox(receiver_id.as_str()) {
                None => {
                    self.push_history(message);
                    self.stats.failed_deliveries = bump_counter(self.stats.failed_deliveries);
                    Err(AgentError::MessageDeliveryError(DeliveryError::UnknownReceiver))
                },
                Some(j) => {
                    proof {
                        assert(old(self).registered(receiver_id@));
                        assert(old(self).index_of(receiver_id@) == j as int) by {
                            let jj = old(self).index_of(receiver_id@);
                            assert(0 <= jj < old(self).inboxes_v().len() && old(self).inboxes_v()[jj].agent_id == receiver_id@);
                        }
                    }
                    if self.inboxes[j].p2p.len() >= self.config.p2p_capacity {
                        self.push_history(message);
                        self.stats.failed_deliveries = bump_counter(
                            self.stats.failed_deliveries,
                        );
                        Err(AgentError::MessageDeliveryError(DeliveryError::Backpressure))
                    } else {
                        let ghost pre = self.inboxes_v();
                        let copy = message.duplicate();
                        self.inboxes[j].p2p.push(copy);
                        proof {
                            assert(self.inboxes_v()[j as int].p2p =~= pre[j as int].p2p.push(
                                message@,
                            ));
                            assert(forall|i: int|
                                0 <= i < pre.len() && i != j ==> (#[trigger] self.inboxes_v()[i])
                                    == pre[i]);
                            assert(forall|i: int|
                                0 <= i < pre.len() && pre[i].agent_id == receiver_id@ ==> i == j);
                        }
                        self.push_history(message);
                        Ok(())
                    }
                },
            }
        }
    }
}


impl MessageBus {
    /// Receives the next message for `agent_id`: the point-to-point inbox is
    /// preferred, and broadcasts it authored itself are discarded unseen. A
    /// delivered message was either addressed to this agent or broadcast by
    /// another one.
    #[verifier::loop_isolation(false)]
    pub fn recv(&mut self, agent_id: &str) -> (r: Option<Message>)
        requires
            old(self).wf(),
        ensures
            final(self).wf(),
            final(self).config_v() == old(self).config_v(),
            final(self).history_v() == old(self).history_v(),
            final(self).stats_v() == old(self).stats_v(),
            final(self).inboxes_v().len() == old(self).inboxes_v().len(),
            !old(self).registered(agent_id@) ==> r is None && final(self).inboxes_v() == old(self).inboxes_v(),
            old(self).registered(agent_id@) ==> ({
                let j = old(self).index_of(agent_id@);
                let ib = old(self).inboxes_v()[j];
                &&& forall|i: int|
                    0 <= i < old(self).inboxes_v().len() && i != j ==> (#[trigger] final(self).inboxes_v()[i]) == old(self).inboxes_v()[i]
                &&& if ib.p2p.len() > 0 {
                    &&& r matches Some(m) && m@ == ib.p2p[0]
                    &&& final(self).inboxes_v()[j] == (InboxView {
                        p2p: ib.p2p.drop_first(),
                        ..ib
                    })
                } else {
                    let rest = drop_own(ib.bcast, agent_id@);
                    if rest.len() > 0 {
                        &&& r matches Some(m) && m@ == rest[0]
                        &&& final(self).inboxes_v()[j] == (InboxView {
                            bcast: rest.drop_first(),
                            ..ib
                        })
                    } else {
                        &&& r is None
                        &&& final(self).inboxes_v()[j] == (InboxView {
                            bcast: Seq::empty(),
                            ..ib
                        })
                    }
                }
            }),
            match r {
                Some(m) => m@.receiver_id == Some(agent_id@) || (m@.receiver_id is None
                    && m@.sender_id != agent_id@),
                None => true,
            },
    {
        let id_owned = agent_id.to_owned();
        match self.find_inbox(agent_id) {
            None => None,
            Some(j) => {
                proof {
                    assert(old(self).index_of(agent_id@) == j as int) by {
                        let jj = old(self).index_of(agent_id@);
                        assert(0 <= jj < old(self).inboxes_v().len() && old(self).inboxes_v()[jj].agent_id == agent_id@);
                    }
                }
                let ghost ib = old(self).inboxes_v()[j as int];
                if self.inboxes[j].p2p.len() > 0 {
                    let m = self.inboxes[j].p2p.remove(0);
                    proof {
                        assert(self.inboxes_v()[j as int].p2p =~= ib.p2p.drop_first());
                        assert(forall|i: int|
                            0 <= i < old(self).inboxes_v().len() && i != j
                                ==> (#[trigger] self.inboxes_v()[i]) == old(self).inboxes_v()[i]);
                        assert(forall|k2: int|
                            0 <= k2 < self.inboxes_v()[j as int].p2p.len()
                                ==> (#[trigger] self.inboxes_v()[j as int].p2p[k2]) == ib.p2p[k2 + 1]);
                        assert(m@ == ib.p2p[0]);
                    }
                    Some(m)
                } else {
                    while self.inboxes[j].bcast.len() > 0
                        invariant
                            j < self.inboxes.len(),
                            self.inboxes.len() == old(self).inboxes.len(),
                            self.config_v() == old(self).config_v(),
                            self.history_v() == old(self).history_v(),
                            self.stats_v() == old(self).stats_v(),
                            forall|i: int|
                                0 <= i < old(self).inboxes_v().len() && i != j
                                    ==> (#[trigger] self.inboxes_v()[i]) == old(self).inboxes_v()[i],
                            self.inboxes_v()[j as int].agent_id == ib.agent_id,
                            self.inboxes_v()[j as int].p2p == ib.p2p,
                            ib.p2p.len() == 0,
                            self.wf(),
                            drop_own(self.inboxes_v()[j as int].bcast, agent_id@) == drop_own(
                                ib.bcast,
                                agent_id@,
                            ),
                        decreases self.inboxes_v()[j as int].bcast.len(),
                    {
                        let ghost snap = self.inboxes_v();
                        let ghost bcur = self.inboxes_v()[j as int].bcast;
                        let m = self.inboxes[j].bcast.remove(0);
                        proof {
                            assert(self.inboxes_v()[j as int].bcast =~= bcur.drop_first());
                            assert(forall|i: int|
                                0 <= i < snap.len() && i != j ==> (#[trigger] self.inboxes_v()[i]) == snap[i]);
                            assert(forall|k2: int|
                                0 <= k2 < self.inboxes_v()[j as int].bcast.len()
                                    ==> (#[trigger] self.inboxes_v()[j as int].bcast[k2])
                                    == bcur[k2 + 1]);
                            assert(m@ == bcur[0]);
                        }
                        if !(m.sender_id == id_owned) {
                            proof {
                                assert(drop_own(bcur, agent_id@) == bcur);
                                assert(bcur.drop_first() =~= drop_own(bcur, agent_id@)
                                    .drop_first());
                            }
                            return Some(m);
                        }
                        proof {
                            assert(drop_own(bcur, agent_id@) == drop_own(
                                bcur.drop_first(),
                                agent_id@,
                            ));
                        }
                    }
                    proof {
                        assert(self.inboxes_v()[j as int].bcast =~= Seq::<MessageView>::empty());
                        assert(drop_own(ib.bcast, agent_id@) =~= Seq::<MessageView>::empty());
                    }
                    None
                }
            },
        }
    }

    /// One non-blocking receive attempt: the point-to-point inbox first, then
    /// a single look at the broadcast queue, whose head is consumed either
    /// way and delivered only when another agent authored it.
    pub fn try_recv(&mut self, agent_id: &str) -> (r: Option<Message>)
        requires
            old(self).wf(),
        ensures
            final(self).wf(),
            final(self).config_v() == old(self).config_v(),
            final(self).history_v() == old(self).history_v(),
            final(self).stats_v() == old(self).stats_v(),
            final(self).inboxes_v().len() == old(self).inboxes_v().len(),
            !old(self).registered(agent_id@) ==> r is None && final(self).inboxes_v() == old(self).inboxes_v(),
            old(self).registered(agent_id@) ==> ({
                let j = old(self).index_of(agent_id@);
                let ib = old(self).inboxes_v()[j];
                &&& forall|i: int|
                    0 <= i < old(self).inboxes_v().len() && i != j ==> (#[trigger] final(self).inboxes_v()[i]) == old(self).inboxes_v()[i]
                &&& if ib.p2p.len() > 0 {
                    &&& r matches Some(m) && m@ == ib.p2p[0]
                    &&& final(self).inboxes_v()[j] == (InboxView {
                        p2p: ib.p2p.drop_first(),
                        ..ib
                    })
                } else if ib.bcast.len() > 0 {
                    &&& final(self).inboxes_v()[j] == (InboxView {
                        bcast: ib.bcast.drop_first(),
                        ..ib
                    })
                    &&& if ib.bcast[0].sender_id != agent_id@ {
                        r matches Some(m) && m@ == ib.bcast[0]
                    } else {
                        r is None
                    }
                } else {
                    r is None && final(self).inboxes_v()[j] == ib
                }
            }),
            match r {
                Some(m) => m@.receiver_id == Some(agent_id@) || (m@.receiver_id is None
                    && m@.sender_id != agent_id@),
                None => true,
            },
    {
        let id_owned = agent_id.to_owned();
        match self.find_inbox(agent_id) {
            None => None,
            Some(j) => {
                proof {
                    assert(old(self).index_of(agent_id@) == j as int) by {
                        let jj = old(self).index_of(agent_id@);
                        assert(0 <= jj < old(self).inboxes_v().len() && old(self).inboxes_v()[jj].agent_id == agent_id@);
                    }
                }
                let ghost ib = old(self).inboxes_v()[j as int];
                if self.inboxes[j].p2p.len() > 0 {
                    let m = self.inboxes[j].p2p.remove(0);
                    proof {
                        assert(self.inboxes_v()[j as int].p2p =~= ib.p2p.drop_first());
                        assert(forall|i: int|
                            0 <= i < old(self).inboxes_v().len() && i != j
                                ==> (#[trigger] self.inboxes_v()[i]) == old(self).inboxes_v()[i]);
                        assert(forall|k2: int|
                            0 <= k2 < self.inboxes_v()[j as int].p2p.len()
                                ==> (#[trigger] self.inboxes_v()[j as int].p2p[k2]) == ib.p2p[k2 + 1]);
                        assert(m@ == ib.p2p[0]);
                    }
                    Some(m)
                } else if self.inboxes[j].bcast.len() > 0 {
                    let m = self.inboxes[j].bcast.remove(0);
                    proof {
                        assert(self.inboxes_v()[j as int].bcast =~= ib.bcast.drop_first());
                        assert(forall|i: int|
                            0 <= i < old(self).inboxes_v().len() && i != j
                                ==> (#[trigger] self.inboxes_v()[i]) == old(self).inboxes_v()[i]);
                        assert(forall|k2: int|
                            0 <= k2 < self.inboxes_v()[j as int].bcast.len()
                                ==> (#[trigger] self.inboxes_v()[j as int].bcast[k2]) == ib.bcast[k2 + 1]);
                        assert(m@ == ib.bcast[0]);
                    }
                    if !(m.sender_id == id_owned) {
                        Some(m)
                    } else {
                        None
                    }
                } else {
                    None
                }
            },
        }
    }

    /// Receives the next message for `agent_id` that passes `filter`.
    /// Messages that do not pass are consumed and discarded, not re-queued.
    /// The result is exactly the first deliverable message that passes;
    /// `None` means nothing deliverable passed, and the queues are empty.
    #[verifier::loop_isolation(false)]
    pub fn recv_filtered(&mut self, agent_id: &str, filter: &MessageFilter) -> (r: Option<
        Message,
    >)
        requires
            old(self).wf(),
        ensures
            final(self).wf(),
            final(self).config_v() == old(self).config_v(),
            final(self).history_v() == old(self).history_v(),
            final(self).stats_v() == old(self).stats_v(),
            final(self).inboxes_v().len() == old(self).inboxes_v().len(),
            !old(self).registered(agent_id@) ==> r is None && final(self).inboxes_v() == old(self).inboxes_v(),
            old(self).registered(agent_id@) ==> ({
                let j = old(self).index_of(agent_id@);
                let dv = old(self).inboxes_v()[j].deliverable();
                &&& forall|i: int|
                    0 <= i < old(self).inboxes_v().len() && i != j ==> (#[trigger] final(self).inboxes_v()[i]) == old(self).inboxes_v()[i]
                &&& match r {
                    Some(m) => exists|c: int|
                        0 <= c < dv.len() && m@ == dv[c] && filter@.matches_spec(dv[c]) && (
                        forall|i: int| 0 <= i < c ==> !filter@.matches_spec(dv[i])) && final(self).inboxes_v()[j].deliverable() =~= dv.skip(c + 1),
                    None => ({
                        &&& forall|i: int| 0 <= i < dv.len() ==> !filter@.matches_spec(dv[i])
                        &&& final(self).inboxes_v()[j].p2p =~= Seq::<MessageView>::empty()
                        &&& final(self).inboxes_v()[j].bcast =~= Seq::<MessageView>::empty()
                    }),
                }
            }),
            match r {
                Some(m) => filter@.matches_spec(m@) && (m@.receiver_id == Some(agent_id@) || (
                m@.receiver_id is None && m@.sender_id != agent_id@)),
                None => true,
            },
    {
        if self.find_inbox(agent_id).is_none() {
            return None;
        }
        let ghost j = old(self).index_of(agent_id@);
        let ghost dv0 = old(self).inboxes_v()[j].deliverable();
        let ghost c: int = 0;
        proof {
            assert(old(self).registered(agent_id@));
            assert(dv0.skip(0) =~= dv0);
        }
        loop
            invariant
                self.wf(),
                self.config_v() == old(self).config_v(),
                self.history_v() == old(self).history_v(),
                self.stats_v() == old(self).stats_v(),
                self.inboxes_v().len() == old(self).inboxes_v().len(),
                self.registered(agent_id@),
                self.index_of(agent_id@) == j,
                0 <= j < self.inboxes_v().len(),
                forall|i: int|
                    0 <= i < old(self).inboxes_v().len() && i != j
                        ==> (#[trigger] self.inboxes_v()[i]) == old(self).inboxes_v()[i],
                self.inboxes_v()[j].agent_id == agent_id@,
                0 <= c <= dv0.len(),
                self.inboxes_v()[j].deliverable() == dv0.skip(c),
                forall|i: int| 0 <= i < c ==> !filter@.matches_spec(dv0[i]),
            decreases dv0.len() - c,
        {
            let ghost pre_ib = self.inboxes_v()[j];
            let ghost pre_dv = pre_ib.deliverable();
            let got = self.recv(agent_id);
            proof {
                lemma_recv_step(pre_ib, self.inboxes_v()[j], pre_dv);
            }
            match got {
                Some(m) => {
                    proof {
                        assert(pre_dv.len() > 0 && m@ == pre_dv[0]);
                        assert(self.inboxes_v()[j].deliverable() =~= pre_dv.drop_first());
                        assert(pre_dv.drop_first() =~= dv0.skip(c + 1));
                        assert(pre_dv[0] == dv0[c]);
                    }
                    if filter.matches(&m) {
                        return Some(m);
                    }
                    proof {
                        c = c + 1;
                    }
                },
                None => {
                    proof {
                        assert(pre_dv.len() == 0);
                        assert(c == dv0.len());
                    }
                    return None;
                },
            }
        }
    }

    /// A snapshot of the history ring, most recent last, optionally filtered.
    #[verifier::loop_isolation(false)]
    pub fn get_history(&self, filter: Option<&MessageFilter>) -> (r: Vec<Message>)
        ensures
            match filter {
                None => r.deep_view() == self.history_v(),
                Some(f) => r.deep_view() == filtered_history(self.history_v(), f@),
            },
    {
        match filter {
            None => {
                let mut out: Vec<Message> = Vec::new();
                let mut k: usize = 0;
                while k < self.history.len()
                    invariant
                        k <= self.history.len(),
                        out.len() == k,
                        forall|i: int| 0 <= i < k ==> out.deep_view()[i] == self.history_v()[i],
                    decreases self.history.len() - k,
                {
                    out.push(self.history[k].duplicate());
                    k += 1;
                }
                proof {
                    assert(out.deep_view() =~= self.history_v());
                }
                out
            },
            Some(f) => {
                let mut out: Vec<Message> = Vec::new();
                let mut k: usize = 0;
                while k < self.history.len()
                    invariant
                        k <= self.history.len(),
                        out.deep_view() == filtered_history(self.history_v().take(k as int), f@),
                    decreases self.history.len() - k,
                {
                    proof {
                        assert(self.history_v().take(k as int + 1).drop_last() =~= self
                            .history_v().take(k as int));
                        assert(self.history_v().take(k as int + 1).last() == self.history_v()[
                            k as int]);
                    }
                    if f.matches(&self.history[k]) {
                        out.push(self.history[k].duplicate());
                        proof {
                            assert(out.deep_view() =~= filtered_history(
                                self.history_v().take(k as int + 1),
                                f@,
                            ));
                        }
                    }
                    k += 1;
                }
                proof {
                    assert(self.history_v().take(self.history_v().len() as int) =~= self
                        .history_v());
                }
                out
            },
        }
    }

    /// The cumulative counters.
    pub fn get_stats(&self) -> (r: MessageBusStats)
        ensures
            r == self.stats_v(),
    {
        self.stats
    }

    /// The ids of all registered agents, in registration order.
    #[verifier::loop_isolation(false)]
    pub fn get_registered_agents(&self) -> (r: Vec<String>)
        ensures
            r.deep_view().len() == self.inboxes_v().len(),
            forall|i: int|
                0 <= i < self.inboxes_v().len() ==> r.deep_view()[i]
                    == self.inboxes_v()[i].agent_id,
    {
        let mut out: Vec<String> = Vec::new();
        let mut k: usize = 0;
        while k < self.inboxes.len()
            invariant
                k <= self.inboxes.len(),
                out.len() == k,
                forall|i: int| 0 <= i < k ==> out.deep_view()[i] == self.inboxes_v()[i].agent_id,
            decreases self.inboxes.len() - k,
        {
            let ghost dsnap = out.deep_view();
            out.push(self.inboxes[k].agent_id.clone());
            proof {
                assert(out.deep_view()[k as int] == self.inboxes_v()[k as int].agent_id);
                assert(forall|i: int|
                    0 <= i < k ==> (#[trigger] out.deep_view()[i]) == dsnap[i]);
            }
            k += 1;
        }
        out
    }
}

/// The entries of `h` that pass the filter, in order.
pub open spec fn filtered_history(h: Seq<MessageView>, f: MessageFilterView) -> Seq<MessageView>
    decreases h.len(),
{
    if h.len() == 0 {
        Seq::empty()
    } else if f.matches_spec(h.last()) {
        filtered_history(h.drop_last(), f).push(h.last())
    } else {
        filtered_history(h.drop_last(), f)
    }
}

/// One `recv` step consumes exactly the head of what is deliverable.
pub proof fn lemma_recv_step(ib: InboxView, ib2: InboxView, dv: Seq<MessageView>)
    requires
        dv == ib.deliverable(),
        if ib.p2p.len() > 0 {
            ib2 == (InboxView { p2p: ib.p2p.drop_first(), ..ib })
        } else {
            let rest = drop_own(ib.bcast, ib.agent_id);
            if rest.len() > 0 {
                ib2 == (InboxView { bcast: rest.drop_first(), ..ib })
            } else {
                ib2 == (InboxView { bcast: Seq::<MessageView>::empty(), ..ib })
            }
        },
    ensures
        ib.p2p.len() > 0 ==> dv.len() > 0 && dv[0] == ib.p2p[0] && ib2.deliverable()
            =~= dv.drop_first(),
        ib.p2p.len() == 0 && drop_own(ib.bcast, ib.agent_id).len() > 0 ==> dv.len() > 0 && dv[0]
            == drop_own(ib.bcast, ib.agent_id)[0] && ib2.deliverable() =~= dv.drop_first(),
        ib.p2p.len() == 0 && drop_own(ib.bcast, ib.agent_id).len() == 0 ==> dv.len() == 0
            && ib2.deliverable() =~= dv,
{
    lemma_keep_other_drop_own(ib.bcast, ib.agent_id);
    lemma_drop_own_head(ib.bcast, ib.agent_id);
    if ib.p2p.len() > 0 {
        assert(dv[0] == ib.p2p[0]);
        assert(ib2.deliverable() =~= dv.drop_first());
    } else {
        let rest = drop_own(ib.bcast, ib.agent_id);
        if rest.len() > 0 {
            assert(rest[0].sender_id != ib.agent_id);
            assert(keep_other(rest, ib.agent_id) == seq![rest[0]] + keep_other(
                rest.drop_first(),
                ib.agent_id,
            ));
            assert(dv =~= keep_other(ib.bcast, ib.agent_id));
            assert(dv.len() > 0 && dv[0] == rest[0]);
            assert(ib2.deliverable() =~= dv.drop_first());
        } else {
            assert(keep_other(rest, ib.agent_id) =~= Seq::<MessageView>::empty());
            assert(dv =~= Seq::<MessageView>::empty());
            assert(ib2.deliverable() =~= Seq::<MessageView>::empty());
        }
    }
}


} // verus!
