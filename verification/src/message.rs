//! The message envelope of the fabric, its kinds, priorities and filters.

use vstd::prelude::*;

use crate::clock::current_epoch_secs;
use crate::ids::fresh_uuid;
use crate::json::{JsonValue, JsonView};

verus! {

/// Kind of a message.
#[derive(Debug)]
pub enum MessageType {
    TaskAssignment,
    StatusUpdate,
    ResultNotification,
    ResourceRequest,
    ResourceResponse,
    Heartbeat,
    Error,
    Control(ControlCommand),
    Custom(String),
}

/// A control command carried by a `Control` message.
#[derive(Debug, Clone, Copy, PartialEq, Eq, Structural)]
pub enum ControlCommand {
    Start,
    Stop,
    Pause,
    Resume,
    Shutdown,
}

/// Ghost form of [`MessageType`].
pub enum MessageTypeView {
    TaskAssignment,
    StatusUpdate,
    ResultNotification,
    ResourceRequest,
    ResourceResponse,
    Heartbeat,
    Error,
    Control(ControlCommand),
    Custom(Seq<char>),
}

impl View for MessageType {
    type V = MessageTypeView;

    open spec fn view(&self) -> MessageTypeView {
        match self {
            MessageType::TaskAssignment => MessageTypeView::TaskAssignment,
            MessageType::StatusUpdate => MessageTypeView::StatusUpdate,
            MessageType::ResultNotification => MessageTypeView::ResultNotification,
            MessageType::ResourceRequest => MessageTypeView::ResourceRequest,
            MessageType::ResourceResponse => MessageTypeView::ResourceResponse,
            MessageType::Heartbeat => MessageTypeView::Heartbeat,
            MessageType::Error => MessageTypeView::Error,
            MessageType::Control(c) => MessageTypeView::Control(*c),
            MessageType::Custom(tag) => MessageTypeView::Custom(tag@),
        }
    }
}

impl DeepView for MessageType {
    type V = MessageTypeView;

    open spec fn deep_view(&self) -> MessageTypeView {
        self.view()
    }
}

impl MessageType {
    /// Variant number, used to decide equality.
    pub open spec fn discriminant_spec(v: MessageTypeView) -> int {
        match v {
            MessageTypeView::TaskAssignment => 0,
            MessageTypeView::StatusUpdate => 1,
            MessageTypeView::ResultNotification => 2,
            MessageTypeView::ResourceRequest => 3,
            MessageTypeView::ResourceResponse => 4,
            MessageTypeView::Heartbeat => 5,
            MessageTypeView::Error => 6,
            MessageTypeView::Control(_) => 7,
            MessageTypeView::Custom(_) => 8,
        }
    }

    /// Run-time variant number, matching `discriminant_spec`.
    pub fn discriminant(&self) -> (k: u8)
        ensures
            k as int == MessageType::discriminant_spec(self@),
    {
        match self {
            MessageType::TaskAssignment => 0,
            MessageType::StatusUpdate => 1,
            MessageType::ResultNotification => 2,
            MessageType::ResourceRequest => 3,
            MessageType::ResourceResponse => 4,
            MessageType::Heartbeat => 5,
            MessageType::Error => 6,
            MessageType::Control(_) => 7,
            MessageType::Custom(_) => 8,
        }
    }

    /// The control command, where this is a `Control` message.
    fn control_part(&self) -> (r: Option<ControlCommand>)
        ensures
            match r {
                Some(c) => self@ == MessageTypeView::Control(c),
                None => !(self@ is Control),
            },
    {
        match self {
            MessageType::Control(c) => Some(*c),
            _ => None,
        }
    }

    /// The custom tag, where there is one.
    fn custom_part(&self) -> (r: Option<&String>)
        ensures
            match r {
                Some(s) => self@ == MessageTypeView::Custom(s@),
                None => !(self@ is Custom),
            },
    {
        match self {
            MessageType::Custom(s) => Some(s),
            _ => None,
        }
    }

    /// Value-preserving copy.
    pub fn duplicate(&self) -> (r: MessageType)
        ensures
            r@ == self@,
    {
        match self {
            MessageType::TaskAssignment => MessageType::TaskAssignment,
            MessageType::StatusUpdate => MessageType::StatusUpdate,
            MessageType::ResultNotification => MessageType::ResultNotification,
            MessageType::ResourceRequest => MessageType::ResourceRequest,
            MessageType::ResourceResponse => MessageType::ResourceResponse,
            MessageType::Heartbeat => MessageType::Heartbeat,
            MessageType::Error => MessageType::Error,
            MessageType::Control(c) => MessageType::Control(*c),
            MessageType::Custom(tag) => MessageType::Custom(tag.clone()),
        }
    }

    /// Structural equality, reflected to the views.
    pub fn same_as(&self, other: &MessageType) -> (r: bool)
        ensures
            r == (self@ == other@),
    {
        if self.discriminant() != other.discriminant() {
            return false;
        }
        match self.control_part() {
            Some(a) => match other.control_part() {
                Some(b) => a == b,
                None => false,
            },
            None => match self.custom_part() {
                Some(a) => match other.custom_part() {
                    Some(b) => *a == *b,
                    None => false,
                },
                None => true,
            },
        }
    }
}

/// Priority of a message: a four-level total order.
#[derive(Debug, Clone, Copy, PartialEq, Eq, PartialOrd, Ord, Hash, Structural)]
pub enum MessagePriority {
    Low,
    Normal,
    High,
    Urgent,
}

impl MessagePriority {
    /// Numeric rank; larger means more urgent.
    pub open spec fn rank_spec(self) -> int {
        match self {
            MessagePriority::Low => 0,
            MessagePriority::Normal => 1,
            MessagePriority::High => 2,
            MessagePriority::Urgent => 3,
        }
    }

    /// Numeric rank, usable at run time.
    pub fn rank(&self) -> (r: u8)
        ensures
            r as int == self.rank_spec(),
    {
        match self {
            MessagePriority::Low => 0,
            MessagePriority::Normal => 1,
            MessagePriority::High => 2,
            MessagePriority::Urgent => 3,
        }
    }
}

impl core::default::Default for MessagePriority {
    /// The default priority is `Normal`.
    fn default() -> (r: MessagePriority)
        ensures
            r == MessagePriority::Normal,
    {
        MessagePriority::Normal
    }
}

/// The envelope routed by the bus. A missing `receiver_id` means broadcast.
#[derive(Debug)]
pub struct Message {
    pub id: String,
    pub sender_id: String,
    pub receiver_id: Option<String>,
    pub message_type: MessageType,
    pub priority: MessagePriority,
    pub payload: JsonValue,
    pub timestamp: u64,
    pub correlation_id: Option<String>,
    pub expires_at: Option<u64>,
}

/// Ghost form of [`Message`].
pub struct MessageView {
    pub id: Seq<char>,
    pub sender_id: Seq<char>,
    pub receiver_id: Option<Seq<char>>,
    pub message_type: MessageTypeView,
    pub priority: MessagePriority,
    pub payload: JsonView,
    pub timestamp: int,
    pub correlation_id: Option<Seq<char>>,
    pub expires_at: Option<int>,
}

/// Ghost form of an optional string.
pub open spec fn opt_str_view(o: Option<String>) -> Option<Seq<char>> {
    match o {
        Some(s) => Some(s@),
        None => None,
    }
}

/// Ghost form of an optional second count.
pub open spec fn opt_u64_view(o: Option<u64>) -> Option<int> {
    match o {
        Some(n) => Some(n as int),
        None => None,
    }
}

impl View for Message {
    type V = MessageView;

    open spec fn view(&self) -> MessageView {
        MessageView {
            id: self.id@,
            sender_id: self.sender_id@,
            receiver_id: opt_str_view(self.receiver_id),
            message_type: self.message_type@,
            priority: self.priority,
            payload: self.payload@,
            timestamp: self.timestamp as int,
            correlation_id: opt_str_view(self.correlation_id),
            expires_at: opt_u64_view(self.expires_at),
        }
    }
}

impl DeepView for Message {
    type V = MessageView;

    open spec fn deep_view(&self) -> MessageView {
        self.view()
    }
}

impl MessageView {
    /// Whether the message counts as expired at time `now`.
    pub open spec fn expired_at(self, now: int) -> bool {
        match self.expires_at {
            Some(e) => now > e,
            None => false,
        }
    }

    /// Whether the message is a broadcast.
    pub open spec fn is_broadcast_spec(self) -> bool {
        self.receiver_id is None
    }
}

/// Duplicates an optional string.
pub fn duplicate_opt_string(o: &Option<String>) -> (r: Option<String>)
    ensures
        opt_str_view(r) == opt_str_view(*o),
{
    match o {
        Some(s) => Some(s.clone()),
        None => None,
    }
}

impl Message {
    /// A fresh point-to-point or broadcast message with default priority and
    /// no expiry. The identifier is drawn at random and the timestamp read
    /// from the clock; every other field is exactly the argument.
    pub fn new(
        sender_id: String,
        receiver_id: Option<String>,
        message_type: MessageType,
        payload: JsonValue,
    ) -> (r: Message)
        ensures
            r@.sender_id == sender_id@,
            r@.receiver_id == opt_str_view(receiver_id),
            r@.message_type == message_type@,
            r@.payload == payload@,
            r@.priority == MessagePriority::Normal,
            r@.correlation_id is None,
            r@.expires_at is None,
    {
        Message {
            id: fresh_uuid(),
            sender_id,
            receiver_id,
            message_type,
            priority: MessagePriority::Normal,
            payload,
            timestamp: current_epoch_secs(),
            correlation_id: None,
            expires_at: None,
        }
    }

    /// A broadcast message: `new` with no receiver.
    pub fn broadcast(sender_id: String, message_type: MessageType, payload: JsonValue) -> (r:
        Message)
        ensures
            r@.sender_id == sender_id@,
            r@.receiver_id is None,
            r@.message_type == message_type@,
            r@.payload == payload@,
            r@.priority == MessagePriority::Normal,
            r@.correlation_id is None,
            r@.expires_at is None,
    {
        Message::new(sender_id, None, message_type, payload)
    }

    /// A response message: `new` with the correlation id of the request.
    pub fn response(
        sender_id: String,
        receiver_id: String,
        message_type: MessageType,
        payload: JsonValue,
        correlation_id: String,
    ) -> (r: Message)
        ensures
            r@.sender_id == sender_id@,
            r@.receiver_id == Some(receiver_id@),
            r@.message_type == message_type@,
            r@.payload == payload@,
            r@.priority == MessagePriority::Normal,
            r@.correlation_id == Some(correlation_id@),
            r@.expires_at is None,
    {
        let mut msg = Message::new(sender_id, Some(receiver_id), message_type, payload);
        msg.correlation_id = Some(correlation_id);
        msg
    }

    /// The same message at another priority.
    pub fn with_priority(self, priority: MessagePriority) -> (r: Message)
        ensures
            r@ == (MessageView { priority, ..self@ }),
    {
        Message { priority, ..self }
    }

    /// The same message with an expiry time. A set expiry never precedes
    /// the message's creation time.
    pub fn with_expiry(self, expires_at: u64) -> (r: Message)
        requires
            self.timestamp <= expires_at,
        ensures
            r@ == (MessageView { expires_at: Some(expires_at as int), ..self@ }),
    {
        Message { expires_at: Some(expires_at), ..self }
    }

    /// Whether the message has expired at time `now`.
    pub fn is_expired(&self, now: u64) -> (r: bool)
        ensures
            r == self@.expired_at(now as int),
    {
        match self.expires_at {
            Some(e) => now > e,
            None => false,
        }
    }

    /// Whether the message is a broadcast.
    pub fn is_broadcast(&self) -> (r: bool)
        ensures
            r == self@.is_broadcast_spec(),
    {
        self.receiver_id.is_none()
    }

    /// Value-preserving copy.
    pub fn duplicate(&self) -> (r: Message)
        ensures
            r@ == self@,
    {
        Message {
            id: self.id.clone(),
            sender_id: self.sender_id.clone(),
            receiver_id: duplicate_opt_string(&self.receiver_id),
            message_type: self.message_type.duplicate(),
            priority: self.priority,
            payload: self.payload.duplicate(),
            timestamp: self.timestamp,
            correlation_id: duplicate_opt_string(&self.correlation_id),
            expires_at: self.expires_at,
        }
    }
}

/// A predicate over messages, used by history queries and filtered receives.
#[derive(Debug)]
pub struct MessageFilter {
    pub sender_id: Option<String>,
    pub message_types: Option<Vec<MessageType>>,
    pub min_priority: Option<MessagePriority>,
}

/// Ghost form of [`MessageFilter`].
pub struct MessageFilterView {
    pub sender_id: Option<Seq<char>>,
    pub message_types: Option<Seq<MessageTypeView>>,
    pub min_priority: Option<MessagePriority>,
}

impl View for MessageFilter {
    type V = MessageFilterView;

    open spec fn view(&self) -> MessageFilterView {
        MessageFilterView {
            sender_id: opt_str_view(self.sender_id),
            message_types: match self.message_types {
                Some(ts) => Some(ts.deep_view()),
                None => None,
            },
            min_priority: self.min_priority,
        }
    }
}

impl MessageFilterView {
    /// Whether a message passes the filter: every given criterion must hold.
    pub open spec fn matches_spec(self, m: MessageView) -> bool {
        &&& match self.sender_id {
            Some(s) => m.sender_id == s,
            None => true,
        }
        &&& match self.message_types {
            Some(ts) => ts.contains(m.message_type),
            None => true,
        }
        &&& match self.min_priority {
            Some(p) => m.priority.rank_spec() >= p.rank_spec(),
            None => true,
        }
    }
}

/// Whether `ts` contains a type equal to `t`.
fn types_contain(ts: &Vec<MessageType>, t: &MessageType) -> (r: bool)
    ensures
        r == ts.deep_view().contains(t@),
{
    let mut k: usize = 0;
    while k < ts.len()
        invariant
            k <= ts.len(),
            forall|j: int| 0 <= j < k ==> ts.deep_view()[j] != t@,
        decreases ts.len() - k,
    {
        if ts[k].same_as(t) {
            proof {
                assert(ts.deep_view()[k as int] == t@);
            }
            return true;
        }
        k += 1;
    }
    proof {
        assert(forall|j: int| 0 <= j < ts.deep_view().len() ==> ts.deep_view()[j] != t@);
    }
    false
}

impl MessageFilter {
    /// A filter that passes everything.
    pub fn new() -> (r: MessageFilter)
        ensures
            r@.sender_id is None,
            r@.message_types is None,
            r@.min_priority is None,
    {
        MessageFilter { sender_id: None, message_types: None, min_priority: None }
    }

    /// The same filter restricted to one sender.
    pub fn from_sender(self, sender_id: String) -> (r: MessageFilter)
        ensures
            r@ == (MessageFilterView { sender_id: Some(sender_id@), ..self@ }),
    {
        MessageFilter { sender_id: Some(sender_id), ..self }
    }

    /// The same filter restricted to a set of message types.
    pub fn with_types(self, types: Vec<MessageType>) -> (r: MessageFilter)
        ensures
            r@ == (MessageFilterView { message_types: Some(types.deep_view()), ..self@ }),
    {
        MessageFilter { message_types: Some(types), ..self }
    }

    /// The same filter restricted to priorities at or above `priority`.
    pub fn with_min_priority(self, priority: MessagePriority) -> (r: MessageFilter)
        ensures
            r@ == (MessageFilterView { min_priority: Some(priority), ..self@ }),
    {
        MessageFilter { min_priority: Some(priority), ..self }
    }

    /// Whether `message` passes the filter.
    pub fn matches(&self, message: &Message) -> (r: bool)
        ensures
            r == self@.matches_spec(message@),
    {
        if let Some(sender) = &self.sender_id {
            if !(message.sender_id == *sender) {
                return false;
            }
        }
        if let Some(types) = &self.message_types {
            if !types_contain(types, &message.message_type) {
                return false;
            }
        }
        if let Some(min_priority) = &self.min_priority {
            if message.priority.rank() < min_priority.rank() {
                return false;
            }
        }
        true
    }
}

} // verus!
