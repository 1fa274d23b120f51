//! The message wire form: the envelope as a structured value with the
//! canonical field layout, and the exact decoder for it. The byte-level JSON
//! text is the host's concern; this file fixes what the text must say.

use vstd::prelude::*;

use crate::errors::{AgentError, AgentErrorView};
use crate::json::{JsonValue, JsonView};
use crate::message::{
    ControlCommand, Message, MessagePriority, MessageType, MessageTypeView, MessageView,
};

verus! {

/// The wire tag of a message kind: a plain string for the closed kinds, a
/// one-pair object for the parameterized ones.
pub open spec fn encode_kind(kind: MessageTypeView) -> JsonView {
    match kind {
        MessageTypeView::TaskAssignment => JsonView::Str("TaskAssignment"@),
        MessageTypeView::StatusUpdate => JsonView::Str("StatusUpdate"@),
        MessageTypeView::ResultNotification => JsonView::Str("ResultNotification"@),
        MessageTypeView::ResourceRequest => JsonView::Str("ResourceRequest"@),
        MessageTypeView::ResourceResponse => JsonView::Str("ResourceResponse"@),
        MessageTypeView::Heartbeat => JsonView::Str("Heartbeat"@),
        MessageTypeView::Error => JsonView::Str("Error"@),
        MessageTypeView::Control(c) => JsonView::Obj(
            seq![("Control"@, JsonView::Str(control_label(c)))],
        ),
        MessageTypeView::Custom(tag) => JsonView::Obj(seq![("Custom"@, JsonView::Str(tag))]),
    }
}

/// The wire label of a control command.
pub open spec fn control_label(c: ControlCommand) -> Seq<char> {
    match c {
        ControlCommand::Start => "Start"@,
        ControlCommand::Stop => "Stop"@,
        ControlCommand::Pause => "Pause"@,
        ControlCommand::Resume => "Resume"@,
        ControlCommand::Shutdown => "Shutdown"@,
    }
}

/// A string field or null.
pub open spec fn encode_opt_str(o: Option<Seq<char>>) -> JsonView {
    match o {
        Some(s) => JsonView::Str(s),
        None => JsonView::Null,
    }
}

/// A second count or null.
pub open spec fn encode_opt_int(o: Option<int>) -> JsonView {
    match o {
        Some(n) => JsonView::Int(n),
        None => JsonView::Null,
    }
}

/// The wire form of a message: one object with the nine envelope fields in
/// canonical order, priority as its rank and times in epoch seconds.
pub open spec fn encode_message(m: MessageView) -> JsonView {
    JsonView::Obj(
        seq![
            ("id"@, JsonView::Str(m.id)),
            ("sender_id"@, JsonView::Str(m.sender_id)),
            ("receiver_id"@, encode_opt_str(m.receiver_id)),
            ("message_type"@, encode_kind(m.message_type)),
            ("priority"@, JsonView::Int(m.priority.rank_spec())),
            ("payload"@, m.payload),
            ("timestamp"@, JsonView::Int(m.timestamp)),
            ("correlation_id"@, encode_opt_str(m.correlation_id)),
            ("expires_at"@, encode_opt_int(m.expires_at)),
        ],
    )
}

/// The message a canonical wire object denotes, if it is one and every
/// field is representable.
pub open spec fn decode_message(v: JsonView) -> Option<MessageView> {
    match v {
        JsonView::Obj(pairs) => {
            if pairs.len() == 9 && pairs[0].0 == "id"@ && pairs[1].0 == "sender_id"@
                && pairs[2].0 == "receiver_id"@ && pairs[3].0 == "message_type"@ && pairs[4].0
                == "priority"@ && pairs[5].0 == "payload"@ && pairs[6].0 == "timestamp"@
                && pairs[7].0 == "correlation_id"@ && pairs[8].0 == "expires_at"@ {
                match (decode_str(pairs[0].1), decode_str(pairs[1].1)) {
                    (Some(id), Some(sender)) => match (
                        decode_opt_str(pairs[2].1),
                        decode_kind(pairs[3].1),
                        decode_priority(pairs[4].1),
                    ) {
                        (Some(receiver), Some(kind), Some(priority)) => match (
                            decode_secs(pairs[6].1),
                            decode_opt_str(pairs[7].1),
                            decode_opt_secs(pairs[8].1),
                        ) {
                            (Some(timestamp), Some(correlation), Some(expires)) => Some(
                                MessageView {
                                    id,
                                    sender_id: sender,
                                    receiver_id: receiver,
                                    message_type: kind,
                                    priority,
                                    payload: pairs[5].1,
                                    timestamp,
                                    correlation_id: correlation,
                                    expires_at: expires,
                                },
                            ),
                            _ => None,
                        },
                        _ => None,
                    },
                    _ => None,
                }
            } else {
                None
            }
        },
        _ => None,
    }
}

/// A string field.
pub open spec fn decode_str(v: JsonView) -> Option<Seq<char>> {
    match v {
        JsonView::Str(s) => Some(s),
        _ => None,
    }
}

/// A string field or null.
pub open spec fn decode_opt_str(v: JsonView) -> Option<Option<Seq<char>>> {
    match v {
        JsonView::Str(s) => Some(Some(s)),
        JsonView::Null => Some(None),
        _ => None,
    }
}

/// A second count that fits the machine representation.
pub open spec fn decode_secs(v: JsonView) -> Option<int> {
    match v {
        JsonView::Int(n) => if 0 <= n <= u64::MAX {
            Some(n)
        } else {
            None
        },
        _ => None,
    }
}

/// A second count or null.
pub open spec fn decode_opt_secs(v: JsonView) -> Option<Option<int>> {
    match v {
        JsonView::Int(n) => if 0 <= n <= u64::MAX {
            Some(Some(n))
        } else {
            None
        },
        JsonView::Null => Some(None),
        _ => None,
    }
}

/// A priority rank.
pub open spec fn decode_priority(v: JsonView) -> Option<MessagePriority> {
    match v {
        JsonView::Int(n) => if n == 0 {
            Some(MessagePriority::Low)
        } else if n == 1 {
            Some(MessagePriority::Normal)
        } else if n == 2 {
            Some(MessagePriority::High)
        } else if n == 3 {
            Some(MessagePriority::Urgent)
        } else {
            None
        },
        _ => None,
    }
}

/// A message kind tag.
pub open spec fn decode_kind(v: JsonView) -> Option<MessageTypeView> {
    match v {
        JsonView::Str(s) => if s == "TaskAssignment"@ {
            Some(MessageTypeView::TaskAssignment)
        } else if s == "StatusUpdate"@ {
            Some(MessageTypeView::StatusUpdate)
        } else if s == "ResultNotification"@ {
            Some(MessageTypeView::ResultNotification)
        } else if s == "ResourceRequest"@ {
            Some(MessageTypeView::ResourceRequest)
        } else if s == "ResourceResponse"@ {
            Some(MessageTypeView::ResourceResponse)
        } else if s == "Heartbeat"@ {
            Some(MessageTypeView::Heartbeat)
        } else if s == "Error"@ {
            Some(MessageTypeView::Error)
        } else {
            None
        },
        JsonView::Obj(pairs) => if pairs.len() == 1 && pairs[0].0 == "Control"@ {
            match pairs[0].1 {
                JsonView::Str(label) => decode_control(label),
                _ => None,
            }
        } else if pairs.len() == 1 && pairs[0].0 == "Custom"@ {
            match pairs[0].1 {
                JsonView::Str(tag) => Some(MessageTypeView::Custom(tag)),
                _ => None,
            }
        } else {
            None
        },
        _ => None,
    }
}

/// A control command label.
pub open spec fn decode_control(label: Seq<char>) -> Option<MessageTypeView> {
    if label == "Start"@ {
        Some(MessageTypeView::Control(ControlCommand::Start))
    } else if label == "Stop"@ {
        Some(MessageTypeView::Control(ControlCommand::Stop))
    } else if label == "Pause"@ {
        Some(MessageTypeView::Control(ControlCommand::Pause))
    } else if label == "Resume"@ {
        Some(MessageTypeView::Control(ControlCommand::Resume))
    } else if label == "Shutdown"@ {
        Some(MessageTypeView::Control(ControlCommand::Shutdown))
    } else {
        None
    }
}

/// Serializing and then deserializing a message preserves every field: the
/// decoder inverts the encoder on every message the library can hold.
pub proof fn lemma_message_round_trip(m: MessageView)
    requires
        0 <= m.timestamp <= u64::MAX,
        match m.expires_at {
            Some(e) => 0 <= e <= u64::MAX,
            None => true,
        },
    ensures
        decode_message(encode_message(m)) == Some(m),
{
    reveal_strlit("TaskAssignment");
    reveal_strlit("StatusUpdate");
    reveal_strlit("ResultNotification");
    reveal_strlit("ResourceRequest");
    reveal_strlit("ResourceResponse");
    reveal_strlit("Heartbeat");
    reveal_strlit("Error");
    reveal_strlit("Start");
    reveal_strlit("Stop");
    reveal_strlit("Pause");
    reveal_strlit("Resume");
    reveal_strlit("Shutdown");
    reveal_strlit("Control");
    reveal_strlit("Custom");
    let pairs = encode_message(m)->Obj_0;
    assert(pairs.len() == 9);
    assert(decode_str(pairs[0].1) == Some(m.id));
    assert(decode_str(pairs[1].1) == Some(m.sender_id));
    assert(decode_opt_str(pairs[2].1) == Some(m.receiver_id));
    assert(decode_kind(encode_kind(m.message_type)) == Some(m.message_type)) by {
        reveal_strlit("TaskAssignment");
        reveal_strlit("StatusUpdate");
        reveal_strlit("ResultNotification");
        reveal_strlit("ResourceRequest");
        reveal_strlit("ResourceResponse");
        reveal_strlit("Heartbeat");
        reveal_strlit("Error");
        reveal_strlit("Start");
        reveal_strlit("Stop");
        reveal_strlit("Pause");
        reveal_strlit("Resume");
        reveal_strlit("Shutdown");
        reveal_strlit("Control");
        reveal_strlit("Custom");
        assert(("TaskAssignment"@).len() == 14);
        assert(("StatusUpdate"@).len() == 12);
        assert(("ResultNotification"@).len() == 18);
        assert(("ResourceRequest"@).len() == 15);
        assert(("ResourceResponse"@).len() == 16);
        assert(("Heartbeat"@).len() == 9);
        assert(("Error"@).len() == 5);
        assert(("Start"@).len() == 5);
        assert(("Stop"@).len() == 4);
        assert(("Pause"@).len() == 5);
        assert(("Resume"@).len() == 6);
        assert(("Shutdown"@).len() == 8);
        assert(("Control"@).len() == 7);
        assert(("Custom"@).len() == 6);
        assert(("Start"@)[0] == 'S' && ("Pause"@)[0] == 'P');
        assert(("Error"@)[0] == 'E' && ("Start"@)[0] == 'S' && ("Pause"@)[0] == 'P');
        match m.message_type {
            MessageTypeView::TaskAssignment => {
                assert(decode_kind(JsonView::Str("TaskAssignment"@)) == Some(
                    MessageTypeView::TaskAssignment,
                ));
            },
            MessageTypeView::StatusUpdate => {
                assert(decode_kind(JsonView::Str("StatusUpdate"@)) == Some(
                    MessageTypeView::StatusUpdate,
                ));
            },
            MessageTypeView::ResultNotification => {
                assert(decode_kind(JsonView::Str("ResultNotification"@)) == Some(
                    MessageTypeView::ResultNotification,
                ));
            },
            MessageTypeView::ResourceRequest => {
                assert(decode_kind(JsonView::Str("ResourceRequest"@)) == Some(
                    MessageTypeView::ResourceRequest,
                ));
            },
            MessageTypeView::ResourceResponse => {
                assert(decode_kind(JsonView::Str("ResourceResponse"@)) == Some(
                    MessageTypeView::ResourceResponse,
                ));
            },
            MessageTypeView::Heartbeat => {
                assert(decode_kind(JsonView::Str("Heartbeat"@)) == Some(
                    MessageTypeView::Heartbeat,
                ));
            },
            MessageTypeView::Error => {
                assert(decode_kind(JsonView::Str("Error"@)) == Some(MessageTypeView::Error));
            },
            MessageTypeView::Control(c) => {
                let w = encode_kind(m.message_type);
                assert(w->Obj_0.len() == 1 && w->Obj_0[0].0 == "Control"@);
                match c {
                    ControlCommand::Start => {
                        assert(decode_control("Start"@) == Some(m.message_type));
                    },
                    ControlCommand::Stop => {
                        assert(decode_control("Stop"@) == Some(m.message_type));
                    },
                    ControlCommand::Pause => {
                        assert(decode_control("Pause"@) == Some(m.message_type));
                    },
                    ControlCommand::Resume => {
                        assert(decode_control("Resume"@) == Some(m.message_type));
                    },
                    ControlCommand::Shutdown => {
                        assert(decode_control("Shutdown"@) == Some(m.message_type));
                    },
                }
            },
            MessageTypeView::Custom(tag) => {
                let w = encode_kind(m.message_type);
                assert(w->Obj_0.len() == 1 && w->Obj_0[0].0 == "Custom"@);
                assert("Custom"@ != "Control"@);
            },
        }
    }
    assert(decode_kind(pairs[3].1) == Some(m.message_type));
    assert(decode_priority(pairs[4].1) == Some(m.priority));
    assert(decode_secs(pairs[6].1) == Some(m.timestamp));
    assert(decode_opt_str(pairs[7].1) == Some(m.correlation_id));
    assert(decode_opt_secs(pairs[8].1) == Some(m.expires_at));
}

/// The wire form of `message`, exactly `encode_message` of its view. The
/// wire integer is signed, so the times must fit it; every clock-derived
/// time does.
pub fn message_to_json(message: &Message) -> (r: JsonValue)
    requires
        message.timestamp <= i64::MAX,
        match message.expires_at {
            Some(e) => e <= i64::MAX,
            None => true,
        },
    ensures
        r@ == encode_message(message@),
{
    let mut pairs: Vec<(String, JsonValue)> = Vec::new();
    let p0 = ("id".to_owned(), JsonValue::Str(message.id.clone()));
    proof {
        assert(p0.0@ == "id"@ && p0.1@ == JsonView::Str(message@.id));
    }
    pairs.push(p0);
    let p1 = ("sender_id".to_owned(), JsonValue::Str(message.sender_id.clone()));
    proof {
        assert(p1.0@ == "sender_id"@ && p1.1@ == JsonView::Str(message@.sender_id));
    }
    pairs.push(p1);
    let receiver = match &message.receiver_id {
        Some(rid) => JsonValue::Str(rid.clone()),
        None => JsonValue::Null,
    };
    let p2 = ("receiver_id".to_owned(), receiver);
    proof {
        assert(p2.0@ == "receiver_id"@ && p2.1@ == encode_opt_str(message@.receiver_id));
    }
    pairs.push(p2);
    let p3 = ("message_type".to_owned(), kind_to_json(&message.message_type));
    proof {
        assert(p3.0@ == "message_type"@ && p3.1@ == encode_kind(message@.message_type));
    }
    pairs.push(p3);
    let p4 = ("priority".to_owned(), JsonValue::Int(message.priority.rank() as i64));
    proof {
        assert(p4.0@ == "priority"@ && p4.1@ == JsonView::Int(message@.priority.rank_spec()));
    }
    pairs.push(p4);
    let p5 = ("payload".to_owned(), message.payload.duplicate());
    proof {
        assert(p5.0@ == "payload"@ && p5.1@ == message@.payload);
    }
    pairs.push(p5);
    let p6 = ("timestamp".to_owned(), JsonValue::Int(clamp_i64(message.timestamp)));
    proof {
        assert(p6.0@ == "timestamp"@ && p6.1@ == JsonView::Int(message@.timestamp));
    }
    pairs.push(p6);
    let correlation = match &message.correlation_id {
        Some(cid) => JsonValue::Str(cid.clone()),
        None => JsonValue::Null,
    };
    let p7 = ("correlation_id".to_owned(), correlation);
    proof {
        assert(p7.0@ == "correlation_id"@ && p7.1@ == encode_opt_str(message@.correlation_id));
    }
    pairs.push(p7);
    let expires = match message.expires_at {
        Some(e) => JsonValue::Int(clamp_i64(e)),
        None => JsonValue::Null,
    };
    let p8 = ("expires_at".to_owned(), expires);
    proof {
        assert(p8.0@ == "expires_at"@ && p8.1@ == encode_opt_int(message@.expires_at));
    }
    pairs.push(p8);
    let r = JsonValue::Obj(pairs);
    proof {
        assert(r@->Obj_0 =~= encode_message(message@)->Obj_0);
        assert(r@ == encode_message(message@));
    }
    r
}

/// A second count as a signed wire integer.
fn clamp_i64(n: u64) -> (r: i64)
    requires
        n <= i64::MAX,
    ensures
        r == n,
{
    n as i64
}

/// The wire tag of a message kind.
fn kind_to_json(kind: &MessageType) -> (r: JsonValue)
    ensures
        r@ == encode_kind(kind@),
{
    match kind {
        MessageType::TaskAssignment => JsonValue::Str("TaskAssignment".to_owned()),
        MessageType::StatusUpdate => JsonValue::Str("StatusUpdate".to_owned()),
        MessageType::ResultNotification => JsonValue::Str("ResultNotification".to_owned()),
        MessageType::ResourceRequest => JsonValue::Str("ResourceRequest".to_owned()),
        MessageType::ResourceResponse => JsonValue::Str("ResourceResponse".to_owned()),
        MessageType::Heartbeat => JsonValue::Str("Heartbeat".to_owned()),
        MessageType::Error => JsonValue::Str("Error".to_owned()),
        MessageType::Control(c) => {
            let label = match c {
                ControlCommand::Start => "Start".to_owned(),
                ControlCommand::Stop => "Stop".to_owned(),
                ControlCommand::Pause => "Pause".to_owned(),
                ControlCommand::Resume => "Resume".to_owned(),
                ControlCommand::Shutdown => "Shutdown".to_owned(),
            };
            proof {
                assert(label@ == control_label(*c));
                assert(kind@ == MessageTypeView::Control(*c));
            }
            let mut inner: Vec<(String, JsonValue)> = Vec::new();
            let pair = ("Control".to_owned(), JsonValue::Str(label));
            proof {
                assert(pair.0@ == "Control"@ && pair.1@ == JsonView::Str(control_label(*c)));
            }
            inner.push(pair);
            let r = JsonValue::Obj(inner);
            proof {
                assert(r@->Obj_0 =~= encode_kind(kind@)->Obj_0);
                assert(r@ == encode_kind(kind@));
            }
            r
        },
        MessageType::Custom(tag) => {
            let mut inner: Vec<(String, JsonValue)> = Vec::new();
            let pair = ("Custom".to_owned(), JsonValue::Str(tag.clone()));
            proof {
                assert(pair.0@ == "Custom"@ && pair.1@ == JsonView::Str(tag@));
            }
            inner.push(pair);
            let r = JsonValue::Obj(inner);
            proof {
                assert(r@->Obj_0 =~= encode_kind(kind@)->Obj_0);
                assert(r@ == encode_kind(kind@));
            }
            r
        },
    }
}

/// The message a wire value denotes, or `ParseError` where it denotes none.
pub fn message_from_json(v: &JsonValue) -> (r: Result<Message, AgentError>)
    ensures
        match r {
            Ok(m) => decode_message(v@) == Some(m@),
            Err(e) => decode_message(v@) is None && e@ is ParseError,
        },
{
    let pairs = match v {
        JsonValue::Obj(pairs) => pairs,
        _ => {
            return Err(AgentError::ParseError("wire message is not an object".to_owned()));
        },
    };
    proof {
        assert(v@ == JsonView::Obj(crate::json::pairs_view(pairs@)));
    }
    if pairs.len() != 9 {
        proof {
            assert(crate::json::pairs_view(pairs@).len() != 9);
        }
        return Err(AgentError::ParseError("wire message has a wrong shape".to_owned()));
    }
    let keys_ok = field_key_is(pairs, 0, "id") && field_key_is(pairs, 1, "sender_id")
        && field_key_is(pairs, 2, "receiver_id") && field_key_is(pairs, 3, "message_type")
        && field_key_is(pairs, 4, "priority") && field_key_is(pairs, 5, "payload")
        && field_key_is(pairs, 6, "timestamp") && field_key_is(pairs, 7, "correlation_id")
        && field_key_is(pairs, 8, "expires_at");
    if !keys_ok {
        return Err(AgentError::ParseError("wire message has a wrong shape".to_owned()));
    }
    proof {
        assert(forall|i: int|
            0 <= i < 9 ==> (#[trigger] crate::json::pairs_view(pairs@)[i]) == (
                pairs@[i].0@,
                pairs@[i].1@,
            ));
    }
    let id = match &pairs[0].1 {
        JsonValue::Str(s) => s.clone(),
        _ => {
            return Err(AgentError::ParseError("wire id is not a string".to_owned()));
        },
    };
    let sender_id = match &pairs[1].1 {
        JsonValue::Str(s) => s.clone(),
        _ => {
            return Err(AgentError::ParseError("wire sender is not a string".to_owned()));
        },
    };
    let receiver_id = match &pairs[2].1 {
        JsonValue::Str(s) => Some(s.clone()),
        JsonValue::Null => None,
        _ => {
            return Err(AgentError::ParseError("wire receiver is not a string".to_owned()));
        },
    };
    let message_type = match kind_from_json(&pairs[3].1) {
        Some(k) => k,
        None => {
            return Err(AgentError::ParseError("wire message type is unknown".to_owned()));
        },
    };
    let priority = match &pairs[4].1 {
        JsonValue::Int(n) => {
            if *n == 0 {
                MessagePriority::Low
            } else if *n == 1 {
                MessagePriority::Normal
            } else if *n == 2 {
                MessagePriority::High
            } else if *n == 3 {
                MessagePriority::Urgent
            } else {
                return Err(AgentError::ParseError("wire priority is out of range".to_owned()));
            }
        },
        _ => {
            return Err(AgentError::ParseError("wire priority is not a number".to_owned()));
        },
    };
    let payload = pairs[5].1.duplicate();
    let timestamp = match &pairs[6].1 {
        JsonValue::Int(n) => {
            if *n >= 0 {
                (*n) as u64
            } else {
                return Err(AgentError::ParseError("wire timestamp is negative".to_owned()));
            }
        },
        _ => {
            return Err(AgentError::ParseError("wire timestamp is not a number".to_owned()));
        },
    };
    let correlation_id = match &pairs[7].1 {
        JsonValue::Str(s) => Some(s.clone()),
        JsonValue::Null => None,
        _ => {
            return Err(AgentError::ParseError("wire correlation is not a string".to_owned()));
        },
    };
    let expires_at = match &pairs[8].1 {
        JsonValue::Int(n) => {
            if *n >= 0 {
                Some((*n) as u64)
            } else {
                return Err(AgentError::ParseError("wire expiry is negative".to_owned()));
            }
        },
        JsonValue::Null => None,
        _ => {
            return Err(AgentError::ParseError("wire expiry is not a number".to_owned()));
        },
    };
    Ok(
        Message {
            id,
            sender_id,
            receiver_id,
            message_type,
            priority,
            payload,
            timestamp,
            correlation_id,
            expires_at,
        },
    )
}

/// Whether the field at `i` carries this key.
fn field_key_is(pairs: &Vec<(String, JsonValue)>, i: usize, key: &str) -> (r: bool)
    requires
        i < pairs@.len(),
    ensures
        r == (crate::json::pairs_view(pairs@)[i as int].0 == key@),
{
    proof {
        assert(crate::json::pairs_view(pairs@)[i as int].0 == pairs@[i as int].0@);
    }
    pairs[i].0 == key.to_owned()
}

/// The message kind a wire tag denotes, if any.
fn kind_from_json(v: &JsonValue) -> (r: Option<MessageType>)
    ensures
        match r {
            Some(k) => decode_kind(v@) == Some(k@),
            None => decode_kind(v@) is None,
        },
{
    match v {
        JsonValue::Str(s) => {
            if *s == "TaskAssignment".to_owned() {
                Some(MessageType::TaskAssignment)
            } else if *s == "StatusUpdate".to_owned() {
                Some(MessageType::StatusUpdate)
            } else if *s == "ResultNotification".to_owned() {
                Some(MessageType::ResultNotification)
            } else if *s == "ResourceRequest".to_owned() {
                Some(MessageType::ResourceRequest)
            } else if *s == "ResourceResponse".to_owned() {
                Some(MessageType::ResourceResponse)
            } else if *s == "Heartbeat".to_owned() {
                Some(MessageType::Heartbeat)
            } else if *s == "Error".to_owned() {
                Some(MessageType::Error)
            } else {
                proof {
                    assert(v@ == JsonView::Str(s@));
                    assert(!(s@ == "TaskAssignment"@));
                    assert(!(s@ == "Error"@));
                    assert(decode_kind(v@) is None);
                }
                None
            }
        },
        JsonValue::Obj(inner) => {
            proof {
                assert(v@ == JsonView::Obj(crate::json::pairs_view(inner@)));
            }
            if inner.len() != 1 {
                proof {
                    assert(crate::json::pairs_view(inner@).len() != 1);
                    assert(decode_kind(v@) is None);
                }
                return None;
            }
            proof {
                assert(crate::json::pairs_view(inner@)[0] == (inner@[0].0@, inner@[0].1@));
            }
            let is_control = field_key_is(inner, 0, "Control");
            let is_custom = field_key_is(inner, 0, "Custom");
            if is_control {
                match &inner[0].1 {
                    JsonValue::Str(label) => {
                        if *label == "Start".to_owned() {
                            Some(MessageType::Control(ControlCommand::Start))
                        } else if *label == "Stop".to_owned() {
                            Some(MessageType::Control(ControlCommand::Stop))
                        } else if *label == "Pause".to_owned() {
                            Some(MessageType::Control(ControlCommand::Pause))
                        } else if *label == "Resume".to_owned() {
                            Some(MessageType::Control(ControlCommand::Resume))
                        } else if *label == "Shutdown".to_owned() {
                            Some(MessageType::Control(ControlCommand::Shutdown))
                        } else {
                            proof {
                                assert(decode_kind(v@) is None);
                            }
                            None
                        }
                    },
                    _ => {
                        proof {
                            assert(decode_kind(v@) is None);
                        }
                        None
                    },
                }
            } else if is_custom {
                match &inner[0].1 {
                    JsonValue::Str(tag) => Some(MessageType::Custom(tag.clone())),
                    _ => {
                        proof {
                            assert(decode_kind(v@) is None);
                        }
                        None
                    },
                }
            } else {
                proof {
                    assert(decode_kind(v@) is None);
                }
                None
            }
        },
        _ => {
            proof {
                assert(decode_kind(v@) is None);
            }
            None
        },
    }
}


} // verus!
