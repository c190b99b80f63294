use vstd::prelude::*;
use crate::keyed::{distinct_keys, keys_distinct};

verus! {

/// One envelope of the wire protocol: source, destination and a tagged body.
#[derive(Debug, Clone, PartialEq)]
pub struct Message {
    pub src: String,
    pub dest: String,
    pub body: MessageBody,
}

/// The body variants of the protocol. `sync` and `sync_ok` are the node's own
/// anti-entropy exchange; the others are the harness's workloads.
#[allow(non_camel_case_types)]
#[derive(Debug, Clone, PartialEq)]
pub enum MessageBody {
    broadcast { message: u32, msg_id: u32 },
    broadcast_ok { in_reply_to: u32, msg_id: u32 },
    topology { topology: Vec<(String, Vec<String>)>, msg_id: u32 },
    topology_ok { msg_id: u32, in_reply_to: u32 },
    read { msg_id: u32 },
    read_ok { messages: Vec<u32>, in_reply_to: u32, msg_id: u32 },
    generate { msg_id: u32 },
    generate_ok { msg_id: u32, in_reply_to: u32, id: String },
    echo { msg_id: u32, echo: String },
    echo_ok { msg_id: u32, in_reply_to: u32, echo: String },
    init { msg_id: u32, node_id: String, node_ids: Vec<String> },
    init_ok { in_reply_to: u32 },
    sync { msg_id: u32, messages: Vec<u32> },
    sync_ok { msg_id: u32, in_reply_to: u32, messages: Vec<u32> },
}

/// The `msg_id` a body carries; `init_ok` carries none.
pub open spec fn body_msg_id(b: MessageBody) -> Option<u32> {
    match b {
        MessageBody::broadcast { msg_id, .. } => Some(msg_id),
        MessageBody::broadcast_ok { msg_id, .. } => Some(msg_id),
        MessageBody::topology { msg_id, .. } => Some(msg_id),
        MessageBody::topology_ok { msg_id, .. } => Some(msg_id),
        MessageBody::read { msg_id } => Some(msg_id),
        MessageBody::read_ok { msg_id, .. } => Some(msg_id),
        MessageBody::generate { msg_id } => Some(msg_id),
        MessageBody::generate_ok { msg_id, .. } => Some(msg_id),
        MessageBody::echo { msg_id, .. } => Some(msg_id),
        MessageBody::echo_ok { msg_id, .. } => Some(msg_id),
        MessageBody::init { msg_id, .. } => Some(msg_id),
        MessageBody::init_ok { .. } => None,
        MessageBody::sync { msg_id, .. } => Some(msg_id),
        MessageBody::sync_ok { msg_id, .. } => Some(msg_id),
    }
}

/// A body that a node of the cluster is sent. The replies to requests that
/// only clients make (`init_ok`, `echo_ok`, `topology_ok`, `read_ok`,
/// `generate_ok`) never reach a node: one that does is a protocol error.
pub open spec fn is_request(b: MessageBody) -> bool {
    !(b is init_ok || b is echo_ok || b is topology_ok || b is read_ok || b is generate_ok)
}

/// A `topology` names each node once.
pub open spec fn body_wf(b: MessageBody) -> bool {
    match b {
        MessageBody::topology { topology, .. } => keys_distinct(topology@),
        _ => true,
    }
}

/// The reply to `msg`: addressed back to its sender, from its destination.
pub open spec fn reply_to(msg: Message, payload: MessageBody) -> Message {
    Message { src: msg.dest, dest: msg.src, body: payload }
}

impl MessageBody {
    /// The body's `msg_id`; `init_ok` is the one variant without one.
    pub fn msg_id(&self) -> (r: &u32)
        requires
            !(self is init_ok),
        ensures
            body_msg_id(*self) == Some(*r),
    {
        match self {
            MessageBody::broadcast { msg_id, .. } => msg_id,
            MessageBody::broadcast_ok { msg_id, .. } => msg_id,
            MessageBody::topology { msg_id, .. } => msg_id,
            MessageBody::topology_ok { msg_id, .. } => msg_id,
            MessageBody::read { msg_id } => msg_id,
            MessageBody::read_ok { msg_id, .. } => msg_id,
            MessageBody::generate { msg_id } => msg_id,
            MessageBody::generate_ok { msg_id, .. } => msg_id,
            MessageBody::echo { msg_id, .. } => msg_id,
            MessageBody::echo_ok { msg_id, .. } => msg_id,
            MessageBody::init { msg_id, .. } => msg_id,
            MessageBody::sync { msg_id, .. } => msg_id,
            MessageBody::sync_ok { msg_id, .. } => msg_id,
            // excluded by the precondition
            MessageBody::init_ok { in_reply_to } => in_reply_to,
        }
    }

    /// Whether a node of the cluster may be sent this body.
    pub fn is_request(&self) -> (r: bool)
        ensures
            r == is_request(*self),
    {
        match self {
            MessageBody::init_ok { .. } => false,
            MessageBody::echo_ok { .. } => false,
            MessageBody::topology_ok { .. } => false,
            MessageBody::read_ok { .. } => false,
            MessageBody::generate_ok { .. } => false,
            _ => true,
        }
    }

    /// Whether the body is well formed: a `topology` names each node once.
    pub fn is_well_formed(&self) -> (r: bool)
        ensures
            r == body_wf(*self),
    {
        match self {
            MessageBody::topology { topology, .. } => distinct_keys(topology),
            _ => true,
        }
    }

    /// Whether the body carries `id` as its `msg_id` (never for `init_ok`).
    pub fn has_msg_id(&self, id: u32) -> (r: bool)
        ensures
            r == (body_msg_id(*self) == Some(id)),
    {
        match self {
            MessageBody::init_ok { .. } => false,
            _ => *self.msg_id() == id,
        }
    }
}

impl Message {
    /// Hands the message to the send queue: it is appended at the end.
    pub fn send(self, tx: &mut Vec<Message>)
        ensures
            final(tx)@ == old(tx)@.push(self),
    {
        tx.push(self);
    }

    /// The reply to this message: source and destination swapped, `payload`
    /// as body.
    pub fn into_reply(self, payload: MessageBody) -> (r: Message)
        ensures
            r == reply_to(self, payload),
    {
        Message { src: self.dest, dest: self.src, body: payload }
    }

    /// A new message from this message's destination to `new_dest`.
    pub fn into_message(self, payload: MessageBody, new_dest: &str) -> (r: Message)
        ensures
            r.src == self.dest,
            r.dest@ == new_dest@,
            r.body == payload,
    {
        Message { src: self.dest, dest: new_dest.to_owned(), body: payload }
    }
}

} // verus!
