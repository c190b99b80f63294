//! The echo workload on its own: a node that learns its name from `init`
//! and answers each `echo` with the same payload.

use vstd::prelude::*;

verus! {

/// One envelope of the echo workload.
#[derive(Debug, Clone, PartialEq)]
pub struct Message {
    pub src: String,
    pub dest: String,
    pub body: Body,
}

/// The body variants of the echo workload.
#[allow(non_camel_case_types)]
#[derive(Debug, Clone, PartialEq)]
pub enum Body {
    echo { msg_id: usize, echo: String },
    echo_ok { msg_id: usize, in_reply_to: usize, echo: String },
    init { msg_id: usize, node_id: String, node_ids: Vec<String> },
    init_ok { in_reply_to: usize },
}

/// What can stop the echo node.
#[derive(Debug, Clone, Copy, PartialEq, Eq, Structural)]
pub enum EchoError {
    /// The message counter has reached `usize::MAX`: no fresh `msg_id` is left.
    IdsExhausted,
}

/// A body that the echo node is sent: `init` or `echo`. The replies to them
/// only go to clients; one that reaches the node is a protocol error.
pub open spec fn is_echo_request(b: Body) -> bool {
    b is echo || b is init
}

impl Body {
    /// Whether the echo node may be sent this body.
    pub fn is_request(&self) -> (r: bool)
        ensures
            r == is_echo_request(*self),
    {
        match self {
            Body::echo { .. } => true,
            Body::init { .. } => true,
            _ => false,
        }
    }
}

impl Message {
    /// The reply to this message: source and destination swapped, `payload`
    /// as body.
    pub fn into_reply(self, payload: Body) -> (r: Message)
        ensures
            r == (Message { src: self.dest, dest: self.src, body: payload }),
    {
        Message { src: self.dest, dest: self.src, body: payload }
    }
}

/// A node of the echo workload. Each handler appends what it emits to the
/// send queue `output`.
pub trait Node: Sized {
    /// A node with no name and its counter at zero.
    fn new() -> Self;

    /// `init`: takes the node's name, unless it has one, and answers.
    fn handle_init_message(&mut self, msg: Message, output: &mut Vec<Message>);

    /// `echo`: replies with the same payload.
    fn handle_echo_message(&mut self, msg: Message, output: &mut Vec<Message>) -> Result<
        (),
        EchoError,
    >;

    /// Hands an inbound `init` or `echo` to its handler.
    fn handle_any_message(&mut self, msg: Message, output: &mut Vec<Message>) -> Result<
        (),
        EchoError,
    >
        requires
            is_echo_request(msg.body),
    ;
}

/// The echo node: its name and the next fresh message id.
#[derive(Clone)]
pub struct EchoNode {
    pub id: String,
    pub msg_id: usize,
}

/// `init`: the first one names the node; each is answered with `init_ok`.
pub open spec fn echo_init_step(
    pre: EchoNode,
    msg: Message,
    post: EchoNode,
    out: Seq<Message>,
) -> bool {
    match msg.body {
        Body::init { msg_id, node_id, .. } => {
            &&& post.id == if pre.id@.len() == 0 {
                node_id
            } else {
                pre.id
            }
            &&& post.msg_id == pre.msg_id
            &&& out == seq![
                Message { src: node_id, dest: msg.src, body: Body::init_ok { in_reply_to: msg_id } },
            ]
        },
        _ => post == pre && out.len() == 0,
    }
}

/// `echo`: the payload goes back from the node to the sender in an `echo_ok`
/// with a fresh id; with no fresh id left, nothing happens but the error.
pub open spec fn echo_echo_step(
    pre: EchoNode,
    msg: Message,
    post: EchoNode,
    out: Seq<Message>,
    r: Result<(), EchoError>,
) -> bool {
    match msg.body {
        Body::echo { msg_id, echo } => if pre.msg_id == usize::MAX {
            &&& r == Err::<(), EchoError>(EchoError::IdsExhausted)
            &&& post == pre
            &&& out.len() == 0
        } else {
            &&& r is Ok
            &&& post.id == pre.id
            &&& post.msg_id == pre.msg_id + 1
            &&& out == seq![
                Message {
                    src: pre.id,
                    dest: msg.src,
                    body: Body::echo_ok { msg_id: pre.msg_id, in_reply_to: msg_id, echo },
                },
            ]
        },
        _ => r is Ok && post == pre && out.len() == 0,
    }
}

impl Node for EchoNode {
    fn new() -> (r: Self)
        ensures
            r.id@ == Seq::<char>::empty(),
            r.msg_id == 0,
    {
        EchoNode { id: String::new(), msg_id: 0 }
    }

    fn handle_init_message(&mut self, msg: Message, output: &mut Vec<Message>)
        ensures
            old(output)@.is_prefix_of(final(output)@),
            echo_init_step(
                *old(self),
                msg,
                *final(self),
                final(output)@.skip(old(output)@.len() as int),
            ),
    {
        let ghost o0 = output@;
        match msg.body {
            Body::init { msg_id, node_id, .. } => {
                if self.id.as_str().is_empty() {
                    self.id = node_id.clone();
                }
                let reply = Message {
                    src: node_id,
                    dest: msg.src,
                    body: Body::init_ok { in_reply_to: msg_id },
                };
                output.push(reply);
                assert(output@.skip(o0.len() as int) =~= seq![reply]);
            },
            _ => {
                assert(output@.skip(o0.len() as int) =~= Seq::<Message>::empty());
            },
        }
    }

    fn handle_echo_message(&mut self, msg: Message, output: &mut Vec<Message>) -> (r: Result<
        (),
        EchoError,
    >)
        ensures
            old(output)@.is_prefix_of(final(output)@),
            echo_echo_step(
                *old(self),
                msg,
                *final(self),
                final(output)@.skip(old(output)@.len() as int),
                r,
            ),
    {
        let ghost o0 = output@;
        match msg.body {
            Body::echo { msg_id, echo } => {
                if self.msg_id == usize::MAX {
                    assert(output@.skip(o0.len() as int) =~= Seq::<Message>::empty());
                    return Err(EchoError::IdsExhausted);
                }
                let fresh = self.msg_id;
                self.msg_id = self.msg_id + 1;
                let reply = Message {
                    src: self.id.clone(),
                    dest: msg.src,
                    body: Body::echo_ok { msg_id: fresh, in_reply_to: msg_id, echo },
                };
                output.push(reply);
                assert(output@.skip(o0.len() as int) =~= seq![reply]);
            },
            _ => {
                assert(output@.skip(o0.len() as int) =~= Seq::<Message>::empty());
            },
        }
        Ok(())
    }

    fn handle_any_message(&mut self, msg: Message, output: &mut Vec<Message>) -> (r: Result<
        (),
        EchoError,
    >)
        ensures
            old(output)@.is_prefix_of(final(output)@),
            match msg.body {
                Body::echo { .. } => echo_echo_step(
                    *old(self),
                    msg,
                    *final(self),
                    final(output)@.skip(old(output)@.len() as int),
                    r,
                ),
                _ => r is Ok && echo_init_step(
                    *old(self),
                    msg,
                    *final(self),
                    final(output)@.skip(old(output)@.len() as int),
                ),
            },
    {
        match msg.body {
            Body::echo { .. } => self.handle_echo_message(msg, output),
            _ => {
                self.handle_init_message(msg, output);
                Ok(())
            },
        }
    }
}

} // verus!
