//! The protocol as a relation: for each handler, which next states and which
//! emitted messages may follow a state and an inbound message.

use vstd::prelude::*;
use crate::entropy::is_ulid_text;
use crate::message::{reply_to, Message, MessageBody};
use crate::node::{Node, NodeError};

verus! {

/// The messages appended to a send queue that went from `before` to `after`.
pub open spec fn sent(before: Seq<Message>, after: Seq<Message>) -> Seq<Message> {
    after.skip(before.len() as int)
}

/// `v` lists the values of `s`, each once.
pub open spec fn is_snapshot(v: Seq<u32>, s: Set<u32>) -> bool {
    &&& v.to_set() == s
    &&& v.no_duplicates()
}

/// The broadcasts that fan `message` out from `src` to each of `neighbours`
/// but `sender`, in neighbour order.
pub open spec fn fanout(
    src: String,
    neighbours: Seq<String>,
    sender: Seq<char>,
    message: u32,
    msg_id: u32,
) -> Seq<Message>
    decreases neighbours.len(),
{
    if neighbours.len() == 0 {
        Seq::empty()
    } else {
        let rest = fanout(src, neighbours.drop_last(), sender, message, msg_id);
        let n = neighbours.last();
        if n@ == sender {
            rest
        } else {
            rest.push(Message { src, dest: n, body: MessageBody::broadcast { message, msg_id } })
        }
    }
}

/// Every message of every list of the outbox `ob`, list after list.
pub open spec fn all_pending(ob: Seq<(String, Vec<Message>)>) -> Seq<Message>
    decreases ob.len(),
{
    if ob.len() == 0 {
        Seq::empty()
    } else {
        all_pending(ob.drop_last()) + ob.last().1@
    }
}

/// Every fan-out message is a broadcast.
pub proof fn lemma_fanout_broadcasts(
    src: String,
    neighbours: Seq<String>,
    sender: Seq<char>,
    message: u32,
    msg_id: u32,
)
    ensures
        forall|i: int|
            0 <= i < fanout(src, neighbours, sender, message, msg_id).len() ==> (#[trigger] fanout(
                src,
                neighbours,
                sender,
                message,
                msg_id,
            )[i]).body is broadcast,
    decreases neighbours.len(),
{
    if neighbours.len() > 0 {
        lemma_fanout_broadcasts(src, neighbours.drop_last(), sender, message, msg_id);
    }
}

/// Every message of every list of `ob` is among `all_pending(ob)`.
pub proof fn lemma_all_pending_holds(ob: Seq<(String, Vec<Message>)>, k: int, j: int)
    requires
        0 <= k < ob.len(),
        0 <= j < ob[k].1@.len(),
    ensures
        all_pending(ob).contains(ob[k].1@[j]),
    decreases ob.len(),
{
    let rest = all_pending(ob.drop_last());
    if k == ob.len() - 1 {
        assert(all_pending(ob)[rest.len() + j] == ob[k].1@[j]);
    } else {
        lemma_all_pending_holds(ob.drop_last(), k, j);
        let t = choose|t: int| 0 <= t < rest.len() && rest[t] == ob[k].1@[j];
        assert(all_pending(ob)[t] == ob[k].1@[j]);
    }
}

/// The messages of `ms` addressed to `p`, in order.
pub open spec fn addressed_to(ms: Seq<Message>, p: Seq<char>) -> Seq<Message>
    decreases ms.len(),
{
    if ms.len() == 0 {
        Seq::empty()
    } else {
        let rest = addressed_to(ms.drop_last(), p);
        if ms.last().dest@ == p {
            rest.push(ms.last())
        } else {
            rest
        }
    }
}

/// The message is not one this handler takes: nothing changes.
pub open spec fn ignored(pre: Node, post: Node, out: Seq<Message>, r: Result<(), NodeError>) -> bool {
    &&& r is Ok
    &&& post == pre
    &&& out.len() == 0
}

/// No fresh `msg_id` is left: the handler fails and nothing changes.
pub open spec fn exhausted(pre: Node, post: Node, out: Seq<Message>, r: Result<(), NodeError>) -> bool {
    &&& r == Err::<(), NodeError>(NodeError::IdsExhausted)
    &&& post == pre
    &&& out.len() == 0
}

/// Identity, peers and topology are kept.
pub open spec fn keeps_membership(pre: Node, post: Node) -> bool {
    &&& post.id == pre.id
    &&& post.node_ids == pre.node_ids
    &&& post.topology == pre.topology
}

/// One fresh id was taken, and nothing else changed.
pub open spec fn took_one_id(pre: Node, post: Node) -> bool {
    &&& post.msg_id == pre.msg_id + 1
    &&& keeps_membership(pre, post)
    &&& post.store == pre.store
    &&& post.outbox == pre.outbox
}

/// `echo`: the payload goes back in an `echo_ok`.
pub open spec fn echo_step(
    pre: Node,
    msg: Message,
    post: Node,
    out: Seq<Message>,
    r: Result<(), NodeError>,
) -> bool {
    match msg.body {
        MessageBody::echo { msg_id, echo } => if pre.msg_id == u32::MAX {
            exhausted(pre, post, out, r)
        } else {
            &&& r is Ok
            &&& took_one_id(pre, post)
            &&& out == seq![
                reply_to(
                    msg,
                    MessageBody::echo_ok { msg_id: pre.msg_id, in_reply_to: msg_id, echo },
                ),
            ]
        },
        _ => ignored(pre, post, out, r),
    }
}

/// `init`: the first one names the node and its cluster; each is answered.
pub open spec fn init_step(
    pre: Node,
    msg: Message,
    post: Node,
    out: Seq<Message>,
    r: Result<(), NodeError>,
) -> bool {
    match msg.body {
        MessageBody::init { msg_id, node_id, node_ids } => {
            &&& r is Ok
            &&& out == seq![
                Message {
                    src: node_id,
                    dest: msg.src,
                    body: MessageBody::init_ok { in_reply_to: msg_id },
                },
            ]
            &&& if pre.id@.len() == 0 {
                &&& post.id == node_id
                &&& post.node_ids == node_ids
                &&& post.msg_id == pre.msg_id
                &&& post.store == pre.store
                &&& post.topology == pre.topology
                &&& post.outbox == pre.outbox
            } else {
                post == pre
            }
        },
        _ => ignored(pre, post, out, r),
    }
}

/// `generate`, answered with the identifier `unique_id`.
pub open spec fn generate_with_id_step(
    pre: Node,
    msg: Message,
    unique_id: String,
    post: Node,
    out: Seq<Message>,
    r: Result<(), NodeError>,
) -> bool {
    match msg.body {
        MessageBody::generate { msg_id } => if pre.msg_id == u32::MAX {
            exhausted(pre, post, out, r)
        } else {
            &&& r is Ok
            &&& took_one_id(pre, post)
            &&& out == seq![
                reply_to(
                    msg,
                    MessageBody::generate_ok {
                        msg_id: pre.msg_id,
                        in_reply_to: msg_id,
                        id: unique_id,
                    },
                ),
            ]
        },
        _ => ignored(pre, post, out, r),
    }
}

/// `generate`, answered with some fresh ULID.
pub open spec fn generate_step(
    pre: Node,
    msg: Message,
    post: Node,
    out: Seq<Message>,
    r: Result<(), NodeError>,
) -> bool {
    exists|u: String| is_ulid_text(u@) && generate_with_id_step(pre, msg, u, post, out, r)
}

/// `topology`: the map received replaces the old one.
pub open spec fn topology_step(
    pre: Node,
    msg: Message,
    post: Node,
    out: Seq<Message>,
    r: Result<(), NodeError>,
) -> bool {
    match msg.body {
        MessageBody::topology { topology, msg_id } => if pre.msg_id == u32::MAX {
            exhausted(pre, post, out, r)
        } else {
            &&& r is Ok
            &&& post.msg_id == pre.msg_id + 1
            &&& post.topology == topology
            &&& post.id == pre.id
            &&& post.node_ids == pre.node_ids
            &&& post.store == pre.store
            &&& post.outbox == pre.outbox
            &&& out == seq![
                reply_to(
                    msg,
                    MessageBody::topology_ok { msg_id: pre.msg_id, in_reply_to: msg_id },
                ),
            ]
        },
        _ => ignored(pre, post, out, r),
    }
}

/// `read`: the reply lists the store.
pub open spec fn read_step(
    pre: Node,
    msg: Message,
    post: Node,
    out: Seq<Message>,
    r: Result<(), NodeError>,
) -> bool {
    match msg.body {
        MessageBody::read { msg_id } => if pre.msg_id == u32::MAX {
            exhausted(pre, post, out, r)
        } else {
            &&& r is Ok
            &&& took_one_id(pre, post)
            &&& out.len() == 1
            &&& out[0].src == msg.dest
            &&& out[0].dest == msg.src
            &&& match out[0].body {
                MessageBody::read_ok { messages, in_reply_to, msg_id: m } => {
                    &&& in_reply_to == msg_id
                    &&& m == pre.msg_id
                    &&& is_snapshot(messages@, pre.store@)
                },
                _ => false,
            }
        },
        _ => ignored(pre, post, out, r),
    }
}

/// `broadcast`: acknowledged always; a value new to the store is stored and
/// fanned out to the neighbours but the sender, each fan-out kept pending.
pub open spec fn broadcast_step(
    pre: Node,
    msg: Message,
    post: Node,
    out: Seq<Message>,
    r: Result<(), NodeError>,
) -> bool {
    match msg.body {
        MessageBody::broadcast { message, msg_id } => if pre.msg_id == u32::MAX {
            exhausted(pre, post, out, r)
        } else {
            let ack = reply_to(
                msg,
                MessageBody::broadcast_ok { in_reply_to: msg_id, msg_id: pre.msg_id },
            );
            &&& r is Ok
            &&& if pre.store@.contains(message) {
                &&& took_one_id(pre, post)
                &&& out == seq![ack]
            } else {
                let fan = fanout(pre.id, pre.neighbours(), msg.src@, message, msg_id);
                &&& post.msg_id == pre.msg_id + 1
                &&& keeps_membership(pre, post)
                &&& post.store@ == pre.store@.insert(message)
                &&& forall|p: Seq<char>|
                    #[trigger] post.pending_for(p) == pre.pending_for(p) + addressed_to(fan, p)
                &&& out == seq![ack] + fan
            }
        },
        _ => ignored(pre, post, out, r),
    }
}

/// `broadcast_ok`: every fan-out pending for the sender that carries the
/// acknowledged id leaves the outbox.
pub open spec fn broadcast_ok_step(
    pre: Node,
    msg: Message,
    post: Node,
    out: Seq<Message>,
    r: Result<(), NodeError>,
) -> bool {
    match msg.body {
        MessageBody::broadcast_ok { in_reply_to, .. } => {
            &&& r is Ok
            &&& out.len() == 0
            &&& post.msg_id == pre.msg_id
            &&& keeps_membership(pre, post)
            &&& post.store == pre.store
            &&& forall|p: Seq<char>|
                #[trigger] post.pending_for(p) == if p == msg.src@ {
                    crate::node::acknowledged(pre.pending_for(p), in_reply_to)
                } else {
                    pre.pending_for(p)
                }
        },
        _ => ignored(pre, post, out, r),
    }
}

/// `sync`: the sender's values are absorbed, and the reply lists the values
/// the sender did not send.
pub open spec fn sync_step(
    pre: Node,
    msg: Message,
    post: Node,
    out: Seq<Message>,
    r: Result<(), NodeError>,
) -> bool {
    match msg.body {
        MessageBody::sync { msg_id, messages } => if pre.msg_id == u32::MAX {
            exhausted(pre, post, out, r)
        } else {
            &&& r is Ok
            &&& post.msg_id == pre.msg_id + 1
            &&& keeps_membership(pre, post)
            &&& post.outbox == pre.outbox
            &&& post.store@ == pre.store@ + messages@.to_set()
            &&& out.len() == 1
            &&& out[0].src == msg.dest
            &&& out[0].dest == msg.src
            &&& match out[0].body {
                MessageBody::sync_ok { msg_id: m, in_reply_to, messages: mine } => {
                    &&& in_reply_to == msg_id
                    &&& m == pre.msg_id
                    &&& is_snapshot(mine@, pre.store@ - messages@.to_set())
                },
                _ => false,
            }
        },
        _ => ignored(pre, post, out, r),
    }
}

/// `sync_ok`: the values received are absorbed; nothing is sent.
pub open spec fn sync_ok_step(
    pre: Node,
    msg: Message,
    post: Node,
    out: Seq<Message>,
    r: Result<(), NodeError>,
) -> bool {
    match msg.body {
        MessageBody::sync_ok { messages, .. } => {
            &&& r is Ok
            &&& out.len() == 0
            &&& post.msg_id == pre.msg_id
            &&& keeps_membership(pre, post)
            &&& post.outbox == pre.outbox
            &&& post.store@ == pre.store@ + messages@.to_set()
        },
        _ => ignored(pre, post, out, r),
    }
}

/// One step of the dispatcher: the handler the body's tag selects. No step
/// takes a reply that only a client is sent.
pub open spec fn node_step(
    pre: Node,
    msg: Message,
    post: Node,
    out: Seq<Message>,
    r: Result<(), NodeError>,
) -> bool {
    match msg.body {
        MessageBody::echo { .. } => echo_step(pre, msg, post, out, r),
        MessageBody::init { .. } => init_step(pre, msg, post, out, r),
        MessageBody::generate { .. } => generate_step(pre, msg, post, out, r),
        MessageBody::broadcast { .. } => broadcast_step(pre, msg, post, out, r),
        MessageBody::topology { .. } => topology_step(pre, msg, post, out, r),
        MessageBody::read { .. } => read_step(pre, msg, post, out, r),
        MessageBody::broadcast_ok { .. } => broadcast_ok_step(pre, msg, post, out, r),
        MessageBody::sync { .. } => sync_step(pre, msg, post, out, r),
        MessageBody::sync_ok { .. } => sync_ok_step(pre, msg, post, out, r),
        _ => false,
    }
}

/// The sync requests to the peers at positions `picks`: the `i`-th goes to
/// `node_ids[picks[i]]`, carries id `msg_id + i` and the whole store.
pub open spec fn sync_requests_step(pre: Node, picks: Seq<usize>, post: Node, out: Seq<Message>) -> bool {
    &&& post.msg_id == pre.msg_id + picks.len()
    &&& keeps_membership(pre, post)
    &&& post.store == pre.store
    &&& post.outbox == pre.outbox
    &&& out.len() == picks.len()
    &&& forall|i: int|
        0 <= i < out.len() ==> {
            &&& (#[trigger] out[i]).src == pre.id
            &&& out[i].dest == pre.node_ids@[picks[i] as int]
            &&& match out[i].body {
                MessageBody::sync { msg_id, messages } => {
                    &&& msg_id == pre.msg_id + i
                    &&& is_snapshot(messages@, pre.store@)
                },
                _ => false,
            }
        }
}

} // verus!
