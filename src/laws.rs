//! What holds of every step of a node, and of an exchange between two nodes.

use vstd::prelude::*;
use crate::message::{body_msg_id, Message, MessageBody};
use crate::node::{acknowledged, lemma_acknowledged, Node, NodeError, NodeTrait};
use crate::protocol::{addressed_to, fanout, lemma_fanout_broadcasts, node_step};

verus! {

/// The id a message draws from its sender's counter: every message but a
/// fan-out `broadcast` (which relays the id it was received with) and
/// `init_ok` (which carries none).
pub open spec fn fresh_id_of(m: Message) -> Option<u32> {
    match m.body {
        MessageBody::broadcast { .. } => None,
        _ => body_msg_id(m.body),
    }
}

/// Every fan-out pending for a peer is addressed to that peer.
pub open spec fn pending_addressed(n: Node) -> bool {
    forall|p: Seq<char>, i: int|
        0 <= i < n.pending_for(p).len() ==> (#[trigger] n.pending_for(p)[i]).dest@ == p
}

proof fn lemma_addressed_to(ms: Seq<Message>, p: Seq<char>)
    ensures
        forall|i: int|
            0 <= i < addressed_to(ms, p).len() ==> (#[trigger] addressed_to(ms, p)[i]).dest@ == p,
    decreases ms.len(),
{
    if ms.len() > 0 {
        lemma_addressed_to(ms.drop_last(), p);
    }
}

/// No handler removes a value from the store.
pub proof fn store_only_grows(
    pre: Node,
    msg: Message,
    post: Node,
    out: Seq<Message>,
    r: Result<(), NodeError>,
)
    requires
        node_step(pre, msg, post, out, r),
    ensures
        pre.store@.subset_of(post.store@),
{
}

/// A well-formed node files each pending fan-out under its destination; a
/// fresh node is well formed, and the handlers keep it so.
pub proof fn pending_addressed_when_wf(n: Node)
    requires
        n.wf(),
    ensures
        pending_addressed(n),
{
    assert forall|p: Seq<char>, i: int| 0 <= i < n.pending_for(p).len() implies (
    #[trigger] n.pending_for(p)[i]).dest@ == p by {
        let k = choose|k: int| crate::keyed::first_key_at(n.outbox@, p, k);
        assert(n.outbox@[k].1@[i] == n.pending_for(p)[i]);
    }
}

/// Every step keeps each pending fan-out filed under its destination.
pub proof fn step_keeps_pending_addressed(
    pre: Node,
    msg: Message,
    post: Node,
    out: Seq<Message>,
    r: Result<(), NodeError>,
)
    requires
        node_step(pre, msg, post, out, r),
        pending_addressed(pre),
    ensures
        pending_addressed(post),
{
    assert forall|p: Seq<char>, i: int| 0 <= i < post.pending_for(p).len() implies (
    #[trigger] post.pending_for(p)[i]).dest@ == p by {
        match msg.body {
            MessageBody::broadcast { message, msg_id } => {
                if pre.msg_id != u32::MAX && !pre.store@.contains(message) {
                    let fan = fanout(pre.id, pre.neighbours(), msg.src@, message, msg_id);
                    lemma_addressed_to(fan, p);
                    if i >= pre.pending_for(p).len() {
                        assert(post.pending_for(p)[i] == addressed_to(fan, p)[i
                            - pre.pending_for(p).len()]);
                    } else {
                        assert(post.pending_for(p)[i] == pre.pending_for(p)[i]);
                    }
                }
            },
            MessageBody::broadcast_ok { in_reply_to, .. } => {
                if p == msg.src@ {
                    lemma_acknowledged(pre.pending_for(p), in_reply_to);
                    let s = pre.pending_for(p);
                    let k = choose|k: int| 0 <= k < s.len() && s[k] == post.pending_for(p)[i];
                    assert(s[k].dest@ == p);
                }
            },
            _ => {},
        }
    }
}

/// Once a `broadcast_ok` from `p` acknowledging `acked` is handled, no fan-out
/// pending for `p` carries `acked`.
pub proof fn ack_clears_pending(
    pre: Node,
    msg: Message,
    post: Node,
    out: Seq<Message>,
    r: Result<(), NodeError>,
    acked: u32,
)
    requires
        node_step(pre, msg, post, out, r),
        match msg.body {
            MessageBody::broadcast_ok { in_reply_to, .. } => in_reply_to == acked,
            _ => false,
        },
    ensures
        forall|i: int|
            0 <= i < post.pending_for(msg.src@).len() ==> body_msg_id(
                (#[trigger] post.pending_for(msg.src@)[i]).body,
            ) != Some(acked),
{
    lemma_acknowledged(pre.pending_for(msg.src@), acked);
}

/// The counter never goes back, and each fresh id a step emits is drawn from
/// it: at least the counter before the step, below the counter after it, and
/// increasing in the order of emission.
pub proof fn fresh_ids_increase(
    pre: Node,
    msg: Message,
    post: Node,
    out: Seq<Message>,
    r: Result<(), NodeError>,
)
    requires
        node_step(pre, msg, post, out, r),
    ensures
        pre.msg_id <= post.msg_id,
        forall|i: int|
            0 <= i < out.len() && (#[trigger] fresh_id_of(out[i])) is Some ==> pre.msg_id
                <= fresh_id_of(out[i])->0 < post.msg_id,
        forall|i: int, j: int|
            0 <= i < j < out.len() && (#[trigger] fresh_id_of(out[i])) is Some && (
            #[trigger] fresh_id_of(out[j])) is Some ==> fresh_id_of(out[i])->0 < fresh_id_of(
                out[j],
            )->0,
{
    match msg.body {
        MessageBody::broadcast { message, msg_id } => {
            if pre.msg_id != u32::MAX && !pre.store@.contains(message) {
                lemma_fanout_broadcasts(pre.id, pre.neighbours(), msg.src@, message, msg_id);
                let fan = fanout(pre.id, pre.neighbours(), msg.src@, message, msg_id);
                assert forall|i: int| 1 <= i < out.len() implies fresh_id_of(out[i]) is None by {
                    assert(out[i] == fan[i - 1]);
                }
            }
        },
        _ => {},
    }
}

/// Sync requests draw consecutive fresh ids from the counter.
pub proof fn sync_request_ids_increase(pre: Node, picks: Seq<usize>, post: Node, out: Seq<Message>)
    requires
        crate::protocol::sync_requests_step(pre, picks, post, out),
    ensures
        pre.msg_id <= post.msg_id,
        forall|i: int|
            0 <= i < out.len() ==> pre.msg_id <= (#[trigger] fresh_id_of(out[i]))->0
                < post.msg_id,
        forall|i: int, j: int|
            0 <= i < j < out.len() ==> (#[trigger] fresh_id_of(out[i]))->0 < (
            #[trigger] fresh_id_of(out[j]))->0,
{
}

/// A handled `topology` message leaves exactly the map it carried.
pub proof fn topology_replaced(
    pre: Node,
    msg: Message,
    post: Node,
    out: Seq<Message>,
    r: Result<(), NodeError>,
)
    requires
        node_step(pre, msg, post, out, r),
        msg.body is topology,
        pre.msg_id < u32::MAX,
    ensures
        match msg.body {
            MessageBody::topology { topology, .. } => post.topology == topology,
            _ => false,
        },
{
}

/// An `echo` addressed to the node yields exactly one reply: an `echo_ok`
/// from the node to the sender, answering the request's id with its payload.
pub proof fn echo_replies_once(
    pre: Node,
    msg: Message,
    post: Node,
    out: Seq<Message>,
    r: Result<(), NodeError>,
)
    requires
        node_step(pre, msg, post, out, r),
        msg.body is echo,
        msg.dest@ == pre.id@,
        pre.msg_id < u32::MAX,
    ensures
        out.len() == 1,
        out[0].src@ == pre.id@,
        out[0].dest == msg.src,
        match (msg.body, out[0].body) {
            (
                MessageBody::echo { msg_id, echo },
                MessageBody::echo_ok { in_reply_to, echo: back, .. },
            ) => in_reply_to == msg_id && back == echo,
            _ => false,
        },
{
}

/// A `broadcast` of a value the store already holds is acknowledged once and
/// fans out nothing: no new message, no new pending fan-out, same store.
pub proof fn known_broadcast_only_acknowledged(
    pre: Node,
    msg: Message,
    post: Node,
    out: Seq<Message>,
    r: Result<(), NodeError>,
)
    requires
        node_step(pre, msg, post, out, r),
        match msg.body {
            MessageBody::broadcast { message, .. } => pre.store@.contains(message),
            _ => false,
        },
        pre.msg_id < u32::MAX,
    ensures
        out.len() == 1,
        out[0].dest == msg.src,
        match (msg.body, out[0].body) {
            (
                MessageBody::broadcast { msg_id, .. },
                MessageBody::broadcast_ok { in_reply_to, .. },
            ) => in_reply_to == msg_id,
            _ => false,
        },
        post.store == pre.store,
        post.outbox == pre.outbox,
{
}

/// After node `a` sends its whole store in a `sync` to node `b`, `b` handles
/// it, and `a` handles `b`'s `sync_ok`, both stores hold the union of the two.
pub proof fn sync_exchange_unites(
    a0: Node,
    b0: Node,
    request: Message,
    b1: Node,
    b_out: Seq<Message>,
    b_r: Result<(), NodeError>,
    a1: Node,
    a_out: Seq<Message>,
    a_r: Result<(), NodeError>,
)
    requires
        match request.body {
            MessageBody::sync { messages, .. } => messages@.to_set() == a0.store@,
            _ => false,
        },
        b0.msg_id < u32::MAX,
        node_step(b0, request, b1, b_out, b_r),
        node_step(a0, b_out[0], a1, a_out, a_r),
    ensures
        a1.store@ == a0.store@ + b0.store@,
        b1.store@ == a0.store@ + b0.store@,
{
    match (request.body, b_out[0].body) {
        (MessageBody::sync { messages, .. }, MessageBody::sync_ok { messages: back, .. }) => {
            assert(back@.to_set() == b0.store@ - a0.store@);
            assert(a1.store@ =~= a0.store@ + b0.store@);
            assert(b1.store@ =~= a0.store@ + b0.store@);
        },
        _ => {},
    }
}

} // verus!
