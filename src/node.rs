//! The broadcast node: its state, its handlers and the dispatcher.

use std::collections::HashSet;
use vstd::prelude::*;
use vstd::std_specs::hash::spec_hash_keys_iter;
use vstd::std_specs::iter::IteratorSpec;
use crate::keyed::{
    entries_for, find_key, first_key_at, keys_distinct, lacks_key, lemma_entries_absent,
    lemma_entries_at,
    lemma_entries_push, lemma_entries_update,
};
use crate::entropy::{fresh_ulid, sample_indices};
use crate::message::{body_msg_id, body_wf, is_request, Message, MessageBody};
use crate::protocol::{
    addressed_to, all_pending, broadcast_ok_step, broadcast_step, echo_step, fanout,
    generate_step, generate_with_id_step, init_step, is_snapshot, lemma_all_pending_holds,
    lemma_fanout_broadcasts, node_step, read_step, sent, sync_ok_step, sync_requests_step,
    sync_step, topology_step,
};

verus! {

broadcast use vstd::std_specs::hash::group_hash_axioms;

/// What can stop a handler.
#[derive(Debug, Clone, Copy, PartialEq, Eq, Structural)]
pub enum NodeError {
    /// The message counter has reached `u32::MAX`: no fresh `msg_id` is left.
    IdsExhausted,
}

/// `s` after the acknowledgement of `msg_id`: every entry whose body carries
/// that id is gone; the others stay, in order.
pub open spec fn acknowledged(s: Seq<Message>, msg_id: u32) -> Seq<Message>
    decreases s.len(),
{
    if s.len() == 0 {
        Seq::empty()
    } else {
        let rest = acknowledged(s.drop_last(), msg_id);
        if body_msg_id(s.last().body) == Some(msg_id) {
            rest
        } else {
            rest.push(s.last())
        }
    }
}

/// What an acknowledgement keeps was there before, and carries another id.
pub proof fn lemma_acknowledged(s: Seq<Message>, msg_id: u32)
    ensures
        forall|i: int|
            0 <= i < acknowledged(s, msg_id).len() ==> {
                &&& s.contains(#[trigger] acknowledged(s, msg_id)[i])
                &&& body_msg_id(acknowledged(s, msg_id)[i].body) != Some(msg_id)
            },
    decreases s.len(),
{
    if s.len() > 0 {
        let rest = acknowledged(s.drop_last(), msg_id);
        lemma_acknowledged(s.drop_last(), msg_id);
        assert forall|i: int| 0 <= i < acknowledged(s, msg_id).len() implies {
            &&& s.contains(#[trigger] acknowledged(s, msg_id)[i])
            &&& body_msg_id(acknowledged(s, msg_id)[i].body) != Some(msg_id)
        } by {
            if i < rest.len() {
                assert(acknowledged(s, msg_id)[i] == rest[i]);
                let k = choose|k: int| 0 <= k < s.drop_last().len() && s.drop_last()[k] == rest[i];
                assert(s[k] == rest[i]);
            } else {
                assert(acknowledged(s, msg_id)[i] == s[s.len() - 1]);
            }
        }
    }
}

/// Each list of the outbox `ob` holds only broadcasts addressed to the key it
/// is filed under.
pub open spec fn filed_by_dest(ob: Seq<(String, Vec<Message>)>) -> bool {
    forall|k: int, j: int|
        0 <= k < ob.len() && 0 <= j < ob[k].1@.len() ==> {
            &&& (#[trigger] ob[k].1@[j]).dest@ == ob[k].0@
            &&& ob[k].1@[j].body is broadcast
        }
}

/// The list `l` holds only broadcasts addressed to `p`.
pub open spec fn all_to(l: Seq<Message>, p: Seq<char>) -> bool {
    forall|j: int| 0 <= j < l.len() ==> (#[trigger] l[j]).dest@ == p && l[j].body is broadcast
}

/// Replacing a list of a well-filed outbox, key kept, by another list
/// addressed to that key keeps the outbox well filed.
proof fn lemma_filed_update(ob: Seq<(String, Vec<Message>)>, i: int, e: (String, Vec<Message>))
    requires
        keys_distinct(ob),
        filed_by_dest(ob),
        0 <= i < ob.len(),
        e.0@ == ob[i].0@,
        all_to(e.1@, e.0@),
    ensures
        keys_distinct(ob.update(i, e)),
        filed_by_dest(ob.update(i, e)),
{
    let t = ob.update(i, e);
    assert forall|a: int, b: int| 0 <= a < t.len() && 0 <= b < t.len() && a != b implies t[a].0@
        != t[b].0@ by {
        assert(ob[a].0@ != ob[b].0@);
    }
    assert forall|a: int, j: int| 0 <= a < t.len() && 0 <= j < t[a].1@.len() implies {
        &&& (#[trigger] t[a].1@[j]).dest@ == t[a].0@
        &&& t[a].1@[j].body is broadcast
    } by {
        if a != i {
            assert(t[a] == ob[a]);
        }
    }
}

/// Filing a list addressed to a fresh key keeps the outbox well filed.
proof fn lemma_filed_push(ob: Seq<(String, Vec<Message>)>, e: (String, Vec<Message>))
    requires
        keys_distinct(ob),
        filed_by_dest(ob),
        lacks_key(ob, e.0@),
        all_to(e.1@, e.0@),
    ensures
        keys_distinct(ob.push(e)),
        filed_by_dest(ob.push(e)),
{
    let t = ob.push(e);
    assert forall|a: int, j: int| 0 <= a < t.len() && 0 <= j < t[a].1@.len() implies {
        &&& (#[trigger] t[a].1@[j]).dest@ == t[a].0@
        &&& t[a].1@[j].body is broadcast
    } by {
        if a < ob.len() {
            assert(t[a] == ob[a]);
        }
    }
}

/// The broadcasts of `list` that do not carry `msg_id`, in order.
fn without_id(list: &Vec<Message>, msg_id: u32) -> (r: Vec<Message>)
    requires
        forall|j: int| 0 <= j < list@.len() ==> (#[trigger] list@[j]).body is broadcast,
    ensures
        r@ == acknowledged(list@, msg_id),
{
    let mut kept: Vec<Message> = Vec::new();
    let mut j: usize = 0;
    while j < list.len()
        invariant
            j <= list@.len(),
            forall|i: int| 0 <= i < list@.len() ==> (#[trigger] list@[i]).body is broadcast,
            kept@ == acknowledged(list@.take(j as int), msg_id),
        decreases list.len() - j,
    {
        proof {
            assert(list@.take(j + 1).drop_last() =~= list@.take(j as int));
        }
        if !list[j].body.has_msg_id(msg_id) {
            kept.push(copy_broadcast(&list[j]));
        }
        j = j + 1;
    }
    proof {
        assert(list@.take(list@.len() as int) =~= list@);
    }
    kept
}

/// The state of one node of the cluster.
pub struct Node {
    /// The node's identity; empty until `init`.
    pub id: String,
    /// The next fresh message id.
    pub msg_id: u32,
    /// Every node of the cluster, as `init` listed them.
    pub node_ids: Vec<String>,
    /// The replicated set of broadcast values.
    pub store: HashSet<u32>,
    /// For each node, its neighbours.
    pub topology: Vec<(String, Vec<String>)>,
    /// For each peer, the fan-out broadcasts it has not acknowledged yet.
    pub outbox: Vec<(String, Vec<Message>)>,
}

impl Node {
    /// The fan-outs pending for peer `p`.
    pub open spec fn pending_for(self, p: Seq<char>) -> Seq<Message> {
        entries_for(self.outbox@, p)
    }

    /// This node's neighbours in the current topology.
    pub open spec fn neighbours(self) -> Seq<String> {
        entries_for(self.topology@, self.id@)
    }

    /// The topology and the outbox file each node once, and the outbox
    /// holds only broadcasts addressed to the peer they are filed under.
    pub open spec fn well_formed(self) -> bool {
        &&& keys_distinct(self.topology@)
        &&& keys_distinct(self.outbox@)
        &&& filed_by_dest(self.outbox@)
    }

    fn check_and_push_to_store(&mut self, payload: u32) -> (r: Option<u32>)
        ensures
            r == if old(self).store@.contains(payload) { None } else { Some(payload) },
            final(self).store@ == old(self).store@.insert(payload),
            r is None ==> final(self).store == old(self).store,
            final(self).id == old(self).id,
            final(self).msg_id == old(self).msg_id,
            final(self).node_ids == old(self).node_ids,
            final(self).topology == old(self).topology,
            final(self).outbox == old(self).outbox,
    {
        if !self.store.contains(&payload) {
            self.store.insert(payload);
            Some(payload)
        } else {
            None
        }
    }

    /// Files `msg` under its destination, at the end of that peer's list.
    fn add_to_outbox(&mut self, msg: Message)
        requires
            old(self).well_formed(),
            msg.body is broadcast,
        ensures
            final(self).well_formed(),
            forall|p: Seq<char>|
                #[trigger] final(self).pending_for(p) == if p == msg.dest@ {
                    old(self).pending_for(p).push(msg)
                } else {
                    old(self).pending_for(p)
                },
            final(self).id == old(self).id,
            final(self).msg_id == old(self).msg_id,
            final(self).node_ids == old(self).node_ids,
            final(self).store == old(self).store,
            final(self).topology == old(self).topology,
    {
        let ghost ob = self.outbox@;
        match find_key(&self.outbox, &msg.dest) {
            Some(i) => {
                let (k, mut list) = self.outbox.remove(i);
                let ghost old_list = list@;
                list.push(msg);
                let ghost e = (k, list);
                self.outbox.insert(i, (k, list));
                proof {
                    assert(self.outbox@ =~= ob.update(i as int, e));
                    assert(old_list == ob[i as int].1@);
                    assert forall|j: int| 0 <= j < e.1@.len() implies (#[trigger] e.1@[j]).dest@
                        == e.0@ && e.1@[j].body is broadcast by {
                        if j < old_list.len() {
                            assert(e.1@[j] == ob[i as int].1@[j]);
                        }
                    }
                    lemma_filed_update(ob, i as int, e);
                    assert forall|p: Seq<char>|
                        #[trigger] entries_for(self.outbox@, p) == if p == msg.dest@ {
                            entries_for(ob, p).push(msg)
                        } else {
                            entries_for(ob, p)
                        } by {
                        lemma_entries_update(ob, i as int, e, p);
                        lemma_entries_at(ob, msg.dest@, i as int);
                        if first_key_at(ob, p, i as int) {
                            assert(p == msg.dest@);
                        }
                    }
                }
            },
            None => {
                let dest = msg.dest.clone();
                let mut list: Vec<Message> = Vec::new();
                list.push(msg);
                let ghost e = (dest, list);
                self.outbox.push((dest, list));
                proof {
                    lemma_filed_push(ob, e);
                    assert forall|p: Seq<char>|
                        #[trigger] entries_for(self.outbox@, p) == if p == msg.dest@ {
                            entries_for(ob, p).push(msg)
                        } else {
                            entries_for(ob, p)
                        } by {
                        lemma_entries_push(ob, e, p);
                        if p == msg.dest@ {
                            assert(e.1@ =~= seq![msg]);
                            lemma_entries_absent(ob, p);
                        }
                    }
                }
            },
        }
    }

    /// Takes every fan-out to `node_id` that carries `msg_id` out of the
    /// outbox; does nothing where there is none.
    fn remove_from_outbox(&mut self, node_id: String, msg_id: &u32)
        requires
            old(self).well_formed(),
        ensures
            final(self).well_formed(),
            forall|p: Seq<char>|
                #[trigger] final(self).pending_for(p) == if p == node_id@ {
                    acknowledged(old(self).pending_for(p), *msg_id)
                } else {
                    old(self).pending_for(p)
                },
            final(self).id == old(self).id,
            final(self).msg_id == old(self).msg_id,
            final(self).node_ids == old(self).node_ids,
            final(self).store == old(self).store,
            final(self).topology == old(self).topology,
    {
        let ghost ob = self.outbox@;
        match find_key(&self.outbox, &node_id) {
            Some(i) => {
                let (k, list) = self.outbox.remove(i);
                assert(list@ == ob[i as int].1@);
                assert forall|j: int| 0 <= j < list@.len() implies (#[trigger] list@[j]).body is broadcast by {
                    assert(list@[j] == ob[i as int].1@[j]);
                }
                let kept = without_id(&list, *msg_id);
                let ghost e = (k, kept);
                self.outbox.insert(i, (k, kept));
                proof {
                    assert(self.outbox@ =~= ob.update(i as int, e));
                    lemma_acknowledged(list@, *msg_id);
                    assert forall|j: int| 0 <= j < e.1@.len() implies (#[trigger] e.1@[j]).dest@
                        == e.0@ && e.1@[j].body is broadcast by {
                        let t = choose|t: int| 0 <= t < list@.len() && list@[t] == e.1@[j];
                        assert(ob[i as int].1@[t] == list@[t]);
                    }
                    lemma_filed_update(ob, i as int, e);
                    assert forall|p: Seq<char>|
                        #[trigger] entries_for(self.outbox@, p) == if p == node_id@ {
                            acknowledged(entries_for(ob, p), *msg_id)
                        } else {
                            entries_for(ob, p)
                        } by {
                        lemma_entries_update(ob, i as int, e, p);
                        lemma_entries_at(ob, node_id@, i as int);
                        if first_key_at(ob, p, i as int) {
                            assert(p == node_id@);
                        }
                    }
                }
            },
            None => {
                proof {
                    lemma_entries_absent(ob, node_id@);
                }
            },
        }
    }

    /// The stored values, each once, in no particular order.
    fn read(&self) -> (r: Vec<u32>)
        ensures
            r@.to_set() == self.store@,
            r@.no_duplicates(),
    {
        let mut out: Vec<u32> = Vec::new();
        for x in it: self.store.iter()
            invariant
                out@ == it.seq().take(it.index() as int).unref(),
        {
            out.push(*x);
        }
        proof {
            assert(out@ =~= spec_hash_keys_iter(&self.store).remaining().unref());
        }
        out
    }
}


/// How many peers a sync round asks at most.
pub const SYNC_PEERS: usize = 2;

/// The handlers of a cluster node. Each takes one inbound message and
/// appends what it emits to the send queue `tx`.
pub trait NodeTrait: Sized {
    /// The state is well formed.
    spec fn wf(&self) -> bool;

    /// How many fresh message ids are left.
    spec fn fresh_ids_left(&self) -> int;

    /// How many peers a sync round asks.
    spec fn sync_round_size(&self) -> int;

    /// A node with no identity, no peers, an empty store and outbox, and
    /// the counter at zero.
    fn new() -> Self;

    /// `init`: takes the node's identity and peers, unless it has them.
    fn handle_init_message(&mut self, msg: Message, tx: &mut Vec<Message>) -> Result<(), NodeError>
        requires
            old(self).wf(),
    ;

    /// `echo`: replies with the same payload.
    fn handle_echo_message(&mut self, msg: Message, tx: &mut Vec<Message>) -> Result<(), NodeError>
        requires
            old(self).wf(),
    ;

    /// `generate`: replies with a fresh unique identifier.
    fn handle_generate_message(&mut self, msg: Message, tx: &mut Vec<Message>) -> Result<
        (),
        NodeError,
    >
        requires
            old(self).wf(),
    ;

    /// `broadcast`: acknowledges, and stores and fans out a new value.
    fn handle_broadcast_message(&mut self, msg: Message, tx: &mut Vec<Message>) -> Result<
        (),
        NodeError,
    >
        requires
            old(self).wf(),
    ;

    /// `broadcast_ok`: drops the acknowledged fan-outs from the outbox.
    fn handle_broadcast_ok_message(&mut self, msg: Message, tx: &mut Vec<Message>) -> Result<
        (),
        NodeError,
    >
        requires
            old(self).wf(),
    ;

    /// `read`: replies with the stored values.
    fn handle_read_message(&mut self, msg: Message, tx: &mut Vec<Message>) -> Result<(), NodeError>
        requires
            old(self).wf(),
    ;

    /// `topology`: replaces the topology.
    fn handle_topology_message(&mut self, msg: Message, tx: &mut Vec<Message>) -> Result<
        (),
        NodeError,
    >
        requires
            old(self).wf(),
            body_wf(msg.body),
    ;

    /// Takes the next fresh message id.
    fn get_and_increment_msg_id(&mut self) -> u32
        requires
            old(self).fresh_ids_left() >= 1,
    ;

    /// `sync`: absorbs the sender's values and replies with those it lacks.
    fn handle_sync_message(&mut self, msg: Message, tx: &mut Vec<Message>) -> Result<(), NodeError>
        requires
            old(self).wf(),
    ;

    /// `sync_ok`: absorbs the values received.
    fn handle_sync_ok_message(&mut self, msg: Message, tx: &mut Vec<Message>) -> Result<
        (),
        NodeError,
    >
        requires
            old(self).wf(),
    ;

    /// Sync requests, carrying the whole store, to up to `SYNC_PEERS`
    /// distinct peers chosen at random.
    fn request_sync_with_random_peers(&mut self) -> Vec<Message>
        requires
            old(self).wf(),
            old(self).fresh_ids_left() >= old(self).sync_round_size(),
    ;

    /// Sends every pending fan-out again.
    fn retry_messages(&mut self, tx: &mut Vec<Message>)
        requires
            old(self).wf(),
    ;

    /// Hands an inbound message to the handler its tag selects.
    fn next(&mut self, msg: Message, tx: &mut Vec<Message>) -> Result<(), NodeError>
        requires
            old(self).wf(),
            is_request(msg.body),
            body_wf(msg.body),
    ;
}

impl NodeTrait for Node {
    open spec fn wf(&self) -> bool {
        self.well_formed()
    }

    open spec fn fresh_ids_left(&self) -> int {
        u32::MAX - self.msg_id
    }

    open spec fn sync_round_size(&self) -> int {
        if self.node_ids@.len() < SYNC_PEERS {
            self.node_ids@.len() as int
        } else {
            SYNC_PEERS as int
        }
    }

    fn new() -> (r: Self)
        ensures
            r.wf(),
            r.id@ == Seq::<char>::empty(),
            r.msg_id == 0,
            r.node_ids@ == Seq::<String>::empty(),
            r.store@ == Set::<u32>::empty(),
            r.topology@ == Seq::<(String, Vec<String>)>::empty(),
            r.outbox@ == Seq::<(String, Vec<Message>)>::empty(),
    {
        Node {
            id: String::new(),
            msg_id: 0,
            node_ids: Vec::new(),
            store: HashSet::new(),
            topology: Vec::new(),
            outbox: Vec::new(),
        }
    }

    fn get_and_increment_msg_id(&mut self) -> (r: u32)
        ensures
            r == old(self).msg_id,
            final(self).msg_id == old(self).msg_id + 1,
            final(self).id == old(self).id,
            final(self).node_ids == old(self).node_ids,
            final(self).store == old(self).store,
            final(self).topology == old(self).topology,
            final(self).outbox == old(self).outbox,
    {
        let id = self.msg_id;
        self.msg_id = self.msg_id + 1;
        id
    }

    fn handle_init_message(&mut self, msg: Message, tx: &mut Vec<Message>) -> (r: Result<
        (),
        NodeError,
    >)
        ensures
            final(self).wf(),
            old(tx)@.is_prefix_of(final(tx)@),
            init_step(*old(self), msg, *final(self), sent(old(tx)@, final(tx)@), r),
    {
        let ghost t0 = tx@;
        match msg.body {
            MessageBody::init { msg_id, node_id, node_ids } => {
                if self.id.as_str().is_empty() {
                    self.id = node_id.clone();
                    self.node_ids = node_ids;
                }
                let reply = Message {
                    src: node_id,
                    dest: msg.src,
                    body: MessageBody::init_ok { in_reply_to: msg_id },
                };
                reply.send(tx);
                assert(sent(t0, tx@) =~= seq![reply]);
            },
            _ => {
                assert(sent(t0, tx@) =~= Seq::<Message>::empty());
            },
        }
        Ok(())
    }

    fn handle_echo_message(&mut self, msg: Message, tx: &mut Vec<Message>) -> (r: Result<
        (),
        NodeError,
    >)
        ensures
            final(self).wf(),
            old(tx)@.is_prefix_of(final(tx)@),
            echo_step(*old(self), msg, *final(self), sent(old(tx)@, final(tx)@), r),
    {
        let ghost t0 = tx@;
        match &msg.body {
            MessageBody::echo { msg_id, echo } => {
                if self.msg_id == u32::MAX {
                    assert(sent(t0, tx@) =~= Seq::<Message>::empty());
                    return Err(NodeError::IdsExhausted);
                }
                let payload = MessageBody::echo_ok {
                    msg_id: self.get_and_increment_msg_id(),
                    in_reply_to: *msg_id,
                    echo: echo.clone(),
                };
                let reply = msg.into_reply(payload);
                reply.send(tx);
                assert(sent(t0, tx@) =~= seq![reply]);
            },
            _ => {
                assert(sent(t0, tx@) =~= Seq::<Message>::empty());
            },
        }
        Ok(())
    }

    fn handle_generate_message(&mut self, msg: Message, tx: &mut Vec<Message>) -> (r: Result<
        (),
        NodeError,
    >)
        ensures
            final(self).wf(),
            old(tx)@.is_prefix_of(final(tx)@),
            generate_step(*old(self), msg, *final(self), sent(old(tx)@, final(tx)@), r),
    {
        let unique_id = fresh_ulid();
        let r = self.handle_generate_with_id(msg, unique_id, tx);
        r
    }

    fn handle_broadcast_message(&mut self, msg: Message, tx: &mut Vec<Message>) -> (r: Result<
        (),
        NodeError,
    >)
        ensures
            final(self).wf(),
            old(tx)@.is_prefix_of(final(tx)@),
            broadcast_step(*old(self), msg, *final(self), sent(old(tx)@, final(tx)@), r),
    {
        let ghost t0 = tx@;
        let ghost pre = *self;
        match msg.body {
            MessageBody::broadcast { message, msg_id } => {
                if self.msg_id == u32::MAX {
                    assert(sent(t0, tx@) =~= Seq::<Message>::empty());
                    return Err(NodeError::IdsExhausted);
                }
                let ack = Message {
                    src: msg.dest.clone(),
                    dest: msg.src.clone(),
                    body: MessageBody::broadcast_ok {
                        in_reply_to: msg_id,
                        msg_id: self.get_and_increment_msg_id(),
                    },
                };
                ack.send(tx);
                match self.check_and_push_to_store(message) {
                    Some(_) => {
                        let mut fan = self.fanout_messages(&msg.src, message, msg_id);
                        let ghost mid = *self;
                        let mut k: usize = 0;
                        while k < fan.len()
                            invariant
                                k <= fan.len(),
                                self.well_formed(),
                                fan@ == fanout(pre.id, pre.neighbours(), msg.src@, message, msg_id),
                                self.msg_id == mid.msg_id,
                                self.id == mid.id,
                                self.node_ids == mid.node_ids,
                                self.store == mid.store,
                                self.topology == mid.topology,
                                forall|p: Seq<char>|
                                    #[trigger] self.pending_for(p) == mid.pending_for(p)
                                        + addressed_to(fan@.take(k as int), p),
                            decreases fan.len() - k,
                        {
                            proof {
                                lemma_fanout_broadcasts(
                                    pre.id,
                                    pre.neighbours(),
                                    msg.src@,
                                    message,
                                    msg_id,
                                );
                            }
                            let copy = copy_broadcast(&fan[k]);
                            let ghost before = *self;
                            self.add_to_outbox(copy);
                            proof {
                                assert(fan@.take(k + 1).drop_last() =~= fan@.take(k as int));
                                assert forall|p: Seq<char>|
                                    #[trigger] self.pending_for(p) == mid.pending_for(p)
                                        + addressed_to(fan@.take(k + 1), p) by {
                                    assert(before.pending_for(p) == mid.pending_for(p)
                                        + addressed_to(fan@.take(k as int), p));
                                    if p == copy.dest@ {
                                        assert(self.pending_for(p) =~= mid.pending_for(p)
                                            + addressed_to(fan@.take(k + 1), p));
                                    }
                                }
                            }
                            k = k + 1;
                        }
                        proof {
                            assert(fan@.take(fan@.len() as int) =~= fan@);
                        }
                        tx.append(&mut fan);
                        assert(sent(t0, tx@) =~= seq![ack] + fanout(
                            pre.id,
                            pre.neighbours(),
                            msg.src@,
                            message,
                            msg_id,
                        ));
                    },
                    None => {
                        assert(sent(t0, tx@) =~= seq![ack]);
                    },
                }
            },
            _ => {
                assert(sent(t0, tx@) =~= Seq::<Message>::empty());
            },
        }
        Ok(())
    }

    fn handle_broadcast_ok_message(&mut self, msg: Message, tx: &mut Vec<Message>) -> (r: Result<
        (),
        NodeError,
    >)
        ensures
            final(self).wf(),
            old(tx)@.is_prefix_of(final(tx)@),
            broadcast_ok_step(*old(self), msg, *final(self), sent(old(tx)@, final(tx)@), r),
    {
        let ghost t0 = tx@;
        assert(sent(t0, tx@) =~= Seq::<Message>::empty());
        match msg.body {
            MessageBody::broadcast_ok { in_reply_to, .. } => {
                self.remove_from_outbox(msg.src, &in_reply_to);
            },
            _ => {},
        }
        Ok(())
    }

    fn handle_read_message(&mut self, msg: Message, tx: &mut Vec<Message>) -> (r: Result<
        (),
        NodeError,
    >)
        ensures
            final(self).wf(),
            old(tx)@.is_prefix_of(final(tx)@),
            read_step(*old(self), msg, *final(self), sent(old(tx)@, final(tx)@), r),
    {
        let ghost t0 = tx@;
        match msg.body {
            MessageBody::read { msg_id } => {
                if self.msg_id == u32::MAX {
                    assert(sent(t0, tx@) =~= Seq::<Message>::empty());
                    return Err(NodeError::IdsExhausted);
                }
                let messages = self.read();
                let payload = MessageBody::read_ok {
                    messages,
                    in_reply_to: msg_id,
                    msg_id: self.get_and_increment_msg_id(),
                };
                let reply = msg.into_reply(payload);
                reply.send(tx);
                assert(sent(t0, tx@) =~= seq![reply]);
            },
            _ => {
                assert(sent(t0, tx@) =~= Seq::<Message>::empty());
            },
        }
        Ok(())
    }

    fn handle_topology_message(&mut self, msg: Message, tx: &mut Vec<Message>) -> (r: Result<
        (),
        NodeError,
    >)
        ensures
            final(self).wf(),
            old(tx)@.is_prefix_of(final(tx)@),
            topology_step(*old(self), msg, *final(self), sent(old(tx)@, final(tx)@), r),
    {
        let ghost t0 = tx@;
        let Message { src, dest, body } = msg;
        match body {
            MessageBody::topology { topology, msg_id } => {
                if self.msg_id == u32::MAX {
                    assert(sent(t0, tx@) =~= Seq::<Message>::empty());
                    return Err(NodeError::IdsExhausted);
                }
                self.topology = topology;
                let payload = MessageBody::topology_ok {
                    msg_id: self.get_and_increment_msg_id(),
                    in_reply_to: msg_id,
                };
                let reply = Message { src: dest, dest: src, body: payload };
                reply.send(tx);
                assert(sent(t0, tx@) =~= seq![reply]);
            },
            _ => {
                assert(sent(t0, tx@) =~= Seq::<Message>::empty());
            },
        }
        Ok(())
    }

    fn handle_sync_message(&mut self, msg: Message, tx: &mut Vec<Message>) -> (r: Result<
        (),
        NodeError,
    >)
        ensures
            final(self).wf(),
            old(tx)@.is_prefix_of(final(tx)@),
            sync_step(*old(self), msg, *final(self), sent(old(tx)@, final(tx)@), r),
    {
        let ghost t0 = tx@;
        let ghost pre = *self;
        match &msg.body {
            MessageBody::sync { msg_id, messages } => {
                if self.msg_id == u32::MAX {
                    assert(sent(t0, tx@) =~= Seq::<Message>::empty());
                    return Err(NodeError::IdsExhausted);
                }
                let ours = self.read();
                let theirs = value_set(messages);
                let mut i_have: Vec<u32> = Vec::new();
                let mut i: usize = 0;
                while i < ours.len()
                    invariant
                        i <= ours.len(),
                        ours@.no_duplicates(),
                        theirs@ == messages@.to_set(),
                        i_have@.no_duplicates(),
                        forall|v: u32|
                            #[trigger] i_have@.contains(v) <==> (ours@.take(i as int).contains(v)
                                && !theirs@.contains(v)),
                    decreases ours.len() - i,
                {
                    let v = ours[i];
                    proof {
                        lemma_take_to_set(ours@, i as int);
                        if ours@.take(i as int).contains(v) {
                            let k = choose|k: int| 0 <= k < i && ours@.take(i as int)[k] == v;
                            assert(ours@[k] == ours@[i as int]);
                        }
                    }
                    let ghost old_have = i_have@;
                    if !theirs.contains(&v) {
                        i_have.push(v);
                    }
                    proof {
                        if !theirs@.contains(v) {
                            assert(!old_have.contains(v));
                            assert forall|a: int, b: int|
                                0 <= a < i_have@.len() && 0 <= b < i_have@.len() && a != b
                                implies i_have@[a] != i_have@[b] by {
                                if a < old_have.len() && b < old_have.len() {
                                    assert(old_have[a] != old_have[b]);
                                } else if a < old_have.len() {
                                    assert(old_have[a] != v);
                                } else {
                                    assert(old_have[b] != v);
                                }
                            }
                        }
                        assert forall|w: u32|
                            #[trigger] i_have@.contains(w) <==> (ours@.take(i + 1).contains(w)
                                && !theirs@.contains(w)) by {
                            assert(ours@.take(i + 1).to_set().contains(w) == ours@.take(
                                i + 1,
                            ).contains(w));
                            assert(ours@.take(i as int).to_set().contains(w) == ours@.take(
                                i as int,
                            ).contains(w));
                            if !theirs@.contains(v) {
                                if old_have.contains(w) {
                                    let k = choose|k: int| 0 <= k < old_have.len() && old_have[k] == w;
                                    assert(i_have@[k] == w);
                                }
                                if w == v {
                                    assert(i_have@[old_have.len() as int] == w);
                                }
                                if i_have@.contains(w) {
                                    let k = choose|k: int| 0 <= k < i_have@.len() && i_have@[k] == w;
                                    if k < old_have.len() {
                                        assert(old_have[k] == w);
                                    }
                                }
                            }
                        }
                    }
                    i = i + 1;
                }
                proof {
                    assert(ours@.take(ours@.len() as int) =~= ours@);
                    assert(i_have@.to_set() =~= pre.store@ - messages@.to_set()) by {
                        assert forall|w: u32|
                            #[trigger] i_have@.to_set().contains(w) == (pre.store@
                                - messages@.to_set()).contains(w) by {
                            assert(ours@.to_set().contains(w) == ours@.contains(w));
                        }
                    }
                }
                let fresh = self.get_and_increment_msg_id();
                self.absorb(messages);
                let reply = Message {
                    src: msg.dest.clone(),
                    dest: msg.src.clone(),
                    body: MessageBody::sync_ok { msg_id: fresh, in_reply_to: *msg_id, messages: i_have },
                };
                reply.send(tx);
                assert(sent(t0, tx@) =~= seq![reply]);
            },
            _ => {
                assert(sent(t0, tx@) =~= Seq::<Message>::empty());
            },
        }
        Ok(())
    }

    fn handle_sync_ok_message(&mut self, msg: Message, tx: &mut Vec<Message>) -> (r: Result<
        (),
        NodeError,
    >)
        ensures
            final(self).wf(),
            old(tx)@.is_prefix_of(final(tx)@),
            sync_ok_step(*old(self), msg, *final(self), sent(old(tx)@, final(tx)@), r),
    {
        let ghost t0 = tx@;
        assert(sent(t0, tx@) =~= Seq::<Message>::empty());
        match &msg.body {
            MessageBody::sync_ok { messages, .. } => {
                self.absorb(messages);
            },
            _ => {},
        }
        Ok(())
    }

    fn request_sync_with_random_peers(&mut self) -> (r: Vec<Message>)
        ensures
            final(self).wf(),
            exists|picks: Seq<usize>|
                {
                    &&& picks.len() == if old(self).node_ids@.len() < SYNC_PEERS {
                        old(self).node_ids@.len()
                    } else {
                        SYNC_PEERS as nat
                    }
                    &&& picks.no_duplicates()
                    &&& forall|i: int|
                        0 <= i < picks.len() ==> #[trigger] picks[i] < old(self).node_ids@.len()
                    &&& sync_requests_step(*old(self), picks, *final(self), r@)
                },
    {
        let peers = self.node_ids.len();
        let amount = if peers < SYNC_PEERS {
            peers
        } else {
            SYNC_PEERS
        };
        let picks = sample_indices(peers, amount);
        let r = self.sync_requests(&picks);
        r
    }

    fn retry_messages(&mut self, tx: &mut Vec<Message>)
        ensures
            *final(self) == *old(self),
            final(tx)@ == old(tx)@ + all_pending(old(self).outbox@),
            forall|p: Seq<char>, i: int|
                0 <= i < old(self).pending_for(p).len() ==> sent(old(tx)@, final(tx)@).contains(
                    #[trigger] old(self).pending_for(p)[i],
                ),
    {
        let ghost t0 = tx@;
        let mut k: usize = 0;
        while k < self.outbox.len()
            invariant
                k <= self.outbox@.len(),
                self.well_formed(),
                tx@ == t0 + all_pending(self.outbox@.take(k as int)),
            decreases self.outbox.len() - k,
        {
            let list = &self.outbox[k].1;
            let mut j: usize = 0;
            while j < list.len()
                invariant
                    k < self.outbox@.len(),
                    j <= list@.len(),
                    list@ == self.outbox@[k as int].1@,
                    self.well_formed(),
                    tx@ == t0 + all_pending(self.outbox@.take(k as int)) + list@.take(j as int),
                decreases list.len() - j,
            {
                assert(self.outbox@[k as int].1@[j as int].body is broadcast);
                let m = copy_broadcast(&list[j]);
                tx.push(m);
                proof {
                    assert(tx@ =~= t0 + all_pending(self.outbox@.take(k as int)) + list@.take(
                        j + 1,
                    ));
                }
                j = j + 1;
            }
            proof {
                assert(self.outbox@.take(k + 1).drop_last() =~= self.outbox@.take(k as int));
                assert(list@.take(list@.len() as int) =~= list@);
                assert(tx@ =~= t0 + all_pending(self.outbox@.take(k + 1)));
            }
            k = k + 1;
        }
        proof {
            assert(self.outbox@.take(self.outbox@.len() as int) =~= self.outbox@);
            assert(sent(t0, tx@) =~= all_pending(self.outbox@));
            assert forall|p: Seq<char>, i: int|
                0 <= i < self.pending_for(p).len() implies sent(t0, tx@).contains(
                    #[trigger] self.pending_for(p)[i],
                ) by {
                let k = choose|k: int| first_key_at(self.outbox@, p, k);
                lemma_all_pending_holds(self.outbox@, k, i);
            }
        }
    }

    fn next(&mut self, msg: Message, tx: &mut Vec<Message>) -> (r: Result<(), NodeError>)
        ensures
            final(self).wf(),
            old(tx)@.is_prefix_of(final(tx)@),
            node_step(*old(self), msg, *final(self), sent(old(tx)@, final(tx)@), r),
    {
        match msg.body {
            MessageBody::echo { .. } => self.handle_echo_message(msg, tx),
            MessageBody::init { .. } => self.handle_init_message(msg, tx),
            MessageBody::generate { .. } => self.handle_generate_message(msg, tx),
            MessageBody::broadcast { .. } => self.handle_broadcast_message(msg, tx),
            MessageBody::topology { .. } => self.handle_topology_message(msg, tx),
            MessageBody::read { .. } => self.handle_read_message(msg, tx),
            MessageBody::broadcast_ok { .. } => self.handle_broadcast_ok_message(msg, tx),
            MessageBody::sync { .. } => self.handle_sync_message(msg, tx),
            MessageBody::sync_ok { .. } => self.handle_sync_ok_message(msg, tx),
            // excluded by the precondition
            _ => Ok(()),
        }
    }
}

/// The first `i + 1` elements of `s` hold those of the first `i` and `s[i]`.
proof fn lemma_take_to_set<A>(s: Seq<A>, i: int)
    requires
        0 <= i < s.len(),
    ensures
        s.take(i + 1).to_set() == s.take(i).to_set().insert(s[i]),
{
    let longer = s.take(i + 1);
    let shorter = s.take(i);
    assert forall|a: A| #[trigger] longer.to_set().contains(a) == shorter.to_set().insert(
        s[i],
    ).contains(a) by {
        if longer.contains(a) {
            let k = choose|k: int| 0 <= k < longer.len() && longer[k] == a;
            if k < i {
                assert(shorter[k] == a);
            }
        }
        if shorter.contains(a) {
            let k = choose|k: int| 0 <= k < shorter.len() && shorter[k] == a;
            assert(longer[k] == a);
        }
        if a == s[i] {
            assert(longer[i] == a);
        }
    }
    assert(longer.to_set() =~= shorter.to_set().insert(s[i]));
}

/// The values of `values`, as a set.
fn value_set(values: &Vec<u32>) -> (r: HashSet<u32>)
    ensures
        r@ == values@.to_set(),
{
    let mut set: HashSet<u32> = HashSet::new();
    let mut i: usize = 0;
    while i < values.len()
        invariant
            i <= values.len(),
            set@ == values@.take(i as int).to_set(),
        decreases values.len() - i,
    {
        proof {
            lemma_take_to_set(values@, i as int);
        }
        set.insert(values[i]);
        i = i + 1;
    }
    proof {
        assert(values@.take(values@.len() as int) =~= values@);
    }
    set
}

/// A fresh copy of a fan-out broadcast.
fn copy_broadcast(m: &Message) -> (r: Message)
    requires
        m.body is broadcast,
    ensures
        r == *m,
{
    match m.body {
        MessageBody::broadcast { message, msg_id } => Message {
            src: m.src.clone(),
            dest: m.dest.clone(),
            body: MessageBody::broadcast { message, msg_id },
        },
        // excluded by the precondition
        _ => Message { src: m.src.clone(), dest: m.dest.clone(), body: MessageBody::read { msg_id: 0 } },
    }
}

impl Default for Node {
    fn default() -> (r: Self)
        ensures
            r.wf(),
            r.id@ == Seq::<char>::empty(),
            r.msg_id == 0,
            r.node_ids@ == Seq::<String>::empty(),
            r.store@ == Set::<u32>::empty(),
            r.topology@ == Seq::<(String, Vec<String>)>::empty(),
            r.outbox@ == Seq::<(String, Vec<Message>)>::empty(),
    {
        <Node as NodeTrait>::new()
    }
}

impl Node {
    /// Adds every value of `values` to the store.
    fn absorb(&mut self, values: &Vec<u32>)
        ensures
            final(self).store@ == old(self).store@ + values@.to_set(),
            final(self).msg_id == old(self).msg_id,
            final(self).id == old(self).id,
            final(self).node_ids == old(self).node_ids,
            final(self).topology == old(self).topology,
            final(self).outbox == old(self).outbox,
    {
        let ghost pre = *self;
        let mut i: usize = 0;
        while i < values.len()
            invariant
                i <= values.len(),
                self.store@ == pre.store@ + values@.take(i as int).to_set(),
                self.msg_id == pre.msg_id,
                self.id == pre.id,
                self.node_ids == pre.node_ids,
                self.topology == pre.topology,
                self.outbox == pre.outbox,
            decreases values.len() - i,
        {
            proof {
                lemma_take_to_set(values@, i as int);
            }
            self.store.insert(values[i]);
            proof {
                assert(self.store@ =~= pre.store@ + values@.take(i + 1).to_set());
            }
            i = i + 1;
        }
        proof {
            assert(values@.take(values@.len() as int) =~= values@);
        }
    }

    /// The fan-out of `message` to this node's neighbours but `sender`.
    fn fanout_messages(&self, sender: &String, message: u32, msg_id: u32) -> (r: Vec<Message>)
        ensures
            r@ == fanout(self.id, self.neighbours(), sender@, message, msg_id),
    {
        let mut fan: Vec<Message> = Vec::new();
        match find_key(&self.topology, &self.id) {
            Some(t) => {
                proof {
                    lemma_entries_at(self.topology@, self.id@, t as int);
                }
                let ns = &self.topology[t].1;
                let mut j: usize = 0;
                while j < ns.len()
                    invariant
                        j <= ns.len(),
                        ns@ == self.neighbours(),
                        fan@ == fanout(self.id, ns@.take(j as int), sender@, message, msg_id),
                    decreases ns.len() - j,
                {
                    proof {
                        assert(ns@.take(j + 1).drop_last() =~= ns@.take(j as int));
                    }
                    if !(ns[j] == *sender) {
                        let m = Message {
                            src: self.id.clone(),
                            dest: ns[j].clone(),
                            body: MessageBody::broadcast { message, msg_id },
                        };
                        fan.push(m);
                    }
                    j = j + 1;
                }
                proof {
                    assert(ns@.take(ns@.len() as int) =~= ns@);
                }
            },
            None => {
                proof {
                    lemma_entries_absent(self.topology@, self.id@);
                }
            },
        }
        fan
    }

    /// Sync requests to the peers at positions `picks` of `node_ids`, each
    /// with a fresh id and the whole store.
    pub fn sync_requests(&mut self, picks: &Vec<usize>) -> (r: Vec<Message>)
        requires
            old(self).wf(),
            forall|i: int| 0 <= i < picks@.len() ==> #[trigger] picks@[i] < old(self).node_ids@.len(),
            old(self).msg_id + picks@.len() <= u32::MAX,
        ensures
            final(self).wf(),
            sync_requests_step(*old(self), picks@, *final(self), r@),
    {
        let ghost pre = *self;
        let mut out: Vec<Message> = Vec::new();
        let mut i: usize = 0;
        while i < picks.len()
            invariant
                i <= picks@.len(),
                forall|k: int| 0 <= k < picks@.len() ==> #[trigger] picks@[k] < pre.node_ids@.len(),
                pre.msg_id + picks@.len() <= u32::MAX,
                self.msg_id == pre.msg_id + i,
                self.id == pre.id,
                self.node_ids == pre.node_ids,
                self.topology == pre.topology,
                self.store == pre.store,
                self.outbox == pre.outbox,
                out@.len() == i,
                forall|k: int|
                    0 <= k < i ==> {
                        &&& (#[trigger] out@[k]).src == pre.id
                        &&& out@[k].dest == pre.node_ids@[picks@[k] as int]
                        &&& match out@[k].body {
                            MessageBody::sync { msg_id, messages } => {
                                &&& msg_id == pre.msg_id + k
                                &&& is_snapshot(messages@, pre.store@)
                            },
                            _ => false,
                        }
                    },
            decreases picks.len() - i,
        {
            let m = Message {
                src: self.id.clone(),
                dest: self.node_ids[picks[i]].clone(),
                body: MessageBody::sync { msg_id: self.get_and_increment_msg_id(), messages: self.read() },
            };
            out.push(m);
            i = i + 1;
        }
        out
    }

    /// Answers a `generate` with `unique_id` as the generated identifier.
    pub fn handle_generate_with_id(
        &mut self,
        msg: Message,
        unique_id: String,
        tx: &mut Vec<Message>,
    ) -> (r: Result<(), NodeError>)
        requires
            old(self).wf(),
        ensures
            final(self).wf(),
            old(tx)@.is_prefix_of(final(tx)@),
            generate_with_id_step(
                *old(self),
                msg,
                unique_id,
                *final(self),
                sent(old(tx)@, final(tx)@),
                r,
            ),
    {
        let ghost t0 = tx@;
        match msg.body {
            MessageBody::generate { msg_id } => {
                if self.msg_id == u32::MAX {
                    assert(sent(t0, tx@) =~= Seq::<Message>::empty());
                    return Err(NodeError::IdsExhausted);
                }
                let payload = MessageBody::generate_ok {
                    msg_id: self.get_and_increment_msg_id(),
                    in_reply_to: msg_id,
                    id: unique_id,
                };
                let reply = msg.into_reply(payload);
                reply.send(tx);
                assert(sent(t0, tx@) =~= seq![reply]);
            },
            _ => {
                assert(sent(t0, tx@) =~= Seq::<Message>::empty());
            },
        }
        Ok(())
    }
}

} // verus!
