use maelstrom_node::{Message, MessageBody, Node, NodeError, NodeTrait};
use maelstrom_node::node::SYNC_PEERS;

fn envelope(src: &str, dest: &str, body: MessageBody) -> Message {
    Message { src: src.to_string(), dest: dest.to_string(), body }
}

fn strings(items: &[&str]) -> Vec<String> {
    items.iter().map(|s| s.to_string()).collect()
}

fn pending<'a>(node: &'a Node, peer: &str) -> Vec<&'a Message> {
    node.outbox
        .iter()
        .filter(|(k, _)| k == peer)
        .flat_map(|(_, list)| list.iter())
        .collect()
}

fn init(node: &mut Node, id: &str, ids: &[&str]) -> Vec<Message> {
    let mut tx = Vec::new();
    let body = MessageBody::init { msg_id: 1, node_id: id.to_string(), node_ids: strings(ids) };
    node.next(envelope("c1", id, body), &mut tx).unwrap();
    tx
}

fn set_topology(node: &mut Node, entries: &[(&str, &[&str])]) -> Vec<Message> {
    let mut tx = Vec::new();
    let topology = entries.iter().map(|(k, v)| (k.to_string(), strings(v))).collect();
    let body = MessageBody::topology { topology, msg_id: 2 };
    node.next(envelope("c1", &node.id.clone(), body), &mut tx).unwrap();
    tx
}

fn broadcast(node: &mut Node, from: &str, message: u32, msg_id: u32) -> Vec<Message> {
    let mut tx = Vec::new();
    let body = MessageBody::broadcast { message, msg_id };
    node.next(envelope(from, &node.id.clone(), body), &mut tx).unwrap();
    tx
}

/// The node of the broadcast scenario: n1 in {n1, n2}, with n2 as its neighbour.
fn n1_with_neighbour_n2() -> Node {
    let mut node = Node::new();
    init(&mut node, "n1", &["n1", "n2"]);
    set_topology(&mut node, &[("n1", &["n2"])]);
    node
}

fn sorted(mut v: Vec<u32>) -> Vec<u32> {
    v.sort();
    v
}

fn store_of(node: &Node) -> Vec<u32> {
    sorted(node.store.iter().copied().collect())
}

#[test]
fn init_names_the_node() {
    let mut node = Node::new();
    let tx = init(&mut node, "n1", &["n1", "n2"]);
    assert_eq!(tx, vec![envelope("n1", "c1", MessageBody::init_ok { in_reply_to: 1 })]);
    assert_eq!(node.id, "n1");
    assert_eq!(node.node_ids, strings(&["n1", "n2"]));
    assert_eq!(node.msg_id, 0);
}

#[test]
fn second_init_keeps_the_first_identity() {
    let mut node = Node::new();
    init(&mut node, "n1", &["n1", "n2"]);
    let tx = init(&mut node, "n9", &["n9"]);
    assert_eq!(tx, vec![envelope("n9", "c1", MessageBody::init_ok { in_reply_to: 1 })]);
    assert_eq!(node.id, "n1");
    assert_eq!(node.node_ids, strings(&["n1", "n2"]));
}

#[test]
fn echo_after_init() {
    let mut node = Node::new();
    init(&mut node, "n1", &["n1", "n2"]);
    let mut tx = Vec::new();
    let body = MessageBody::echo { msg_id: 7, echo: "hi".to_string() };
    node.next(envelope("c1", "n1", body), &mut tx).unwrap();
    let expected = MessageBody::echo_ok { msg_id: 0, in_reply_to: 7, echo: "hi".to_string() };
    assert_eq!(tx, vec![envelope("n1", "c1", expected)]);
    assert_eq!(node.msg_id, 1);
}

#[test]
fn echo_returns_any_payload_once() {
    let mut node = Node::new();
    init(&mut node, "n3", &["n3"]);
    for (i, payload) in ["", "a b c", "ünïcødé"].iter().enumerate() {
        let mut tx = Vec::new();
        let m = 100 + i as u32;
        let body = MessageBody::echo { msg_id: m, echo: payload.to_string() };
        node.next(envelope("c7", "n3", body), &mut tx).unwrap();
        assert_eq!(tx.len(), 1);
        assert_eq!(tx[0].src, "n3");
        assert_eq!(tx[0].dest, "c7");
        match &tx[0].body {
            MessageBody::echo_ok { in_reply_to, echo, .. } => {
                assert_eq!(*in_reply_to, m);
                assert_eq!(echo, payload);
            }
            other => panic!("unexpected reply {:?}", other),
        }
    }
}

#[test]
fn broadcast_fans_out_to_neighbours() {
    let mut node = n1_with_neighbour_n2();
    let tx = broadcast(&mut node, "c1", 42, 3);
    assert_eq!(
        tx,
        vec![
            envelope("n1", "c1", MessageBody::broadcast_ok { in_reply_to: 3, msg_id: 1 }),
            envelope("n1", "n2", MessageBody::broadcast { message: 42, msg_id: 3 }),
        ]
    );
    assert!(node.store.contains(&42));
    let p = pending(&node, "n2");
    assert_eq!(p.len(), 1);
    assert_eq!(*p[0], envelope("n1", "n2", MessageBody::broadcast { message: 42, msg_id: 3 }));
}

#[test]
fn repeated_broadcast_is_only_acknowledged() {
    let mut node = n1_with_neighbour_n2();
    broadcast(&mut node, "c1", 42, 3);
    let tx = broadcast(&mut node, "c1", 42, 3);
    assert_eq!(tx.len(), 1);
    assert!(matches!(tx[0].body, MessageBody::broadcast_ok { in_reply_to: 3, .. }));
    assert_eq!(tx[0].dest, "c1");
    assert_eq!(pending(&node, "n2").len(), 1);
    assert_eq!(store_of(&node), vec![42]);
}

#[test]
fn ack_removes_pending_fanout() {
    let mut node = n1_with_neighbour_n2();
    broadcast(&mut node, "c1", 42, 3);
    let mut tx = Vec::new();
    let body = MessageBody::broadcast_ok { msg_id: 9, in_reply_to: 3 };
    node.next(envelope("n2", "n1", body), &mut tx).unwrap();
    assert!(tx.is_empty());
    assert!(pending(&node, "n2").is_empty());
}

#[test]
fn ack_removes_every_fanout_with_its_id() {
    let mut node = n1_with_neighbour_n2();
    broadcast(&mut node, "c1", 42, 3);
    broadcast(&mut node, "c2", 43, 3);
    broadcast(&mut node, "c2", 44, 4);
    assert_eq!(pending(&node, "n2").len(), 3);
    let mut tx = Vec::new();
    let body = MessageBody::broadcast_ok { msg_id: 9, in_reply_to: 3 };
    node.next(envelope("n2", "n1", body), &mut tx).unwrap();
    let p = pending(&node, "n2");
    assert_eq!(p.len(), 1);
    assert_eq!(p[0].body, MessageBody::broadcast { message: 44, msg_id: 4 });
}

#[test]
fn ack_with_unknown_id_is_ignored() {
    let mut node = n1_with_neighbour_n2();
    broadcast(&mut node, "c1", 42, 3);
    let mut tx = Vec::new();
    let body = MessageBody::broadcast_ok { msg_id: 9, in_reply_to: 77 };
    node.next(envelope("n2", "n1", body), &mut tx).unwrap();
    assert!(tx.is_empty());
    assert_eq!(pending(&node, "n2").len(), 1);
    let body = MessageBody::broadcast_ok { msg_id: 10, in_reply_to: 3 };
    node.next(envelope("n5", "n1", body), &mut tx).unwrap();
    assert_eq!(pending(&node, "n2").len(), 1);
}

#[test]
fn sync_reconciles_both_ways() {
    let mut node = Node::new();
    init(&mut node, "a", &["a", "b"]);
    broadcast(&mut node, "c1", 1, 10);
    broadcast(&mut node, "c1", 2, 11);
    let before = node.msg_id;
    let mut tx = Vec::new();
    let body = MessageBody::sync { msg_id: 5, messages: vec![2, 3] };
    node.next(envelope("b", "a", body), &mut tx).unwrap();
    assert_eq!(
        tx,
        vec![envelope("a", "b", MessageBody::sync_ok { msg_id: before, in_reply_to: 5, messages: vec![1] })]
    );
    assert_eq!(store_of(&node), vec![1, 2, 3]);
}

#[test]
fn sync_ok_absorbs_without_reply() {
    let mut node = Node::new();
    init(&mut node, "a", &["a", "b"]);
    broadcast(&mut node, "c1", 1, 10);
    let mut tx = Vec::new();
    let body = MessageBody::sync_ok { msg_id: 4, in_reply_to: 0, messages: vec![1, 5, 5, 6] };
    node.next(envelope("b", "a", body), &mut tx).unwrap();
    assert!(tx.is_empty());
    assert_eq!(store_of(&node), vec![1, 5, 6]);
}

#[test]
fn sync_exchange_leaves_both_with_the_union() {
    let mut a = Node::new();
    let mut b = Node::new();
    init(&mut a, "a", &["a", "b"]);
    init(&mut b, "b", &["a", "b"]);
    for v in [1, 2, 3] {
        broadcast(&mut a, "c1", v, v);
    }
    for v in [3, 4] {
        broadcast(&mut b, "c2", v, v);
    }
    let mut snapshot: Vec<u32> = a.store.iter().copied().collect();
    snapshot.sort();
    let mut b_tx = Vec::new();
    b.next(envelope("a", "b", MessageBody::sync { msg_id: 40, messages: snapshot }), &mut b_tx).unwrap();
    assert_eq!(b_tx.len(), 1);
    let mut a_tx = Vec::new();
    a.next(b_tx.remove(0), &mut a_tx).unwrap();
    assert!(a_tx.is_empty());
    assert_eq!(store_of(&a), vec![1, 2, 3, 4]);
    assert_eq!(store_of(&b), vec![1, 2, 3, 4]);
}

#[test]
fn read_lists_the_store() {
    let mut node = n1_with_neighbour_n2();
    broadcast(&mut node, "c1", 8, 3);
    broadcast(&mut node, "c1", 5, 4);
    broadcast(&mut node, "c1", 8, 5);
    let mut tx = Vec::new();
    node.next(envelope("c1", "n1", MessageBody::read { msg_id: 6 }), &mut tx).unwrap();
    assert_eq!(tx.len(), 1);
    assert_eq!(tx[0].dest, "c1");
    match &tx[0].body {
        MessageBody::read_ok { messages, in_reply_to, msg_id } => {
            assert_eq!(sorted(messages.clone()), vec![5, 8]);
            assert_eq!(*in_reply_to, 6);
            assert_eq!(*msg_id, 4);
        }
        other => panic!("unexpected reply {:?}", other),
    }
}

#[test]
fn read_of_empty_store() {
    let mut node = Node::new();
    init(&mut node, "n1", &["n1"]);
    let mut tx = Vec::new();
    node.next(envelope("c1", "n1", MessageBody::read { msg_id: 2 }), &mut tx).unwrap();
    assert_eq!(tx, vec![envelope("n1", "c1", MessageBody::read_ok { messages: vec![], in_reply_to: 2, msg_id: 0 })]);
}

#[test]
fn topology_is_replaced_not_merged() {
    let mut node = Node::new();
    init(&mut node, "n1", &["n1", "n2", "n3"]);
    let tx = set_topology(&mut node, &[("n1", &["n2", "n3"]), ("n2", &["n1"])]);
    assert_eq!(tx, vec![envelope("n1", "c1", MessageBody::topology_ok { msg_id: 0, in_reply_to: 2 })]);
    set_topology(&mut node, &[("n3", &["n1"])]);
    assert_eq!(node.topology, vec![("n3".to_string(), strings(&["n1"]))]);
    // n1 is no longer in the map: a new value fans out nowhere
    let tx = broadcast(&mut node, "c1", 7, 3);
    assert_eq!(tx.len(), 1);
    assert!(node.outbox.iter().all(|(_, l)| l.is_empty()));
}

#[test]
fn fanout_skips_the_sender() {
    let mut node = Node::new();
    init(&mut node, "n1", &["n1", "n2", "n3", "n4"]);
    set_topology(&mut node, &[("n1", &["n2", "n3", "n4"])]);
    let tx = broadcast(&mut node, "n3", 11, 20);
    let dests: Vec<&str> = tx.iter().map(|m| m.dest.as_str()).collect();
    assert_eq!(dests, vec!["n3", "n2", "n4"]);
    assert!(matches!(tx[0].body, MessageBody::broadcast_ok { in_reply_to: 20, .. }));
    assert!(pending(&node, "n3").is_empty());
    assert_eq!(pending(&node, "n2").len(), 1);
    assert_eq!(pending(&node, "n4").len(), 1);
}

#[test]
fn no_fanout_without_neighbours() {
    let mut node = Node::new();
    init(&mut node, "n1", &[]);
    let tx = broadcast(&mut node, "c1", 1, 1);
    assert_eq!(tx.len(), 1);
    assert!(node.outbox.is_empty());
    let mut node = Node::new();
    init(&mut node, "n1", &["n1"]);
    set_topology(&mut node, &[("n1", &[])]);
    let tx = broadcast(&mut node, "c1", 1, 1);
    assert_eq!(tx.len(), 1);
    assert!(node.outbox.is_empty());
}

#[test]
fn every_pending_fanout_is_addressed_to_its_peer() {
    let mut node = Node::new();
    init(&mut node, "n1", &["n1", "n2", "n3"]);
    set_topology(&mut node, &[("n1", &["n2", "n3"])]);
    for v in 0..5u32 {
        broadcast(&mut node, "c1", v, 100 + v);
    }
    let mut tx = Vec::new();
    node.next(envelope("n2", "n1", MessageBody::broadcast_ok { msg_id: 1, in_reply_to: 102 }), &mut tx).unwrap();
    for (peer, list) in &node.outbox {
        for m in list {
            assert_eq!(&m.dest, peer);
        }
    }
    assert_eq!(pending(&node, "n2").len(), 4);
    assert_eq!(pending(&node, "n3").len(), 5);
}

#[test]
fn store_never_shrinks() {
    let mut node = n1_with_neighbour_n2();
    let mut seen: Vec<u32> = Vec::new();
    let inputs = vec![
        envelope("c1", "n1", MessageBody::broadcast { message: 4, msg_id: 1 }),
        envelope("n2", "n1", MessageBody::sync { msg_id: 2, messages: vec![9] }),
        envelope("n2", "n1", MessageBody::broadcast_ok { msg_id: 3, in_reply_to: 1 }),
        envelope("n2", "n1", MessageBody::sync_ok { msg_id: 4, in_reply_to: 0, messages: vec![] }),
        envelope("c1", "n1", MessageBody::read { msg_id: 5 }),
        envelope("c1", "n1", MessageBody::topology { topology: vec![], msg_id: 6 }),
    ];
    for m in inputs {
        let mut tx = Vec::new();
        node.next(m, &mut tx).unwrap();
        let now = store_of(&node);
        assert!(seen.iter().all(|v| now.contains(v)));
        seen = now;
    }
    assert_eq!(seen, vec![4, 9]);
}

#[test]
fn fresh_ids_strictly_increase() {
    let mut node = n1_with_neighbour_n2();
    let mut fresh: Vec<u32> = Vec::new();
    let inputs = vec![
        envelope("c1", "n1", MessageBody::echo { msg_id: 50, echo: "x".to_string() }),
        envelope("c1", "n1", MessageBody::broadcast { message: 4, msg_id: 51 }),
        envelope("c1", "n1", MessageBody::read { msg_id: 52 }),
        envelope("c1", "n1", MessageBody::generate { msg_id: 53 }),
        envelope("n2", "n1", MessageBody::sync { msg_id: 54, messages: vec![] }),
    ];
    for m in inputs {
        let mut tx = Vec::new();
        node.next(m, &mut tx).unwrap();
        for out in tx {
            match out.body {
                MessageBody::broadcast { .. } | MessageBody::init_ok { .. } => {}
                MessageBody::echo_ok { msg_id, .. }
                | MessageBody::broadcast_ok { msg_id, .. }
                | MessageBody::read_ok { msg_id, .. }
                | MessageBody::generate_ok { msg_id, .. }
                | MessageBody::sync_ok { msg_id, .. } => fresh.push(msg_id),
                other => panic!("unexpected output {:?}", other),
            }
        }
    }
    for s in node.request_sync_with_random_peers() {
        if let MessageBody::sync { msg_id, .. } = s.body {
            fresh.push(msg_id);
        }
    }
    assert_eq!(fresh, vec![1, 2, 3, 4, 5, 6, 7]);
}

#[test]
fn generate_answers_with_a_ulid() {
    let mut node = Node::new();
    init(&mut node, "n1", &["n1"]);
    let mut ids = Vec::new();
    for m in 0..3u32 {
        let mut tx = Vec::new();
        node.next(envelope("c1", "n1", MessageBody::generate { msg_id: m }), &mut tx).unwrap();
        assert_eq!(tx.len(), 1);
        match &tx[0].body {
            MessageBody::generate_ok { msg_id, in_reply_to, id } => {
                assert_eq!(*msg_id, m);
                assert_eq!(*in_reply_to, m);
                assert_eq!(id.len(), 26);
                assert!(id.chars().all(|c| "0123456789ABCDEFGHJKMNPQRSTVWXYZ".contains(c)));
                ids.push(id.clone());
            }
            other => panic!("unexpected reply {:?}", other),
        }
    }
    assert_ne!(ids[0], ids[1]);
    assert_ne!(ids[1], ids[2]);
}

#[test]
fn generate_with_a_given_id() {
    let mut node = Node::new();
    init(&mut node, "n1", &["n1"]);
    let mut tx = Vec::new();
    let r = node.handle_generate_with_id(
        envelope("c1", "n1", MessageBody::generate { msg_id: 4 }),
        "01ARZ3NDEKTSV4RRFFQ69G5FAV".to_string(),
        &mut tx,
    );
    assert_eq!(r, Ok(()));
    let expected = MessageBody::generate_ok { msg_id: 0, in_reply_to: 4, id: "01ARZ3NDEKTSV4RRFFQ69G5FAV".to_string() };
    assert_eq!(tx, vec![envelope("n1", "c1", expected)]);
}

#[test]
fn random_sync_asks_two_distinct_peers() {
    let mut node = Node::new();
    init(&mut node, "n1", &["n1", "n2", "n3", "n4"]);
    broadcast(&mut node, "c1", 3, 1);
    let before = node.msg_id;
    let requests = node.request_sync_with_random_peers();
    assert_eq!(requests.len(), 2);
    assert_ne!(requests[0].dest, requests[1].dest);
    for (i, r) in requests.iter().enumerate() {
        assert_eq!(r.src, "n1");
        assert!(node.node_ids.contains(&r.dest));
        assert_eq!(r.body, MessageBody::sync { msg_id: before + i as u32, messages: vec![3] });
    }
    assert_eq!(node.msg_id, before + 2);
}

#[test]
fn random_sync_with_few_peers() {
    let mut node = Node::new();
    init(&mut node, "n1", &[]);
    assert!(node.request_sync_with_random_peers().is_empty());
    assert_eq!(node.msg_id, 0);
    let mut node = Node::new();
    init(&mut node, "n1", &["n2"]);
    let requests = node.request_sync_with_random_peers();
    assert_eq!(requests.len(), 1);
    assert_eq!(requests[0].dest, "n2");
}

#[test]
fn sync_requests_to_chosen_peers() {
    let mut node = Node::new();
    init(&mut node, "n1", &["n1", "n2", "n3"]);
    let requests = node.sync_requests(&vec![2, 0]);
    assert_eq!(
        requests,
        vec![
            envelope("n1", "n3", MessageBody::sync { msg_id: 0, messages: vec![] }),
            envelope("n1", "n1", MessageBody::sync { msg_id: 1, messages: vec![] }),
        ]
    );
}

#[test]
fn retry_reemits_every_pending_fanout() {
    let mut node = Node::new();
    init(&mut node, "n1", &["n1", "n2", "n3"]);
    set_topology(&mut node, &[("n1", &["n2", "n3"])]);
    broadcast(&mut node, "c1", 1, 10);
    broadcast(&mut node, "c1", 2, 11);
    let mut tx = Vec::new();
    node.retry_messages(&mut tx);
    assert_eq!(
        tx,
        vec![
            envelope("n1", "n2", MessageBody::broadcast { message: 1, msg_id: 10 }),
            envelope("n1", "n2", MessageBody::broadcast { message: 2, msg_id: 11 }),
            envelope("n1", "n3", MessageBody::broadcast { message: 1, msg_id: 10 }),
            envelope("n1", "n3", MessageBody::broadcast { message: 2, msg_id: 11 }),
        ]
    );
    let mut again = Vec::new();
    node.retry_messages(&mut again);
    assert_eq!(again, tx);
}

#[test]
fn replies_only_clients_get_are_not_requests() {
    let replies = vec![
        MessageBody::init_ok { in_reply_to: 1 },
        MessageBody::echo_ok { msg_id: 1, in_reply_to: 1, echo: String::new() },
        MessageBody::topology_ok { msg_id: 1, in_reply_to: 1 },
        MessageBody::read_ok { messages: vec![], in_reply_to: 1, msg_id: 1 },
        MessageBody::generate_ok { msg_id: 1, in_reply_to: 1, id: String::new() },
    ];
    for body in replies {
        assert!(!body.is_request());
    }
    let requests = vec![
        MessageBody::init { msg_id: 1, node_id: "n1".to_string(), node_ids: vec![] },
        MessageBody::echo { msg_id: 1, echo: String::new() },
        MessageBody::generate { msg_id: 1 },
        MessageBody::topology { topology: vec![], msg_id: 1 },
        MessageBody::read { msg_id: 1 },
        MessageBody::broadcast { message: 1, msg_id: 1 },
        MessageBody::broadcast_ok { in_reply_to: 1, msg_id: 1 },
        MessageBody::sync { msg_id: 1, messages: vec![] },
        MessageBody::sync_ok { msg_id: 1, in_reply_to: 1, messages: vec![] },
    ];
    for body in requests {
        assert!(body.is_request());
    }
}

#[test]
fn topology_with_a_repeated_node_is_malformed() {
    let twice = MessageBody::topology {
        topology: vec![("n1".to_string(), strings(&["n2"])), ("n1".to_string(), strings(&["n3"]))],
        msg_id: 1,
    };
    assert!(!twice.is_well_formed());
    let once = MessageBody::topology {
        topology: vec![("n1".to_string(), strings(&["n2"])), ("n2".to_string(), strings(&["n1"]))],
        msg_id: 1,
    };
    assert!(once.is_well_formed());
    assert!(MessageBody::read { msg_id: 1 }.is_well_formed());
}

#[test]
fn exhausted_counter_stops_replies() {
    let mut node = n1_with_neighbour_n2();
    node.msg_id = u32::MAX;
    let mut tx = Vec::new();
    let r = node.next(envelope("c1", "n1", MessageBody::broadcast { message: 5, msg_id: 1 }), &mut tx);
    assert_eq!(r, Err(NodeError::IdsExhausted));
    assert!(tx.is_empty());
    assert!(node.store.is_empty());
    let r = node.next(envelope("c1", "n1", MessageBody::echo { msg_id: 1, echo: "e".to_string() }), &mut tx);
    assert_eq!(r, Err(NodeError::IdsExhausted));
    // acknowledgements and sync_ok need no fresh id
    let r = node.next(envelope("n2", "n1", MessageBody::sync_ok { msg_id: 1, in_reply_to: 1, messages: vec![5] }), &mut tx);
    assert_eq!(r, Ok(()));
    assert!(node.store.contains(&5));
}

#[test]
fn sync_round_needs_only_as_many_ids_as_peers() {
    let mut node = Node::new();
    init(&mut node, "n1", &["n2"]);
    node.msg_id = u32::MAX - 1;
    let requests = node.request_sync_with_random_peers();
    assert_eq!(requests.len(), 1);
    assert_eq!(requests[0].body, MessageBody::sync { msg_id: u32::MAX - 1, messages: vec![] });
    assert_eq!(node.msg_id, u32::MAX);
    assert_eq!(SYNC_PEERS, 2);
}

#[test]
fn last_fresh_id_is_used() {
    let mut node = n1_with_neighbour_n2();
    node.msg_id = u32::MAX - 1;
    assert_eq!(node.get_and_increment_msg_id(), u32::MAX - 1);
    assert_eq!(node.msg_id, u32::MAX);
}

#[test]
fn default_is_a_fresh_node() {
    let node = Node::default();
    assert_eq!(node.id, "");
    assert_eq!(node.msg_id, 0);
    assert!(node.node_ids.is_empty() && node.store.is_empty());
    assert!(node.topology.is_empty() && node.outbox.is_empty());
}

#[test]
fn reply_and_forward_addressing() {
    let m = envelope("c1", "n1", MessageBody::read { msg_id: 1 });
    let r = m.clone().into_reply(MessageBody::topology_ok { msg_id: 0, in_reply_to: 1 });
    assert_eq!(r, envelope("n1", "c1", MessageBody::topology_ok { msg_id: 0, in_reply_to: 1 }));
    let f = m.clone().into_message(MessageBody::read { msg_id: 3 }, "n7");
    assert_eq!(f, envelope("n1", "n7", MessageBody::read { msg_id: 3 }));
    let mut queue = vec![r.clone()];
    f.clone().send(&mut queue);
    assert_eq!(queue, vec![r, f]);
    assert_eq!(*m.body.msg_id(), 1);
    assert!(m.body.has_msg_id(1));
    assert!(!MessageBody::init_ok { in_reply_to: 1 }.has_msg_id(1));
}
