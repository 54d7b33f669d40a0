use tumult::broadcast::{gossip_payload, BroadcastNode, InjectedPayload, Payload, TopologyEntry};
use tumult::protocol::{Body, Event, Init, InitPayload, Message, Node, NodeError};

fn init_n1() -> BroadcastNode {
    let init = Init {
        node_id: "n1".to_string(),
        node_ids: vec!["n1".to_string(), "n2".to_string(), "n3".to_string()],
    };
    BroadcastNode::from_init((), init).unwrap()
}

fn msg(src: &str, dest: &str, msg_id: Option<usize>, payload: Payload) -> Event<Payload, InjectedPayload> {
    Event::Message(Message {
        src: src.to_string(),
        dest: dest.to_string(),
        body: Body { msg_id, in_reply_to: None, payload },
    })
}

#[test]
fn broadcast_inserts_and_replies() {
    let mut node = init_n1();
    let out = node
        .step(msg("c1", "n1", Some(7), Payload::Broadcast { message: 5 }))
        .unwrap();
    assert_eq!(out.len(), 1);
    let reply = &out[0];
    assert_eq!(reply.src, "n1");
    assert_eq!(reply.dest, "c1");
    assert_eq!(reply.body.msg_id, Some(1));
    assert_eq!(reply.body.in_reply_to, Some(7));
    assert!(matches!(reply.body.payload, Payload::BroadcastOk));
    assert_eq!(node.messages, vec![5]);
}

#[test]
fn broadcast_is_idempotent() {
    let mut node = init_n1();
    node.step(msg("c1", "n1", Some(1), Payload::Broadcast { message: 5 })).unwrap();
    let after_first = node.messages.clone();
    let out = node
        .step(msg("c1", "n1", Some(2), Payload::Broadcast { message: 5 }))
        .unwrap();
    assert_eq!(out.len(), 1);
    assert_eq!(node.messages, after_first);
    assert_eq!(node.messages, vec![5]);
}

#[test]
fn read_returns_message_set() {
    let mut node = init_n1();
    for (i, v) in [1usize, 2, 3].iter().enumerate() {
        node.step(msg("c1", "n1", Some(i), Payload::Broadcast { message: *v })).unwrap();
    }
    let out = node.step(msg("c1", "n1", Some(9), Payload::Read)).unwrap();
    assert_eq!(out.len(), 1);
    match &out[0].body.payload {
        Payload::ReadOk { messages } => {
            let mut got = messages.clone();
            got.sort();
            assert_eq!(got, vec![1, 2, 3]);
        }
        _ => panic!("expected read_ok"),
    }
}

#[test]
fn topology_sets_neighborhood() {
    let mut node = init_n1();
    let topology = vec![TopologyEntry { node: "n1".to_string(), neighbors: vec!["n2".to_string()] }];
    let out = node.step(msg("c1", "n1", Some(3), Payload::Topology { topology })).unwrap();
    assert_eq!(out.len(), 1);
    assert!(matches!(out[0].body.payload, Payload::TopologyOk));
    assert_eq!(out[0].body.in_reply_to, Some(3));
    assert_eq!(node.neighborhood, vec!["n2".to_string()]);
}

#[test]
fn topology_without_own_entry_is_fatal() {
    let mut node = init_n1();
    let topology = vec![TopologyEntry { node: "n2".to_string(), neighbors: vec![] }];
    let r = node.step(msg("c1", "n1", Some(3), Payload::Topology { topology }));
    assert_eq!(r.unwrap_err(), NodeError::MissingTopologyEntry);
    assert!(node.neighborhood.is_empty());
}

#[test]
fn topology_with_unknown_neighbor_is_fatal() {
    let mut node = init_n1();
    let topology = vec![TopologyEntry {
        node: "n1".to_string(),
        neighbors: vec!["stranger".to_string()],
    }];
    let r = node.step(msg("c1", "n1", Some(3), Payload::Topology { topology }));
    assert_eq!(r.unwrap_err(), NodeError::UnknownNeighbor);
}

#[test]
fn gossip_produces_no_reply_and_merges() {
    let mut node = init_n1();
    let out = node
        .step(msg("n2", "n1", None, Payload::Gossip { seen: vec![4, 9] }))
        .unwrap();
    assert!(out.is_empty());
    let mut got = node.messages.clone();
    got.sort();
    assert_eq!(got, vec![4, 9]);
    let entry = node.known.iter().find(|p| p.peer == "n2").unwrap();
    let mut seen = entry.seen.clone();
    seen.sort();
    assert_eq!(seen, vec![4, 9]);
}

#[test]
fn gossip_from_unknown_sender_is_fatal() {
    let mut node = init_n1();
    let r = node.step(msg("zz", "n1", None, Payload::Gossip { seen: vec![1] }));
    assert_eq!(r.unwrap_err(), NodeError::UnknownGossipSender);
}

#[test]
fn tick_gossips_to_each_neighbor() {
    let mut node = init_n1();
    let topology = vec![TopologyEntry { node: "n1".to_string(), neighbors: vec!["n2".to_string()] }];
    node.step(msg("c1", "n1", Some(1), Payload::Topology { topology })).unwrap();
    node.step(msg("c1", "n1", Some(2), Payload::Broadcast { message: 5 })).unwrap();
    node.step(msg("c1", "n1", Some(3), Payload::Broadcast { message: 6 })).unwrap();
    let out = node.step(Event::Injected(InjectedPayload::Gossip)).unwrap();
    assert_eq!(out.len(), 1);
    let m = &out[0];
    assert_eq!(m.src, "n1");
    assert_eq!(m.dest, "n2");
    assert_eq!(m.body.msg_id, None);
    assert_eq!(m.body.in_reply_to, None);
    match &m.body.payload {
        Payload::Gossip { seen } => {
            assert!(seen.contains(&5));
            assert!(seen.contains(&6));
            assert_eq!(seen.len(), 2);
        }
        _ => panic!("expected gossip"),
    }
}

#[test]
fn tick_without_topology_is_a_no_op() {
    let mut node = init_n1();
    node.step(msg("c1", "n1", Some(1), Payload::Broadcast { message: 5 })).unwrap();
    let out = node.step(Event::Injected(InjectedPayload::Gossip)).unwrap();
    assert!(out.is_empty());
}

#[test]
fn gossip_payload_respects_redundancy_bound() {
    let messages: Vec<usize> = (0..20).collect();
    let known: Vec<usize> = (0..10).collect();
    let seen = gossip_payload(&messages, &known);
    for v in 10..20 {
        assert!(seen.contains(&v));
    }
    let redundant = seen.iter().filter(|v| known.contains(v)).count();
    assert!(redundant <= 1);
    let mut dedup = seen.clone();
    dedup.sort();
    dedup.dedup();
    assert_eq!(dedup.len(), seen.len());
}

#[test]
fn gossip_payload_sends_everything_to_an_ignorant_peer() {
    let messages: Vec<usize> = vec![5, 6];
    let known: Vec<usize> = vec![];
    let seen = gossip_payload(&messages, &known);
    let mut got = seen.clone();
    got.sort();
    assert_eq!(got, vec![5, 6]);
}

#[test]
fn acknowledgements_are_absorbed() {
    let mut node = init_n1();
    for payload in [Payload::BroadcastOk, Payload::ReadOk { messages: vec![1] }, Payload::TopologyOk] {
        let out = node.step(msg("n2", "n1", Some(1), payload)).unwrap();
        assert!(out.is_empty());
    }
    assert_eq!(node.id, 4);
}

#[test]
fn eof_is_absorbed() {
    let mut node = init_n1();
    let out = node.step(Event::EOF).unwrap();
    assert!(out.is_empty());
}

#[test]
fn from_init_tracks_each_member_once() {
    let init = Init {
        node_id: "n1".to_string(),
        node_ids: vec!["n1".to_string(), "n1".to_string(), "n2".to_string()],
    };
    let node = BroadcastNode::from_init((), init).unwrap();
    assert_eq!(node.known.len(), 2);
    assert_eq!(node.id, 1);
    assert!(node.messages.is_empty());
    assert!(node.neighborhood.is_empty());
}

#[test]
fn init_handshake_replies_with_msg_id_zero() {
    let req = Message {
        src: "c1".to_string(),
        dest: "n1".to_string(),
        body: Body {
            msg_id: Some(1),
            in_reply_to: None,
            payload: InitPayload::Init(Init {
                node_id: "n1".to_string(),
                node_ids: vec!["n1".to_string()],
            }),
        },
    };
    let (init, reply) = tumult::protocol::handle_init(req).unwrap();
    assert_eq!(init.node_id, "n1");
    assert_eq!(reply.src, "n1");
    assert_eq!(reply.dest, "c1");
    assert_eq!(reply.body.msg_id, Some(0));
    assert_eq!(reply.body.in_reply_to, Some(1));
    assert!(matches!(reply.body.payload, InitPayload::InitOk));
}

#[test]
fn init_handshake_rejects_other_first_message() {
    let req = Message {
        src: "c1".to_string(),
        dest: "n1".to_string(),
        body: Body { msg_id: Some(1), in_reply_to: None, payload: InitPayload::InitOk },
    };
    let r = tumult::protocol::handle_init(req);
    assert_eq!(r.unwrap_err(), NodeError::ExpectedInit);
}

#[test]
fn into_reply_swaps_and_correlates() {
    let req = Message {
        src: "c1".to_string(),
        dest: "n1".to_string(),
        body: Body { msg_id: Some(41), in_reply_to: None, payload: Payload::Read },
    };
    let mut counter: usize = 10;
    let reply = req.into_reply(&mut counter);
    assert_eq!(counter, 11);
    assert_eq!(reply.src, "n1");
    assert_eq!(reply.dest, "c1");
    assert_eq!(reply.body.msg_id, Some(10));
    assert_eq!(reply.body.in_reply_to, Some(41));
}

#[test]
fn into_reply_unnumbered_has_no_msg_id() {
    let req = Message {
        src: "c1".to_string(),
        dest: "n1".to_string(),
        body: Body { msg_id: Some(41), in_reply_to: None, payload: Payload::Read },
    };
    let reply = req.into_reply_unnumbered();
    assert_eq!(reply.body.msg_id, None);
    assert_eq!(reply.body.in_reply_to, Some(41));
    assert_eq!(reply.src, "n1");
    assert_eq!(reply.dest, "c1");
}
