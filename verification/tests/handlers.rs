use tumult::echo::{EchoNode, Payload as EchoPayload};
use tumult::protocol::{Body, Event, Init, Message, Node, NodeError};
use tumult::unique::{Payload as UniquePayload, UniqueNode};

fn init(node_id: &str) -> Init {
    Init { node_id: node_id.to_string(), node_ids: vec![node_id.to_string()] }
}

#[test]
fn echo_replies_with_same_text() {
    let mut node = EchoNode::from_init((), init("n1")).unwrap();
    let out = node
        .step(Event::Message(Message {
            src: "c1".to_string(),
            dest: "n1".to_string(),
            body: Body {
                msg_id: Some(8),
                in_reply_to: None,
                payload: EchoPayload::Echo { echo: "hello".to_string() },
            },
        }))
        .unwrap();
    assert_eq!(out.len(), 1);
    let reply = &out[0];
    assert_eq!(reply.src, "n1");
    assert_eq!(reply.dest, "c1");
    assert_eq!(reply.body.msg_id, Some(1));
    assert_eq!(reply.body.in_reply_to, Some(8));
    match &reply.body.payload {
        EchoPayload::EchoOk { echo } => assert_eq!(echo, "hello"),
        _ => panic!("expected echo_ok"),
    }
}

#[test]
fn echo_absorbs_acknowledgements() {
    let mut node = EchoNode::from_init((), init("n1")).unwrap();
    let out = node
        .step(Event::Message(Message {
            src: "c1".to_string(),
            dest: "n1".to_string(),
            body: Body {
                msg_id: Some(8),
                in_reply_to: None,
                payload: EchoPayload::EchoOk { echo: "hello".to_string() },
            },
        }))
        .unwrap();
    assert!(out.is_empty());
    assert_eq!(node.id, 2);
}

#[test]
fn echo_rejects_injected_events() {
    let mut node = EchoNode::from_init((), init("n1")).unwrap();
    let r = node.step(Event::Injected(()));
    assert_eq!(r.unwrap_err(), NodeError::UnexpectedEvent);
}

#[test]
fn unique_generates_node_scoped_ids() {
    let mut node = UniqueNode::from_init((), init("n1")).unwrap();
    let out = node
        .step(Event::Message(Message {
            src: "c1".to_string(),
            dest: "n1".to_string(),
            body: Body { msg_id: Some(2), in_reply_to: None, payload: UniquePayload::Generate },
        }))
        .unwrap();
    assert_eq!(out.len(), 1);
    let reply = &out[0];
    assert_eq!(reply.body.msg_id, Some(1));
    assert_eq!(reply.body.in_reply_to, Some(2));
    match &reply.body.payload {
        UniquePayload::GenerateOk { uuid } => assert_eq!(uuid, "n1/2"),
        _ => panic!("expected generate_ok"),
    }
    let out2 = node
        .step(Event::Message(Message {
            src: "c1".to_string(),
            dest: "n1".to_string(),
            body: Body { msg_id: Some(3), in_reply_to: None, payload: UniquePayload::Generate },
        }))
        .unwrap();
    match &out2[0].body.payload {
        UniquePayload::GenerateOk { uuid } => assert_eq!(uuid, "n1/3"),
        _ => panic!("expected generate_ok"),
    }
}

#[test]
fn unique_absorbs_acknowledgements() {
    let mut node = UniqueNode::from_init((), init("n1")).unwrap();
    let out = node
        .step(Event::Message(Message {
            src: "c1".to_string(),
            dest: "n1".to_string(),
            body: Body {
                msg_id: Some(2),
                in_reply_to: None,
                payload: UniquePayload::GenerateOk { uuid: "x/1".to_string() },
            },
        }))
        .unwrap();
    assert!(out.is_empty());
}
