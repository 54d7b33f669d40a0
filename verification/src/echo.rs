//! The echo service: a stateless single-shot responder, included to show
//! that any protocol handler satisfies the same runtime contract.

use vstd::prelude::*;
use crate::protocol::{Body, Event, Init, Message, Node, NodeError};

verus! {

/// The echo service payload.
#[derive(Debug, Clone)]
pub enum Payload {
    Echo { echo: String },
    EchoOk { echo: String },
}

/// The echo node: stateless but for the reply counter.
#[derive(Debug, Clone)]
pub struct EchoNode {
    pub id: usize,
}

impl Node<(), Payload, ()> for EchoNode {
    open spec fn init_req(state: (), init: Init) -> bool {
        true
    }

    open spec fn init_ens(state: (), init: Init, r: Result<Self, NodeError>) -> bool {
        r matches Ok(n) && n.id == 1
    }

    open spec fn step_req(pre: Self, input: Event<Payload, ()>) -> bool {
        pre.id < usize::MAX
    }

    open spec fn step_ens(
        pre: Self,
        input: Event<Payload, ()>,
        post: Self,
        out: Result<Vec<Message<Payload>>, NodeError>,
    ) -> bool {
        match input {
            Event::Message(m) => {
                &&& post.id == pre.id + 1
                &&& match m.body.payload {
                    Payload::Echo { echo } => out matches Ok(v) && v@.len() == 1
                        && v@[0].src == m.dest && v@[0].dest == m.src
                        && v@[0].body.msg_id == Some(pre.id)
                        && v@[0].body.in_reply_to == m.body.msg_id
                        && (v@[0].body.payload matches Payload::EchoOk { echo: e } && e == echo),
                    Payload::EchoOk { .. } => out matches Ok(v) && v@.len() == 0,
                }
            },
            Event::EOF => post == pre && (out matches Ok(v) && v@.len() == 0),
            Event::Injected(_) => post == pre && (out matches Err(e) && e
                == NodeError::UnexpectedEvent),
        }
    }

    fn from_init(state: (), init: Init) -> (r: Result<Self, NodeError>) {
        Ok(EchoNode { id: 1 })
    }

    fn step(&mut self, input: Event<Payload, ()>) -> (out: Result<Vec<Message<Payload>>, NodeError>) {
        match input {
            Event::EOF => Ok(Vec::new()),
            Event::Injected(_) => Err(NodeError::UnexpectedEvent),
            Event::Message(m) => {
                let reply = m.into_reply(&mut self.id);
                let Message { src, dest, body } = reply;
                let Body { msg_id, in_reply_to, payload } = body;
                match payload {
                    Payload::Echo { echo } => {
                        let mut v: Vec<Message<Payload>> = Vec::new();
                        v.push(Message {
                            src,
                            dest,
                            body: Body { msg_id, in_reply_to, payload: Payload::EchoOk { echo } },
                        });
                        Ok(v)
                    },
                    Payload::EchoOk { .. } => Ok(Vec::new()),
                }
            },
        }
    }
}

} // verus!
