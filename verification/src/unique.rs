//! The id-generation service: a near-stateless single-shot responder that
//! mints process-unique ids from the node name and the reply counter.

use vstd::prelude::*;
use vstd::string::StringExecFns;
use crate::protocol::{Body, Event, Init, Message, Node, NodeError};

verus! {

/// The id-generation payload.
#[derive(Debug, Clone)]
pub enum Payload {
    Generate,
    GenerateOk { uuid: String },
}

/// The id-generation node: its name and the reply counter, whose pairing
/// makes every generated id unique across the cluster.
#[derive(Debug, Clone)]
pub struct UniqueNode {
    pub node: String,
    pub id: usize,
}

/// The character of one decimal digit.
pub open spec fn decimal_digit(d: nat) -> char {
    if d == 0 {
        '0'
    } else if d == 1 {
        '1'
    } else if d == 2 {
        '2'
    } else if d == 3 {
        '3'
    } else if d == 4 {
        '4'
    } else if d == 5 {
        '5'
    } else if d == 6 {
        '6'
    } else if d == 7 {
        '7'
    } else if d == 8 {
        '8'
    } else {
        '9'
    }
}

/// The decimal rendering of a number, most significant digit first.
pub open spec fn spec_decimal(n: nat) -> Seq<char>
    decreases n,
{
    if n < 10 {
        seq![decimal_digit(n)]
    } else {
        spec_decimal(n / 10).push(decimal_digit(n % 10))
    }
}

/// Relies on the standard `format!` macro: an unsigned integer renders as
/// its decimal digits, most significant first.
#[verifier::external_body]
fn format_usize(n: usize) -> (r: String)
    ensures
        r@ == spec_decimal(n as nat),
{
    format!("{}", n)
}

impl Node<(), Payload, ()> for UniqueNode {
    open spec fn init_req(state: (), init: Init) -> bool {
        true
    }

    open spec fn init_ens(state: (), init: Init, r: Result<Self, NodeError>) -> bool {
        r matches Ok(n) && n.id == 1 && n.node == init.node_id
    }

    open spec fn step_req(pre: Self, input: Event<Payload, ()>) -> bool {
        pre.id < usize::MAX
    }

    open spec fn step_ens(
        pre: Self,
        input: Event<Payload, ()>,
        post: Self,
        out: Result<Vec<Message<Payload>>, NodeError>,
    ) -> bool {
        match input {
            Event::Message(m) => {
                &&& post.id == pre.id + 1
                &&& post.node == pre.node
                &&& match m.body.payload {
                    Payload::Generate => out matches Ok(v) && v@.len() == 1
                        && v@[0].src == m.dest && v@[0].dest == m.src
                        && v@[0].body.msg_id == Some(pre.id)
                        && v@[0].body.in_reply_to == m.body.msg_id
                        && (v@[0].body.payload matches Payload::GenerateOk { uuid } && uuid@
                        == pre.node@ + seq!['/'] + spec_decimal((pre.id + 1) as nat)),
                    Payload::GenerateOk { .. } => out matches Ok(v) && v@.len() == 0,
                }
            },
            Event::EOF => post == pre && (out matches Ok(v) && v@.len() == 0),
            Event::Injected(_) => post == pre && (out matches Err(e) && e
                == NodeError::UnexpectedEvent),
        }
    }

    fn from_init(state: (), init: Init) -> (r: Result<Self, NodeError>) {
        Ok(UniqueNode { node: init.node_id, id: 1 })
    }

    fn step(&mut self, input: Event<Payload, ()>) -> (out: Result<Vec<Message<Payload>>, NodeError>) {
        match input {
            Event::EOF => Ok(Vec::new()),
            Event::Injected(_) => Err(NodeError::UnexpectedEvent),
            Event::Message(m) => {
                let reply = m.into_reply(&mut self.id);
                let Message { src, dest, body } = reply;
                let Body { msg_id, in_reply_to, payload } = body;
                match payload {
                    Payload::Generate => {
                        let digits = format_usize(self.id);
                        let mut uuid = self.node.clone();
                        uuid.append("/");
                        uuid.append(digits.as_str());
                        proof {
                            reveal_strlit("/");
                            assert(("/")@ =~= seq!['/']);
                        }
                        let mut v: Vec<Message<Payload>> = Vec::new();
                        v.push(Message {
                            src,
                            dest,
                            body: Body {
                                msg_id,
                                in_reply_to,
                                payload: Payload::GenerateOk { uuid },
                            },
                        });
                        Ok(v)
                    },
                    Payload::GenerateOk { .. } => Ok(Vec::new()),
                }
            },
        }
    }
}

} // verus!
