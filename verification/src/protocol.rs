//! Envelope and protocol types: the wire message shape, the reply-construction
//! rule, the init handshake, and the handler contract every protocol node
//! satisfies.

use vstd::prelude::*;

verus! {

/// The transport-level wrapper (source, destination, body) around a protocol
/// payload.
#[derive(Debug, Clone)]
pub struct Message<P> {
    pub src: String,
    pub dest: String,
    pub body: Body<P>,
}

/// The body of an envelope: the correlation ids plus the protocol payload.
#[derive(Debug, Clone)]
pub struct Body<P> {
    pub msg_id: Option<usize>,
    pub in_reply_to: Option<usize>,
    pub payload: P,
}

/// The payload of the very first exchange: the node learns its own id and the
/// full cluster membership.
#[derive(Debug, Clone)]
pub struct Init {
    pub node_id: String,
    pub node_ids: Vec<String>,
}

/// The init handshake payload: the request carrying an [`Init`], and the
/// acknowledgement sent back.
#[derive(Debug, Clone)]
pub enum InitPayload {
    Init(Init),
    InitOk,
}

/// One event presented to a node's dispatch loop: an externally arriving
/// message, an internally injected event (such as a timer tick), or the end
/// of input.
#[derive(Debug, Clone)]
pub enum Event<P, IP> {
    Message(Message<P>),
    Injected(IP),
    EOF,
}

/// A fatal condition reported by a handler. Every variant is an unrecoverable
/// protocol or configuration violation; the process around the library is
/// expected to terminate on any of them.
#[derive(Clone, Copy, Debug, PartialEq, Eq, Structural)]
pub enum NodeError {
    /// The first message was not an init request.
    ExpectedInit,
    /// A topology message carried no entry for this node.
    MissingTopologyEntry,
    /// A topology entry named a peer outside the initial membership list.
    UnknownNeighbor,
    /// A gossip message arrived from a node outside the membership list.
    UnknownGossipSender,
    /// The node received an event kind it cannot service.
    UnexpectedEvent,
}

impl<P> Message<P> {
    /// Turn a request into its reply: swap `src` and `dest`, set
    /// `in_reply_to` to the request's `msg_id`, and stamp the reply with a
    /// fresh `msg_id` drawn from the caller's monotonically increasing
    /// counter.
    pub fn into_reply(self, id: &mut usize) -> (r: Message<P>)
        requires
            *old(id) < usize::MAX,
        ensures
            *final(id) == *old(id) + 1,
            r.src == self.dest,
            r.dest == self.src,
            r.body.msg_id == Some(*old(id)),
            r.body.in_reply_to == self.body.msg_id,
            r.body.payload == self.body.payload,
    {
        let msg_id: usize = *id;
        *id = *id + 1;
        Message {
            src: self.dest,
            dest: self.src,
            body: Body {
                msg_id: Some(msg_id),
                in_reply_to: self.body.msg_id,
                payload: self.body.payload,
            },
        }
    }

    /// Turn a request into a reply that carries no `msg_id` of its own, for
    /// fire-and-forget sends that expect no acknowledgement.
    pub fn into_reply_unnumbered(self) -> (r: Message<P>)
        ensures
            r.src == self.dest,
            r.dest == self.src,
            r.body.msg_id == None::<usize>,
            r.body.in_reply_to == self.body.msg_id,
            r.body.payload == self.body.payload,
    {
        Message {
            src: self.dest,
            dest: self.src,
            body: Body {
                msg_id: None,
                in_reply_to: self.body.msg_id,
                payload: self.body.payload,
            },
        }
    }
}

/// The init handshake: the first message must carry an init request; the
/// node acknowledges it with `msg_id` 0 and `in_reply_to` set to the
/// request's `msg_id`. Returns the extracted [`Init`] together with the
/// acknowledgement envelope, or reports the protocol violation.
pub fn handle_init(msg: Message<InitPayload>) -> (r: Result<(Init, Message<InitPayload>), NodeError>)
    ensures
        match r {
            Ok((init, reply)) => {
                &&& msg.body.payload matches InitPayload::Init(i) && i == init
                &&& reply.src == msg.dest
                &&& reply.dest == msg.src
                &&& reply.body.msg_id == Some(0usize)
                &&& reply.body.in_reply_to == msg.body.msg_id
                &&& reply.body.payload is InitOk
            },
            Err(e) => e == NodeError::ExpectedInit && msg.body.payload is InitOk,
        },
{
    let Message { src, dest, body } = msg;
    match body.payload {
        InitPayload::Init(init) => {
            let reply = Message {
                src: dest,
                dest: src,
                body: Body {
                    msg_id: Some(0),
                    in_reply_to: body.msg_id,
                    payload: InitPayload::InitOk,
                },
            };
            Ok((init, reply))
        },
        InitPayload::InitOk => Err(NodeError::ExpectedInit),
    }
}

/// The contract every protocol handler satisfies: it is constructed once from
/// the init message, and then consumes one event at a time, returning the
/// envelopes to emit. Each implementation pins its behaviour down through the
/// four specification functions.
pub trait Node<S, P, IP>: Sized {
    /// When construction from an init message is permitted.
    spec fn init_req(state: S, init: Init) -> bool;

    /// What the freshly constructed node looks like.
    spec fn init_ens(state: S, init: Init, r: Result<Self, NodeError>) -> bool;

    /// When the node can service an event.
    spec fn step_req(pre: Self, input: Event<P, IP>) -> bool;

    /// How one event changes the node and what it emits.
    spec fn step_ens(
        pre: Self,
        input: Event<P, IP>,
        post: Self,
        out: Result<Vec<Message<P>>, NodeError>,
    ) -> bool;

    /// Construct the node's initial state from the init payload.
    fn from_init(state: S, init: Init) -> (r: Result<Self, NodeError>)
        requires
            Self::init_req(state, init),
        ensures
            Self::init_ens(state, init, r),
    ;

    /// Consume one event: mutate the node's state and return the envelopes to
    /// send, in order.
    fn step(&mut self, input: Event<P, IP>) -> (out: Result<Vec<Message<P>>, NodeError>)
        requires
            Self::step_req(*old(self), input),
        ensures
            Self::step_ens(*old(self), input, *final(self), out),
    ;
}

} // verus!
