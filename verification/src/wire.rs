//! The envelope codec between the flat form a message has on the wire and
//! the typed form the runtime works on. On the wire the payload's fields
//! stand in the body beside the correlation identifiers, and a tag names
//! the kind of payload.

use crate::broadcast::{BroadcastNode, InPayload, OutPayload};
use crate::message::{Body, InMessage, OutMessage};
use crate::runtime::{
    step, stepped, Action, Event, Incoming, InitOkPayload, InitPayload, Runtime, RuntimeError,
};
use vstd::prelude::*;

verus! {

/// A message body as it stands on the wire. A field that the wire form
/// does not carry is `None`.
#[derive(Clone, Debug, PartialEq, Eq)]
pub struct WireBody {
    /// The tag that names the kind of payload.
    pub tag: String,
    pub msg_id: Option<usize>,
    pub in_reply_to: Option<usize>,
    pub message: Option<usize>,
    pub messages: Option<Vec<usize>>,
    pub topology: Option<Vec<(String, Vec<String>)>>,
    pub node_id: Option<String>,
    pub node_ids: Option<Vec<String>>,
}

/// A message as it stands on the wire.
#[derive(Clone, Debug, PartialEq, Eq)]
pub struct WireMessage {
    pub src: String,
    pub dst: String,
    pub body: WireBody,
}

/// Why a wire message has no typed form.
#[derive(Clone, Copy, Debug, PartialEq, Eq, Structural)]
pub enum DecodeError {
    /// The tag is none of the known ones.
    UnknownTag,
    /// The tag is known, but a field its payload needs is not there.
    MissingField,
}

/// The typed payload that an inbound tag and the fields beside it stand
/// for.
pub open spec fn payload_of(body: WireBody) -> Result<InPayload, DecodeError> {
    if body.tag@ == "broadcast"@ {
        match body.message {
            Some(message) => Ok(InPayload::Broadcast { message }),
            None => Err(DecodeError::MissingField),
        }
    } else if body.tag@ == "read"@ {
        Ok(InPayload::Read)
    } else if body.tag@ == "topology"@ {
        match body.topology {
            Some(topology) => Ok(InPayload::Topology { topology }),
            None => Err(DecodeError::MissingField),
        }
    } else if body.tag@ == "gossip"@ {
        match body.message {
            Some(message) => Ok(InPayload::Gossip { message }),
            None => Err(DecodeError::MissingField),
        }
    } else if body.tag@ == "gossip_ok"@ {
        match body.message {
            Some(message) => Ok(InPayload::GossipOk { message }),
            None => Err(DecodeError::MissingField),
        }
    } else {
        Err(DecodeError::UnknownTag)
    }
}

/// The handshake payload that the fields of an `init` body stand for.
pub open spec fn init_of(body: WireBody) -> Result<InitPayload, DecodeError> {
    match (body.node_id, body.node_ids) {
        (Some(node_id), Some(node_ids)) => Ok(InitPayload::Init { node_id, node_ids }),
        _ => Err(DecodeError::MissingField),
    }
}

/// The envelope of `wire` around `payload`.
pub open spec fn typed<P>(wire: WireMessage, payload: P) -> InMessage<P> {
    InMessage {
        src: wire.src,
        dst: wire.dst,
        body: Body { msg_id: wire.body.msg_id, in_reply_to: wire.body.in_reply_to, payload },
    }
}

/// The typed form of `wire`: the handshake under the tag `init`, a message
/// for the node under the node's tags, and an error otherwise.
pub open spec fn decoded(wire: WireMessage) -> Result<Incoming<InPayload>, DecodeError> {
    if wire.body.tag@ == "init"@ {
        match init_of(wire.body) {
            Ok(payload) => Ok(Incoming::Init(typed(wire, payload))),
            Err(why) => Err(why),
        }
    } else {
        match payload_of(wire.body) {
            Ok(payload) => Ok(Incoming::Regular(typed(wire, payload))),
            Err(why) => Err(why),
        }
    }
}

/// Whether `tag` reads `word`.
fn tagged(tag: &String, word: &str) -> (same: bool)
    ensures
        same == (tag@ == word@),
{
    *tag == word.to_owned()
}

/// Decodes a wire message. A tag outside the known set fails; so does a
/// known tag without the fields of its payload. Fields that the payload
/// does not need are ignored.
pub fn decode(wire: WireMessage) -> (out: Result<Incoming<InPayload>, DecodeError>)
    ensures
        out == decoded(wire),
{
    let WireMessage { src, dst, body } = wire;
    let WireBody { tag, msg_id, in_reply_to, message, messages: _, topology, node_id, node_ids } =
        body;
    if tagged(&tag, "init") {
        match (node_id, node_ids) {
            (Some(node_id), Some(node_ids)) => Ok(
                Incoming::Init(
                    InMessage {
                        src,
                        dst,
                        body: Body {
                            msg_id,
                            in_reply_to,
                            payload: InitPayload::Init { node_id, node_ids },
                        },
                    },
                ),
            ),
            _ => Err(DecodeError::MissingField),
        }
    } else {
        let payload = if tagged(&tag, "broadcast") {
            match message {
                Some(message) => InPayload::Broadcast { message },
                None => {
                    return Err(DecodeError::MissingField);
                },
            }
        } else if tagged(&tag, "read") {
            InPayload::Read
        } else if tagged(&tag, "topology") {
            match topology {
                Some(topology) => InPayload::Topology { topology },
                None => {
                    return Err(DecodeError::MissingField);
                },
            }
        } else if tagged(&tag, "gossip") {
            match message {
                Some(message) => InPayload::Gossip { message },
                None => {
                    return Err(DecodeError::MissingField);
                },
            }
        } else if tagged(&tag, "gossip_ok") {
            match message {
                Some(message) => InPayload::GossipOk { message },
                None => {
                    return Err(DecodeError::MissingField);
                },
            }
        } else {
            return Err(DecodeError::UnknownTag);
        };
        Ok(Incoming::Regular(InMessage { src, dst, body: Body { msg_id, in_reply_to, payload } }))
    }
}

/// The tag of an outgoing payload.
pub open spec fn tag_of(payload: OutPayload) -> Seq<char> {
    match payload {
        OutPayload::BroadcastOk => "broadcast_ok"@,
        OutPayload::ReadOk { .. } => "read_ok"@,
        OutPayload::TopologyOk => "topology_ok"@,
        OutPayload::Gossip { .. } => "gossip"@,
        OutPayload::GossipOk { .. } => "gossip_ok"@,
    }
}

/// The wire form of `msg`: addresses and identifiers as they are, the tag
/// of the payload, and the payload's fields beside them.
pub open spec fn is_encoding(wire: WireMessage, msg: OutMessage<OutPayload>) -> bool {
    &&& wire.src == msg.src
    &&& wire.dst == msg.dst
    &&& wire.body.msg_id == msg.body.msg_id
    &&& wire.body.in_reply_to == msg.body.in_reply_to
    &&& wire.body.tag@ == tag_of(msg.body.payload)
    &&& wire.body.message == match msg.body.payload {
        OutPayload::Gossip { message } => Some(message),
        OutPayload::GossipOk { message } => Some(message),
        _ => None,
    }
    &&& wire.body.messages == match msg.body.payload {
        OutPayload::ReadOk { messages } => Some(messages),
        _ => None,
    }
    &&& wire.body.topology is None
    &&& wire.body.node_id is None
    &&& wire.body.node_ids is None
}

/// Encodes what a broadcast node sends.
pub fn encode(msg: OutMessage<OutPayload>) -> (wire: WireMessage)
    ensures
        is_encoding(wire, msg),
{
    let OutMessage { src, dst, body } = msg;
    let Body { msg_id, in_reply_to, payload } = body;
    let (tag, message, messages) = match payload {
        OutPayload::BroadcastOk => ("broadcast_ok".to_owned(), None, None),
        OutPayload::ReadOk { messages } => ("read_ok".to_owned(), None, Some(messages)),
        OutPayload::TopologyOk => ("topology_ok".to_owned(), None, None),
        OutPayload::Gossip { message } => ("gossip".to_owned(), Some(message), None),
        OutPayload::GossipOk { message } => ("gossip_ok".to_owned(), Some(message), None),
    };
    WireMessage {
        src,
        dst,
        body: WireBody {
            tag,
            msg_id,
            in_reply_to,
            message,
            messages,
            topology: None,
            node_id: None,
            node_ids: None,
        },
    }
}

/// Encodes the answer to the handshake: the tag `init_ok` and no payload
/// field.
pub fn encode_init_ok(msg: OutMessage<InitOkPayload>) -> (wire: WireMessage)
    ensures
        wire.src == msg.src,
        wire.dst == msg.dst,
        wire.body.msg_id == msg.body.msg_id,
        wire.body.in_reply_to == msg.body.in_reply_to,
        wire.body.tag@ == "init_ok"@,
        wire.body.message is None,
        wire.body.messages is None,
        wire.body.topology is None,
        wire.body.node_id is None,
        wire.body.node_ids is None,
{
    let OutMessage { src, dst, body } = msg;
    WireMessage {
        src,
        dst,
        body: WireBody {
            tag: "init_ok".to_owned(),
            msg_id: body.msg_id,
            in_reply_to: body.in_reply_to,
            message: None,
            messages: None,
            topology: None,
            node_id: None,
            node_ids: None,
        },
    }
}

/// What is said between peers has the same payload on both sides of the
/// wire.
pub open spec fn heard(payload: OutPayload) -> Option<InPayload> {
    match payload {
        OutPayload::Gossip { message } => Some(InPayload::Gossip { message }),
        OutPayload::GossipOk { message } => Some(InPayload::GossipOk { message }),
        _ => None,
    }
}

/// Decoding undoes encoding: a gossip or an acknowledgment that one node
/// encodes, another decodes as the same message, with addresses and
/// identifiers as they were.
pub proof fn lemma_peer_round_trip(msg: OutMessage<OutPayload>, wire: WireMessage)
    requires
        is_encoding(wire, msg),
        heard(msg.body.payload) is Some,
    ensures
        decoded(wire) == Ok::<Incoming<InPayload>, DecodeError>(
            Incoming::Regular(
                InMessage {
                    src: msg.src,
                    dst: msg.dst,
                    body: Body {
                        msg_id: msg.body.msg_id,
                        in_reply_to: msg.body.in_reply_to,
                        payload: heard(msg.body.payload)->0,
                    },
                },
            ),
        ),
{
    reveal_strlit("init");
    reveal_strlit("broadcast");
    reveal_strlit("read");
    reveal_strlit("topology");
    reveal_strlit("gossip");
    reveal_strlit("gossip_ok");
    assert("gossip"@.len() == 6 && "gossip_ok"@.len() == 9);
    assert("init"@.len() == 4 && "read"@.len() == 4);
    assert("broadcast"@.len() == 9 && "topology"@.len() == 8);
    assert("gossip_ok"@[0] != "broadcast"@[0]);
}

/// No tag that a node sends in answer to a client is taken for a request:
/// answers are not known inbound tags.
pub proof fn lemma_answers_are_not_requests(msg: OutMessage<OutPayload>, wire: WireMessage)
    requires
        is_encoding(wire, msg),
        heard(msg.body.payload) is None,
    ensures
        decoded(wire) == Err::<Incoming<InPayload>, DecodeError>(DecodeError::UnknownTag),
{
    reveal_strlit("init");
    reveal_strlit("broadcast");
    reveal_strlit("read");
    reveal_strlit("topology");
    reveal_strlit("gossip");
    reveal_strlit("gossip_ok");
    reveal_strlit("broadcast_ok");
    reveal_strlit("read_ok");
    reveal_strlit("topology_ok");
    assert("broadcast_ok"@.len() == 12 && "read_ok"@.len() == 7 && "topology_ok"@.len() == 11);
    assert("gossip"@.len() == 6 && "gossip_ok"@.len() == 9);
    assert("init"@.len() == 4 && "read"@.len() == 4);
    assert("broadcast"@.len() == 9 && "topology"@.len() == 8);
}

/// Why a wire message was not handled. Either way the runtime is terminal
/// afterwards.
#[derive(Clone, Copy, Debug, PartialEq, Eq, Structural)]
pub enum ReceiveError {
    /// The message has no typed form.
    Malformed(DecodeError),
    /// The message was decoded, and the step it caused failed.
    Failed(RuntimeError),
}

/// What a wire message does to a broadcast runtime: one that cannot be
/// decoded is fatal, whatever the state; one that can takes the step that
/// its typed form takes.
pub open spec fn received<W>(
    pre: Runtime<W, BroadcastNode<W>>,
    wire: WireMessage,
    post: Runtime<W, BroadcastNode<W>>,
    out: Result<Action<W, OutPayload>, ReceiveError>,
) -> bool {
    match decoded(wire) {
        Err(why) => post is Terminal && out == Err::<Action<W, OutPayload>, ReceiveError>(
            ReceiveError::Malformed(why),
        ),
        Ok(incoming) => exists|result: Result<Action<W, OutPayload>, RuntimeError>|
            stepped(pre, Event::Message(incoming), post, result) && out == match result {
                Ok(action) => Ok::<Action<W, OutPayload>, ReceiveError>(action),
                Err(why) => Err(ReceiveError::Failed(why)),
            },
    }
}

/// Decodes a wire message and lets the runtime of a broadcast node take
/// the step for it.
pub fn receive<W>(runtime: Runtime<W, BroadcastNode<W>>, wire: WireMessage) -> (next: (
    Runtime<W, BroadcastNode<W>>,
    Result<Action<W, OutPayload>, ReceiveError>,
))
    ensures
        received(runtime, wire, next.0, next.1),
{
    match decode(wire) {
        Err(why) => (Runtime::Terminal, Err(ReceiveError::Malformed(why))),
        Ok(incoming) => {
            let (post, result) = step(runtime, Event::Message(incoming));
            proof {
                assert(stepped(runtime, Event::Message(incoming), post, result));
            }
            match result {
                Ok(action) => (post, Ok(action)),
                Err(why) => (post, Err(ReceiveError::Failed(why))),
            }
        },
    }
}

} // verus!
