//! The envelope that wraps every message on the wire, in both directions.

use vstd::prelude::*;

verus! {

/// The part of an envelope that carries correlation identifiers and the
/// payload.
#[derive(Clone, Debug, PartialEq, Eq)]
pub struct Body<Payload> {
    pub msg_id: Option<usize>,
    pub in_reply_to: Option<usize>,
    pub payload: Payload,
}

/// An envelope as received.
#[derive(Clone, Debug, PartialEq, Eq)]
pub struct InMessage<Payload> {
    pub src: String,
    pub dst: String,
    pub body: Body<Payload>,
}

/// What remains of a received envelope once its payload has been taken out:
/// enough to address a reply.
#[derive(Clone, Debug, PartialEq, Eq)]
pub struct PartialInMessage {
    pub src: String,
    pub dst: String,
    pub msg_id: Option<usize>,
}

/// A received envelope split into its addressing part and its payload.
#[derive(Clone, Debug, PartialEq, Eq)]
pub struct DeconstructedInMessage<Payload> {
    pub partial_in_msg: PartialInMessage,
    pub in_payload: Payload,
}

/// An envelope to be sent.
#[derive(Clone, Debug, PartialEq, Eq)]
pub struct OutMessage<Payload> {
    pub src: String,
    pub dst: String,
    pub body: Body<Payload>,
}

/// The parts that `in_msg` splits into.
pub open spec fn deconstructed<Payload>(in_msg: InMessage<Payload>) -> DeconstructedInMessage<
    Payload,
> {
    DeconstructedInMessage {
        partial_in_msg: PartialInMessage {
            src: in_msg.src,
            dst: in_msg.dst,
            msg_id: in_msg.body.msg_id,
        },
        in_payload: in_msg.body.payload,
    }
}

impl<Payload> From<InMessage<Payload>> for DeconstructedInMessage<Payload> {
    /// Splits the envelope into addressing part and payload. What the
    /// message replied to is dropped.
    fn from(value: InMessage<Payload>) -> (parts: Self) {
        Self {
            partial_in_msg: PartialInMessage {
                src: value.src,
                dst: value.dst,
                msg_id: value.body.msg_id,
            },
            in_payload: value.body.payload,
        }
    }
}

impl<Payload> vstd::std_specs::convert::FromSpecImpl<InMessage<Payload>> for DeconstructedInMessage<Payload> {
    open spec fn obeys_from_spec() -> bool {
        true
    }

    open spec fn from_spec(value: InMessage<Payload>) -> Self {
        deconstructed(value)
    }
}

impl PartialInMessage {
    /// Builds the reply to the message these parts came from.
    pub fn to_out_msg<Payload>(&self, payload: Payload) -> (out: OutMessage<Payload>)
        ensures
            out.src@ == self.dst@,
            out.dst@ == self.src@,
            out.body.msg_id is None,
            out.body.in_reply_to == self.msg_id,
            out.body.payload == payload,
    {
        OutMessage {
            src: self.dst.clone(),
            dst: self.src.clone(),
            body: Body { msg_id: None, in_reply_to: self.msg_id, payload },
        }
    }
}

} // verus!
