//! Numbering of outgoing messages.

use crate::message::OutMessage;
use vstd::prelude::*;

verus! {

/// Why a message could not be given an identifier.
#[derive(Clone, Copy, Debug, PartialEq, Eq, Structural)]
pub enum SendError {
    /// Every identifier has been handed out.
    IdsExhausted,
}

/// Owns the outgoing stream and the counter that numbers what is sent on
/// it. The counter starts at 1 and moves forward by one per message, so no
/// two messages stamped by one serializer carry the same identifier.
pub struct MessageSerializer<W> {
    writer: W,
    msg_id: usize,
}

impl<W> MessageSerializer<W> {
    /// The identifier the next message will get.
    pub closed spec fn next_id(&self) -> usize {
        self.msg_id
    }

    /// The stream this serializer was built around.
    pub closed spec fn stream(&self) -> W {
        self.writer
    }

    /// A serializer for `writer` whose first message gets identifier 1.
    pub fn new(writer: W) -> (serializer: Self)
        ensures
            serializer.next_id() == 1,
            serializer.stream() == writer,
    {
        Self { writer, msg_id: 1 }
    }

    /// A serializer for `writer` whose first message gets identifier
    /// `first_id`, for a stream whose numbering does not start at 1.
    pub fn starting_at(writer: W, first_id: usize) -> (serializer: Self)
        ensures
            serializer.next_id() == first_id,
            serializer.stream() == writer,
    {
        Self { writer, msg_id: first_id }
    }

    /// The identifier the next message will get.
    #[verifier::when_used_as_spec(next_id)]
    pub fn msg_id(&self) -> (id: usize)
        ensures
            id == self.next_id(),
    {
        self.msg_id
    }

    /// How many more messages can be numbered.
    pub fn remaining(&self) -> (left: usize)
        ensures
            left == usize::MAX - self.next_id(),
    {
        usize::MAX - self.msg_id
    }

    /// Stamps `msg` with the next identifier and advances the counter.
    /// Nothing else of the message changes. The caller writes the stamped
    /// message to the stream.
    pub fn stamp<T>(&mut self, msg: &mut OutMessage<T>)
        requires
            old(self).next_id() < usize::MAX,
        ensures
            final(self).next_id() == old(self).next_id() + 1,
            final(self).stream() == old(self).stream(),
            final(msg).body.msg_id == Some(old(self).next_id()),
            final(msg).body.in_reply_to == old(msg).body.in_reply_to,
            final(msg).body.payload == old(msg).body.payload,
            final(msg).src == old(msg).src,
            final(msg).dst == old(msg).dst,
    {
        msg.body.msg_id = Some(self.msg_id);
        self.msg_id = self.msg_id + 1;
    }

    /// Stamps `msg` as [`Self::stamp`] does while an identifier is left.
    /// Once the counter has reached its last value, fails and changes
    /// nothing.
    pub fn send<T>(&mut self, msg: &mut OutMessage<T>) -> (sent: Result<(), SendError>)
        ensures
            sent is Ok <==> old(self).next_id() < usize::MAX,
            final(self).stream() == old(self).stream(),
            final(msg).body.in_reply_to == old(msg).body.in_reply_to,
            final(msg).body.payload == old(msg).body.payload,
            final(msg).src == old(msg).src,
            final(msg).dst == old(msg).dst,
            sent is Ok ==> final(self).next_id() == old(self).next_id() + 1
                && final(msg).body.msg_id == Some(old(self).next_id()),
            sent is Err ==> final(self).next_id() == old(self).next_id()
                && final(msg).body.msg_id == old(msg).body.msg_id,
    {
        if self.msg_id == usize::MAX {
            return Err(SendError::IdsExhausted);
        }
        self.stamp(msg);
        Ok(())
    }

    /// The outgoing stream, for the host to write stamped messages to.
    pub fn writer(&mut self) -> (writer: &mut W)
        ensures
            *writer == old(self).stream(),
            final(self).stream() == *final(writer),
            final(self).next_id() == old(self).next_id(),
    {
        &mut self.writer
    }
}

} // verus!
