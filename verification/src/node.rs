//! What the runtime asks of a node implementation.

use crate::message::{InMessage, OutMessage};
use crate::serializer::MessageSerializer;
use vstd::prelude::*;

verus! {

/// Why a node could not handle a message.
#[derive(Clone, Copy, Debug, PartialEq, Eq, Structural)]
pub enum NodeError {
    /// The topology has no entry for this node.
    TopologyMissesSelf,
    /// The identifiers left do not cover what would have to be sent.
    IdsExhausted,
}

/// Whether the messages carry the identifiers `first`, `first + 1`, and so
/// on, in order.
pub open spec fn numbered<R>(sent: Seq<OutMessage<R>>, first: int) -> bool {
    forall|k: int|
        0 <= k < sent.len() ==> (#[trigger] sent[k]).body.msg_id == Some((first + k) as usize)
}

/// All that a node has sent in a run, batch after batch.
pub open spec fn joined<R>(batches: Seq<Seq<OutMessage<R>>>) -> Seq<OutMessage<R>>
    decreases batches.len(),
{
    if batches.len() == 0 {
        Seq::empty()
    } else {
        joined(batches.drop_last()) + batches.last()
    }
}

/// Whether each batch of a run is numbered from where the batch before it
/// ended, the first one from `first`. This is what `process` and `tick`
/// promise of what they hand back, call after call.
pub open spec fn consecutive<R>(batches: Seq<Seq<OutMessage<R>>>, first: int) -> bool
    decreases batches.len(),
{
    batches.len() == 0 || (consecutive(batches.drop_last(), first) && numbered(
        batches.last(),
        first + joined(batches.drop_last()).len(),
    ))
}

/// Messages numbered in order within the counter's range carry pairwise
/// different identifiers.
pub proof fn lemma_numbered_distinct<R>(sent: Seq<OutMessage<R>>, first: int)
    requires
        numbered(sent, first),
        0 <= first,
        first + sent.len() <= usize::MAX + 1,
    ensures
        forall|i: int, j: int|
            0 <= i < j < sent.len() ==> (#[trigger] sent[i]).body.msg_id != (
            #[trigger] sent[j]).body.msg_id,
{
}

/// A batch numbered from where another ends continues its numbering.
pub proof fn lemma_numbered_concat<R>(
    head: Seq<OutMessage<R>>,
    tail: Seq<OutMessage<R>>,
    first: int,
)
    requires
        numbered(head, first),
        numbered(tail, first + head.len()),
    ensures
        numbered(head + tail, first),
{
    assert forall|k: int| 0 <= k < (head + tail).len() implies (#[trigger] (head + tail)[k]).body.msg_id
        == Some((first + k) as usize) by {
        if k < head.len() {
            assert((head + tail)[k] == head[k]);
        } else {
            assert((head + tail)[k] == tail[k - head.len()]);
        }
    }
}

/// No two messages that one node sends in a run share an identifier:
/// where every batch is numbered from where the one before ended, all of
/// them together are numbered in order, and pairwise differently.
pub proof fn lemma_run_distinct<R>(batches: Seq<Seq<OutMessage<R>>>, first: int)
    requires
        consecutive(batches, first),
        0 <= first,
        first + joined(batches).len() <= usize::MAX + 1,
    ensures
        numbered(joined(batches), first),
        forall|i: int, j: int|
            0 <= i < j < joined(batches).len() ==> (#[trigger] joined(batches)[i]).body.msg_id != (
            #[trigger] joined(batches)[j]).body.msg_id,
    decreases batches.len(),
{
    if batches.len() > 0 {
        lemma_run_distinct(batches.drop_last(), first);
        lemma_numbered_concat(joined(batches.drop_last()), batches.last(), first);
    }
    lemma_numbered_distinct(joined(batches), first);
}

/// A node implementation. It owns the serializer it was created with and
/// stamps everything it sends with it, so what it hands back is numbered in
/// the order in which it is to be written.
pub trait Node<W, P>: Sized {
    /// The payload of what this node sends.
    type Reply;

    /// The identifier the node's next outgoing message gets.
    spec fn next_id(&self) -> usize;

    /// The outgoing stream the node's serializer was built around.
    spec fn stream(&self) -> W;

    /// Whether the node is in the state it is created in under the name
    /// `node_id` in a cluster of `node_ids`.
    spec fn created(&self, node_id: Seq<char>, node_ids: Seq<Seq<char>>) -> bool;

    /// Whether handling `in_msg` takes the node from `self` to `after`
    /// with the result `out`.
    spec fn handled(
        &self,
        in_msg: InMessage<P>,
        after: &Self,
        out: Result<Vec<OutMessage<Self::Reply>>, NodeError>,
    ) -> bool;

    /// Whether one round of background work takes the node from `self` to
    /// `after` with the result `out`.
    spec fn ticked(&self, after: &Self, out: Result<Vec<OutMessage<Self::Reply>>, NodeError>)
        -> bool;

    /// Whether ending the node gives `released`.
    spec fn ended(&self, released: Result<MessageSerializer<W>, NodeError>) -> bool;

    /// Creates the node once the handshake has named it.
    fn new(node_id: String, node_ids: Vec<String>, serializer: MessageSerializer<W>) -> (node: Self)
        ensures
            node.created(node_id@, crate::ledger::name_seq(node_ids@)),
            node.next_id() == serializer.next_id(),
            node.stream() == serializer.stream(),
    ;

    /// Handles one message and hands back what is to be sent for it.
    fn process(&mut self, in_msg: InMessage<P>) -> (out: Result<
        Vec<OutMessage<Self::Reply>>,
        NodeError,
    >)
        ensures
            old(self).handled(in_msg, final(self), out),
            final(self).stream() == old(self).stream(),
            out matches Ok(sent) ==> numbered(sent@, old(self).next_id() as int)
                && final(self).next_id() == old(self).next_id() + sent@.len(),
            out is Err ==> final(self).next_id() == old(self).next_id(),
    ;

    /// Does one round of the node's background work, if it has any, and
    /// hands back what is to be sent for it.
    fn tick(&mut self) -> (out: Result<Vec<OutMessage<Self::Reply>>, NodeError>)
        ensures
            old(self).ticked(final(self), out),
            final(self).stream() == old(self).stream(),
            out matches Ok(sent) ==> numbered(sent@, old(self).next_id() as int)
                && final(self).next_id() == old(self).next_id() + sent@.len(),
            out is Err ==> final(self).next_id() == old(self).next_id(),
    ;

    /// Ends the node and releases its serializer. Nothing is sent by the
    /// node after this.
    fn shutdown(self) -> (released: Result<MessageSerializer<W>, NodeError>)
        ensures
            self.ended(released),
            released matches Ok(serializer) ==> serializer.next_id() == self.next_id()
                && serializer.stream() == self.stream(),
    ;
}

/// What `process` and `tick` promise of every node, in one: it still
/// writes to the same stream; what it hands back is numbered from its next
/// identifier on without a gap, and its counter has moved past exactly
/// those identifiers; a failure leaves the counter alone.
pub open spec fn advanced<W, P, N: Node<W, P>>(
    before: N,
    after: N,
    out: Result<Vec<OutMessage<N::Reply>>, NodeError>,
) -> bool {
    &&& after.stream() == before.stream()
    &&& match out {
        Ok(sent) => numbered(sent@, before.next_id() as int) && after.next_id()
            == before.next_id() + sent@.len(),
        Err(_) => after.next_id() == before.next_id(),
    }
}

} // verus!
