//! The node runtime as a state machine: the handshake, the dispatch of
//! messages to the node, and the end of input. The host reads and writes;
//! this module decides.

use crate::ledger::name_seq;
use crate::message::{DeconstructedInMessage, InMessage, OutMessage};
use crate::node::{advanced, Node, NodeError};
use crate::serializer::MessageSerializer;
use vstd::prelude::*;

verus! {

/// The payload of the message that names a node.
#[derive(Clone, Debug, PartialEq, Eq)]
pub enum InitPayload {
    Init { node_id: String, node_ids: Vec<String> },
}

/// The payload of the answer to it.
#[derive(Clone, Copy, Debug, PartialEq, Eq, Structural)]
pub enum InitOkPayload {
    InitOk,
}

/// A decoded line of input: the handshake or a message for the node.
pub enum Incoming<P> {
    Init(InMessage<InitPayload>),
    Regular(InMessage<P>),
}

/// What can happen to a runtime.
pub enum Event<P> {
    /// A line of input was read and decoded.
    Message(Incoming<P>),
    /// The interval of the background worker has passed.
    Tick,
    /// The input is exhausted.
    EndOfInput,
}

/// What the host is to do after a step.
pub enum Action<W, R> {
    /// Write the answer to the handshake.
    InitOk(OutMessage<InitOkPayload>),
    /// Write these messages in order.
    Send(Vec<OutMessage<R>>),
    /// Exit cleanly; the node has released its serializer.
    Exit(MessageSerializer<W>),
}

/// Why a step failed. Every failure is fatal: the runtime is terminal
/// after it.
#[derive(Clone, Copy, Debug, PartialEq, Eq, Structural)]
pub enum RuntimeError {
    /// The input ended before the handshake.
    NoInit,
    /// A message other than the handshake came first.
    NotInitialized,
    /// The handshake came a second time.
    DuplicateInit,
    /// No identifier was left for the answer to the handshake.
    IdsExhausted,
    /// The node failed.
    Node(NodeError),
    /// The runtime had already stopped.
    Stopped,
}

/// A runtime is uninitialized until the handshake, then runs its node, and
/// is terminal once the input has ended or a step has failed.
pub enum Runtime<W, N> {
    Uninitialized(MessageSerializer<W>),
    Running(N),
    Terminal,
}

/// The answer to the handshake `init`, numbered `id`.
pub open spec fn is_init_ok(
    answer: OutMessage<InitOkPayload>,
    init: InMessage<InitPayload>,
    id: usize,
) -> bool {
    &&& answer.src@ == init.dst@
    &&& answer.dst@ == init.src@
    &&& answer.body.msg_id == Some(id)
    &&& answer.body.in_reply_to == init.body.msg_id
    &&& answer.body.payload == InitOkPayload::InitOk
}

/// What the handshake does to an uninitialized runtime: it is answered
/// with the serializer's next identifier, and the node is created under
/// the name the handshake gives, on the same stream, one identifier on.
pub open spec fn initialized<W, P, N: Node<W, P>>(
    serializer: MessageSerializer<W>,
    init: InMessage<InitPayload>,
    post: Runtime<W, N>,
    out: Result<Action<W, N::Reply>, RuntimeError>,
) -> bool {
    if serializer.next_id() < usize::MAX {
        &&& out matches Ok(Action::InitOk(answer))
        &&& is_init_ok(answer, init, serializer.next_id())
        &&& post matches Runtime::Running(node)
        &&& init.body.payload matches InitPayload::Init { node_id, node_ids }
        &&& node.created(node_id@, name_seq(node_ids@))
        &&& node.next_id() == serializer.next_id() + 1
        &&& node.stream() == serializer.stream()
    } else {
        failed(post, out, RuntimeError::IdsExhausted)
    }
}

/// A fatal failure: the error `why`, and a terminal runtime.
pub open spec fn failed<W, N, R>(
    post: Runtime<W, N>,
    out: Result<Action<W, R>, RuntimeError>,
    why: RuntimeError,
) -> bool {
    post is Terminal && out == Err::<Action<W, R>, RuntimeError>(why)
}

/// What a running node's answer does to the runtime: what it sends is
/// handed on and the runtime keeps running; its failure is fatal.
pub open spec fn carried<W, P, N: Node<W, P>>(
    after: N,
    result: Result<Vec<OutMessage<N::Reply>>, NodeError>,
    post: Runtime<W, N>,
    out: Result<Action<W, N::Reply>, RuntimeError>,
) -> bool {
    match result {
        Ok(sent) => out == Ok::<Action<W, N::Reply>, RuntimeError>(Action::Send(sent))
            && post == Runtime::<W, N>::Running(after),
        Err(why) => failed(post, out, RuntimeError::Node(why)),
    }
}

/// What a step does, by state and event.
pub open spec fn stepped<W, P, N: Node<W, P>>(
    pre: Runtime<W, N>,
    event: Event<P>,
    post: Runtime<W, N>,
    out: Result<Action<W, N::Reply>, RuntimeError>,
) -> bool {
    match (pre, event) {
        (Runtime::Uninitialized(serializer), Event::Message(Incoming::Init(init))) => initialized(
            serializer,
            init,
            post,
            out,
        ),
        (Runtime::Uninitialized(_), Event::Message(Incoming::Regular(_))) => failed(
            post,
            out,
            RuntimeError::NotInitialized,
        ),
        (Runtime::Uninitialized(_), Event::Tick) => {
            &&& post == pre
            &&& out matches Ok(Action::Send(sent))
            &&& sent@.len() == 0
        },
        (Runtime::Uninitialized(_), Event::EndOfInput) => failed(post, out, RuntimeError::NoInit),
        (Runtime::Running(_), Event::Message(Incoming::Init(_))) => failed(
            post,
            out,
            RuntimeError::DuplicateInit,
        ),
        (Runtime::Running(node), Event::Message(Incoming::Regular(in_msg))) => exists|
            after: N,
            result: Result<Vec<OutMessage<N::Reply>>, NodeError>,
        |
            node.handled(in_msg, &after, result) && advanced(node, after, result) && carried(
                after,
                result,
                post,
                out,
            ),
        (Runtime::Running(node), Event::Tick) => exists|
            after: N,
            result: Result<Vec<OutMessage<N::Reply>>, NodeError>,
        |
            node.ticked(&after, result) && advanced(node, after, result) && carried(
                after,
                result,
                post,
                out,
            ),
        (Runtime::Running(node), Event::EndOfInput) => post is Terminal && exists|
            released: Result<MessageSerializer<W>, NodeError>,
        |
            node.ended(released) && match released {
                Ok(serializer) => out == Ok::<Action<W, N::Reply>, RuntimeError>(
                    Action::Exit(serializer),
                ) && serializer.next_id() == node.next_id() && serializer.stream()
                    == node.stream(),
                Err(why) => out == Err::<Action<W, N::Reply>, RuntimeError>(
                    RuntimeError::Node(why),
                ),
            },
        (Runtime::Terminal, _) => failed(post, out, RuntimeError::Stopped),
    }
}

/// A runtime that waits for the handshake; its first outgoing message gets
/// identifier 1.
pub fn start<W, N>(writer: W) -> (runtime: Runtime<W, N>)
    ensures
        runtime matches Runtime::Uninitialized(serializer) && serializer.next_id() == 1
            && serializer.stream() == writer,
{
    Runtime::Uninitialized(MessageSerializer::new(writer))
}

/// Takes one step: from the state and what happened to the next state and
/// what the host is to do.
pub fn step<W, P, N: Node<W, P>>(runtime: Runtime<W, N>, event: Event<P>) -> (next: (
    Runtime<W, N>,
    Result<Action<W, N::Reply>, RuntimeError>,
))
    ensures
        stepped(runtime, event, next.0, next.1),
{
    match runtime {
        Runtime::Uninitialized(serializer) => match event {
            Event::Message(Incoming::Init(init)) => {
                let mut serializer = serializer;
                if serializer.remaining() == 0 {
                    return (Runtime::Terminal, Err(RuntimeError::IdsExhausted));
                }
                let parts = DeconstructedInMessage::from(init);
                let mut answer = parts.partial_in_msg.to_out_msg(InitOkPayload::InitOk);
                serializer.stamp(&mut answer);
                let InitPayload::Init { node_id, node_ids } = parts.in_payload;
                let node = N::new(node_id, node_ids, serializer);
                (Runtime::Running(node), Ok(Action::InitOk(answer)))
            },
            Event::Message(Incoming::Regular(_)) => (
                Runtime::Terminal,
                Err(RuntimeError::NotInitialized),
            ),
            Event::Tick => (Runtime::Uninitialized(serializer), Ok(Action::Send(Vec::new()))),
            Event::EndOfInput => (Runtime::Terminal, Err(RuntimeError::NoInit)),
        },
        Runtime::Running(node) => match event {
            Event::Message(Incoming::Init(_)) => (
                Runtime::Terminal,
                Err(RuntimeError::DuplicateInit),
            ),
            Event::Message(Incoming::Regular(in_msg)) => {
                let mut node = node;
                let ghost before = node;
                let result = node.process(in_msg);
                proof {
                    assert(before.handled(in_msg, &node, result));
                    assert(advanced(before, node, result));
                }
                carry(node, result)
            },
            Event::Tick => {
                let mut node = node;
                let ghost before = node;
                let result = node.tick();
                proof {
                    assert(before.ticked(&node, result));
                    assert(advanced(before, node, result));
                }
                carry(node, result)
            },
            Event::EndOfInput => {
                let released = node.shutdown();
                proof {
                    assert(node.ended(released));
                }
                match released {
                    Ok(serializer) => (Runtime::Terminal, Ok(Action::Exit(serializer))),
                    Err(why) => (Runtime::Terminal, Err(RuntimeError::Node(why))),
                }
            },
        },
        Runtime::Terminal => (Runtime::Terminal, Err(RuntimeError::Stopped)),
    }
}

/// Hands a running node's answer on.
fn carry<W, P, N: Node<W, P>>(after: N, result: Result<Vec<OutMessage<N::Reply>>, NodeError>) -> (next:
    (Runtime<W, N>, Result<Action<W, N::Reply>, RuntimeError>))
    ensures
        carried(after, result, next.0, next.1),
{
    match result {
        Ok(sent) => (Runtime::Running(after), Ok(Action::Send(sent))),
        Err(why) => (Runtime::Terminal, Err(RuntimeError::Node(why))),
    }
}

} // verus!
