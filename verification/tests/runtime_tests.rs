use maelstrom::broadcast::{BroadcastNode, InPayload, OutPayload};
use maelstrom::message::{Body, InMessage, OutMessage};
use maelstrom::node::NodeError;
use maelstrom::runtime::{
    start, step, Action, Event, Incoming, InitOkPayload, InitPayload, Runtime, RuntimeError,
};
use maelstrom::serializer::MessageSerializer;

type Broadcast = Runtime<(), BroadcastNode<()>>;

fn init(msg_id: usize, node_id: &str) -> Event<InPayload> {
    Event::Message(Incoming::Init(InMessage {
        src: "c0".to_string(),
        dst: node_id.to_string(),
        body: Body {
            msg_id: Some(msg_id),
            in_reply_to: None,
            payload: InitPayload::Init {
                node_id: node_id.to_string(),
                node_ids: vec![node_id.to_string(), "n2".to_string()],
            },
        },
    }))
}

fn regular(src: &str, dst: &str, msg_id: usize, payload: InPayload) -> Event<InPayload> {
    Event::Message(Incoming::Regular(InMessage {
        src: src.to_string(),
        dst: dst.to_string(),
        body: Body { msg_id: Some(msg_id), in_reply_to: None, payload },
    }))
}

fn topology() -> InPayload {
    InPayload::Topology {
        topology: vec![
            ("n1".to_string(), vec!["n2".to_string()]),
            ("n2".to_string(), vec!["n1".to_string()]),
        ],
    }
}

fn running() -> Broadcast {
    let (runtime, out) = step(start(()), init(1, "n1"));
    assert!(out.is_ok());
    runtime
}

fn sent(out: Result<Action<(), OutPayload>, RuntimeError>) -> Vec<OutMessage<OutPayload>> {
    match out {
        Ok(Action::Send(list)) => list,
        Ok(_) => panic!("expected messages to send"),
        Err(why) => panic!("step failed: {:?}", why),
    }
}

fn failure(out: Result<Action<(), OutPayload>, RuntimeError>) -> RuntimeError {
    match out {
        Ok(_) => panic!("expected a failure"),
        Err(why) => why,
    }
}

#[test]
fn the_handshake_is_answered_with_identifier_one() {
    let runtime: Broadcast = start(());
    assert!(matches!(&runtime, Runtime::Uninitialized(s) if s.msg_id() == 1));
    let (runtime, out) = step(runtime, init(11, "n1"));
    match out {
        Ok(Action::InitOk(answer)) => {
            assert_eq!(
                answer,
                OutMessage {
                    src: "n1".to_string(),
                    dst: "c0".to_string(),
                    body: Body {
                        msg_id: Some(1),
                        in_reply_to: Some(11),
                        payload: InitOkPayload::InitOk,
                    },
                }
            );
        }
        _ => panic!("expected init_ok"),
    }
    match runtime {
        Runtime::Running(node) => {
            assert_eq!(node.node_id(), "n1");
            assert_eq!(node.msg_id(), 2);
            assert!(node.neighbors().is_empty());
            assert!(!node.topology_known());
        }
        _ => panic!("expected a running node"),
    }
}

#[test]
fn a_message_before_the_handshake_is_fatal() {
    let (runtime, out) = step(start::<(), BroadcastNode<()>>(()), regular("c1", "n1", 1, InPayload::Read));
    assert_eq!(failure(out), RuntimeError::NotInitialized);
    assert!(matches!(runtime, Runtime::Terminal));

    let (runtime, out) = step(
        start::<(), BroadcastNode<()>>(()),
        regular("c1", "n1", 1, InPayload::Broadcast { message: 5 }),
    );
    assert_eq!(failure(out), RuntimeError::NotInitialized);
    assert!(matches!(runtime, Runtime::Terminal));
}

#[test]
fn a_second_handshake_is_fatal() {
    let (runtime, out) = step(running(), init(2, "n1"));
    assert_eq!(failure(out), RuntimeError::DuplicateInit);
    assert!(matches!(runtime, Runtime::Terminal));
}

#[test]
fn the_end_of_input_before_the_handshake_is_fatal() {
    let (runtime, out) = step(start::<(), BroadcastNode<()>>(()), Event::EndOfInput);
    assert_eq!(failure(out), RuntimeError::NoInit);
    assert!(matches!(runtime, Runtime::Terminal));
}

#[test]
fn the_end_of_input_releases_the_serializer() {
    let runtime = running();
    let (runtime, out) = step(runtime, regular("c1", "n1", 2, InPayload::Read));
    assert_eq!(sent(out).len(), 1);
    let (runtime, out) = step(runtime, Event::EndOfInput);
    match out {
        Ok(Action::Exit(serializer)) => assert_eq!(serializer.msg_id(), 3),
        _ => panic!("expected a clean exit"),
    }
    assert!(matches!(runtime, Runtime::Terminal));
}

#[test]
fn a_stopped_runtime_takes_no_more_steps() {
    let (runtime, _) = step(running(), Event::EndOfInput);
    let (runtime, out) = step(runtime, regular("c1", "n1", 5, InPayload::Read));
    assert_eq!(failure(out), RuntimeError::Stopped);
    let (runtime, out) = step(runtime, init(6, "n1"));
    assert_eq!(failure(out), RuntimeError::Stopped);
    let (runtime, out) = step(runtime, Event::Tick);
    assert_eq!(failure(out), RuntimeError::Stopped);
    let (runtime, out) = step(runtime, Event::EndOfInput);
    assert_eq!(failure(out), RuntimeError::Stopped);
    assert!(matches!(runtime, Runtime::Terminal));
}

#[test]
fn messages_are_dispatched_in_order_with_rising_identifiers() {
    let runtime = running();
    let (runtime, out) = step(runtime, regular("c1", "n1", 2, topology()));
    let first = sent(out);
    assert_eq!(first.len(), 1);
    assert_eq!(first[0].body.msg_id, Some(2));
    assert_eq!(first[0].body.payload, OutPayload::TopologyOk);

    let (runtime, out) = step(runtime, regular("c1", "n1", 3, InPayload::Broadcast { message: 8 }));
    let second = sent(out);
    assert_eq!(second.len(), 2);
    assert_eq!(second[0].body.msg_id, Some(3));
    assert_eq!(second[0].body.in_reply_to, Some(3));
    assert_eq!(second[1].body.msg_id, Some(4));
    assert_eq!(second[1].dst, "n2");

    let (runtime, out) = step(runtime, Event::Tick);
    let third = sent(out);
    assert_eq!(third.len(), 1);
    assert_eq!(third[0].body.msg_id, Some(5));
    assert_eq!(third[0].body.payload, OutPayload::Gossip { message: 8 });

    let (_, out) = step(runtime, regular("c1", "n1", 4, InPayload::Read));
    let fourth = sent(out);
    assert_eq!(fourth[0].body.msg_id, Some(6));
    assert_eq!(fourth[0].body.payload, OutPayload::ReadOk { messages: vec![8] });
}

#[test]
fn a_tick_before_the_handshake_does_nothing() {
    let (runtime, out) = step(start::<(), BroadcastNode<()>>(()), Event::Tick);
    assert_eq!(sent(out), vec![]);
    assert!(matches!(&runtime, Runtime::Uninitialized(s) if s.msg_id() == 1));
    let (_, out) = step(runtime, init(1, "n1"));
    assert!(matches!(out, Ok(Action::InitOk(_))));
}

#[test]
fn a_failure_of_the_node_is_fatal() {
    let missing = InPayload::Topology { topology: vec![("n2".to_string(), vec![])] };
    let (runtime, out) = step(running(), regular("c1", "n1", 2, missing));
    assert_eq!(failure(out), RuntimeError::Node(NodeError::TopologyMissesSelf));
    assert!(matches!(runtime, Runtime::Terminal));
}

#[test]
fn the_handshake_fails_when_no_identifier_is_left() {
    let runtime: Broadcast = Runtime::Uninitialized(MessageSerializer::starting_at((), usize::MAX));
    let (runtime, out) = step(runtime, init(1, "n1"));
    assert_eq!(failure(out), RuntimeError::IdsExhausted);
    assert!(matches!(runtime, Runtime::Terminal));
}
