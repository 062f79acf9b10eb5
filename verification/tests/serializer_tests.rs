use maelstrom::message::{
    Body, DeconstructedInMessage, InMessage, OutMessage, PartialInMessage,
};
use maelstrom::serializer::{MessageSerializer, SendError};

fn message(payload: &str) -> OutMessage<String> {
    OutMessage {
        src: "n1".to_string(),
        dst: "c1".to_string(),
        body: Body { msg_id: None, in_reply_to: Some(4), payload: payload.to_string() },
    }
}

#[test]
fn the_counter_starts_at_one() {
    let serializer = MessageSerializer::new(());
    assert_eq!(serializer.msg_id(), 1);
    assert_eq!(serializer.remaining(), usize::MAX - 1);
}

#[test]
fn send_stamps_and_advances() {
    let mut serializer = MessageSerializer::new(());
    let mut first = message("one");
    assert_eq!(serializer.send(&mut first), Ok(()));
    assert_eq!(first.body.msg_id, Some(1));
    assert_eq!(first.body.in_reply_to, Some(4));
    assert_eq!(first.body.payload, "one");
    assert_eq!(first.src, "n1");
    assert_eq!(first.dst, "c1");
    assert_eq!(serializer.msg_id(), 2);

    let mut second = message("two");
    assert_eq!(serializer.send(&mut second), Ok(()));
    assert_eq!(second.body.msg_id, Some(2));
    assert_eq!(serializer.msg_id(), 3);
}

#[test]
fn a_message_sent_again_gets_a_fresh_identifier() {
    let mut serializer = MessageSerializer::new(());
    let mut gossip = message("gossip");
    serializer.send(&mut gossip).unwrap();
    assert_eq!(gossip.body.msg_id, Some(1));
    serializer.send(&mut gossip).unwrap();
    assert_eq!(gossip.body.msg_id, Some(2));
}

#[test]
fn no_two_sends_share_an_identifier() {
    let mut serializer = MessageSerializer::new(());
    let mut seen = Vec::new();
    for _ in 0..200 {
        let mut msg = message("x");
        serializer.send(&mut msg).unwrap();
        let id = msg.body.msg_id.unwrap();
        assert!(!seen.contains(&id));
        seen.push(id);
    }
    assert_eq!(seen, (1..=200).collect::<Vec<usize>>());
}

#[test]
fn send_fails_when_the_identifiers_are_used_up() {
    let mut serializer = MessageSerializer::starting_at((), usize::MAX - 1);
    let mut last = message("last");
    assert_eq!(serializer.send(&mut last), Ok(()));
    assert_eq!(last.body.msg_id, Some(usize::MAX - 1));
    assert_eq!(serializer.msg_id(), usize::MAX);
    assert_eq!(serializer.remaining(), 0);

    let mut late = message("late");
    assert_eq!(serializer.send(&mut late), Err(SendError::IdsExhausted));
    assert_eq!(late.body.msg_id, None);
    assert_eq!(serializer.msg_id(), usize::MAX);
}

#[test]
fn stamp_numbers_like_send() {
    let mut serializer = MessageSerializer::starting_at((), 41);
    let mut msg = message("x");
    serializer.stamp(&mut msg);
    assert_eq!(msg.body.msg_id, Some(41));
    assert_eq!(serializer.msg_id(), 42);
}

#[test]
fn the_writer_is_kept_and_handed_out() {
    let mut serializer = MessageSerializer::new(Vec::<u8>::new());
    serializer.writer().push(b'x');
    let mut msg = message("x");
    serializer.send(&mut msg).unwrap();
    serializer.writer().push(b'y');
    assert_eq!(serializer.writer().as_slice(), b"xy");
    assert_eq!(serializer.msg_id(), 2);
}

#[test]
fn a_reply_swaps_the_addresses_and_names_the_request() {
    let parts = PartialInMessage { src: "c1".to_string(), dst: "n1".to_string(), msg_id: Some(17) };
    let reply = parts.to_out_msg("payload");
    assert_eq!(reply.src, "n1");
    assert_eq!(reply.dst, "c1");
    assert_eq!(reply.body.msg_id, None);
    assert_eq!(reply.body.in_reply_to, Some(17));
    assert_eq!(reply.body.payload, "payload");

    let parts = PartialInMessage { src: "a".to_string(), dst: "b".to_string(), msg_id: None };
    let reply = parts.to_out_msg(5);
    assert_eq!(reply.body.in_reply_to, None);
}

#[test]
fn deconstructing_keeps_addresses_identifier_and_payload() {
    let in_msg = InMessage {
        src: "c1".to_string(),
        dst: "n1".to_string(),
        body: Body { msg_id: Some(3), in_reply_to: Some(2), payload: 'p' },
    };
    let parts = DeconstructedInMessage::from(in_msg.clone());
    assert_eq!(
        parts,
        DeconstructedInMessage {
            partial_in_msg: PartialInMessage {
                src: "c1".to_string(),
                dst: "n1".to_string(),
                msg_id: Some(3),
            },
            in_payload: 'p',
        }
    );
    let again: DeconstructedInMessage<char> = in_msg.into();
    assert_eq!(again, parts);
}
