use maelstrom::broadcast::{
    distinct_names, find_neighbors, gossip_to_neighbors, BroadcastNode, InPayload, OutPayload,
};
use maelstrom::message::{Body, InMessage, OutMessage, PartialInMessage};
use maelstrom::node::{Node, NodeError};
use maelstrom::serializer::MessageSerializer;

fn names(list: &[&str]) -> Vec<String> {
    list.iter().map(|n| n.to_string()).collect()
}

fn node_from(name: &str, first_id: usize) -> BroadcastNode<()> {
    <BroadcastNode<()> as Node<(), InPayload>>::new(
        name.to_string(),
        names(&[name]),
        MessageSerializer::starting_at((), first_id),
    )
}

fn node(name: &str) -> BroadcastNode<()> {
    node_from(name, 1)
}

fn parts(src: &str, dst: &str, msg_id: usize) -> PartialInMessage {
    PartialInMessage { src: src.to_string(), dst: dst.to_string(), msg_id: Some(msg_id) }
}

fn topology(entries: &[(&str, &[&str])]) -> Vec<(String, Vec<String>)> {
    entries.iter().map(|(id, list)| (id.to_string(), names(list))).collect()
}

fn out(
    src: &str,
    dst: &str,
    msg_id: usize,
    in_reply_to: Option<usize>,
    payload: OutPayload,
) -> OutMessage<OutPayload> {
    OutMessage {
        src: src.to_string(),
        dst: dst.to_string(),
        body: Body { msg_id: Some(msg_id), in_reply_to, payload },
    }
}

fn with_neighbors(name: &str, neighbors: &[&str]) -> BroadcastNode<()> {
    let mut n = node(name);
    n.handle_topology_msg(parts("c0", name, 0), topology(&[(name, neighbors)])).unwrap();
    n
}

#[test]
fn a_new_node_has_seen_nothing() {
    let mut n = node("n1");
    assert_eq!(n.node_id(), "n1");
    assert_eq!(n.msg_id(), 1);
    assert!(n.neighbors().is_empty());
    assert!(!n.topology_known());
    assert!(!n.has_observed(0));
    assert_eq!(n.retry_round().unwrap(), vec![]);
    assert_eq!(
        n.handle_read_msg(parts("c1", "n1", 4)).unwrap(),
        vec![out("n1", "c1", 1, Some(4), OutPayload::ReadOk { messages: vec![] })]
    );
}

#[test]
fn a_broadcast_before_the_topology_is_recorded_and_not_flooded() {
    let mut n = node("n1");
    assert_eq!(
        n.handle_broadcast_msg(parts("c1", "n1", 4), 5).unwrap(),
        vec![out("n1", "c1", 1, Some(4), OutPayload::BroadcastOk)]
    );
    assert!(n.has_observed(5));
    // Once the topology is there, the retry round makes up for the flood.
    n.handle_topology_msg(parts("c1", "n1", 5), topology(&[("n1", &["n2"])])).unwrap();
    assert_eq!(
        n.retry_round().unwrap(),
        vec![out("n1", "n2", 3, None, OutPayload::Gossip { message: 5 })]
    );
}

#[test]
fn a_new_value_is_flooded_to_every_neighbor_in_order() {
    let mut n = with_neighbors("n1", &["n3", "n2", "n4"]);
    assert_eq!(
        n.handle_broadcast_msg(parts("c1", "n1", 4), 5).unwrap(),
        vec![
            out("n1", "c1", 2, Some(4), OutPayload::BroadcastOk),
            out("n1", "n3", 3, None, OutPayload::Gossip { message: 5 }),
            out("n1", "n2", 4, None, OutPayload::Gossip { message: 5 }),
            out("n1", "n4", 5, None, OutPayload::Gossip { message: 5 }),
        ]
    );
    assert_eq!(n.msg_id(), 6);
}

#[test]
fn a_repeated_broadcast_is_answered_and_not_flooded() {
    let mut n = with_neighbors("n1", &["n2", "n3"]);
    assert_eq!(n.handle_broadcast_msg(parts("c1", "n1", 4), 5).unwrap().len(), 3);
    assert_eq!(
        n.handle_broadcast_msg(parts("c2", "n1", 1), 5).unwrap(),
        vec![out("n1", "c2", 5, Some(1), OutPayload::BroadcastOk)]
    );
    assert_eq!(
        n.handle_broadcast_msg(parts("c1", "n1", 6), 5).unwrap(),
        vec![out("n1", "c1", 6, Some(6), OutPayload::BroadcastOk)]
    );
    // A value that came by gossip is not flooded for a later broadcast.
    assert_eq!(n.handle_gossip_msg(parts("n2", "n1", 9), 6).unwrap().len(), 3);
    assert_eq!(
        n.handle_broadcast_msg(parts("c1", "n1", 7), 6).unwrap(),
        vec![out("n1", "c1", 10, Some(7), OutPayload::BroadcastOk)]
    );
}

#[test]
fn a_gossip_is_flooded_to_the_sender_too() {
    let mut n = with_neighbors("n1", &["n2", "n3"]);
    assert_eq!(
        n.handle_gossip_msg(parts("n2", "n1", 8), 5).unwrap(),
        vec![
            out("n1", "n2", 2, Some(8), OutPayload::GossipOk { message: 5 }),
            out("n1", "n2", 3, None, OutPayload::Gossip { message: 5 }),
            out("n1", "n3", 4, None, OutPayload::Gossip { message: 5 }),
        ]
    );
}

#[test]
fn a_gossip_of_a_known_value_is_acknowledged_and_nothing_more() {
    let mut n = with_neighbors("n1", &["n2", "n3"]);
    n.handle_broadcast_msg(parts("c1", "n1", 4), 5).unwrap();
    assert_eq!(
        n.handle_gossip_msg(parts("n3", "n1", 8), 5).unwrap(),
        vec![out("n1", "n3", 5, Some(8), OutPayload::GossipOk { message: 5 })]
    );
    // Hearing a gossip is no acknowledgment: n3 is still retried.
    let round = n.retry_round().unwrap();
    assert_eq!(
        round,
        vec![
            out("n1", "n2", 6, None, OutPayload::Gossip { message: 5 }),
            out("n1", "n3", 7, None, OutPayload::Gossip { message: 5 }),
        ]
    );
}

#[test]
fn an_acknowledgment_sends_nothing_and_ends_the_retry() {
    let mut n = with_neighbors("n1", &["n2", "n3"]);
    n.handle_broadcast_msg(parts("c1", "n1", 4), 5).unwrap();
    assert_eq!(n.handle_gossip_ok_msg(parts("n2", "n1", 2), 5).unwrap(), vec![]);
    assert_eq!(n.msg_id(), 5);
    assert_eq!(
        n.retry_round().unwrap(),
        vec![out("n1", "n3", 5, None, OutPayload::Gossip { message: 5 })]
    );
    assert_eq!(n.handle_gossip_ok_msg(parts("n3", "n1", 2), 5).unwrap(), vec![]);
    assert_eq!(n.retry_round().unwrap(), vec![]);
    assert_eq!(n.msg_id(), 6);
}

#[test]
fn an_acknowledgment_of_an_unknown_value_is_dropped() {
    let mut n = with_neighbors("n1", &["n2"]);
    assert_eq!(n.handle_gossip_ok_msg(parts("n2", "n1", 2), 5).unwrap(), vec![]);
    assert!(!n.has_observed(5));
    assert_eq!(n.retry_round().unwrap(), vec![]);
    // When the value comes later, n2 still owes its acknowledgment.
    n.handle_broadcast_msg(parts("c1", "n1", 4), 5).unwrap();
    assert_eq!(n.retry_round().unwrap().len(), 1);
}

#[test]
fn a_read_lists_every_value_once() {
    let mut n = with_neighbors("n1", &[]);
    for value in [4, 2, 4, 9, 2] {
        n.handle_broadcast_msg(parts("c1", "n1", 1), value).unwrap();
    }
    n.handle_gossip_msg(parts("n2", "n1", 1), 9).unwrap();
    n.handle_gossip_msg(parts("n2", "n1", 1), 1).unwrap();
    let sent = n.handle_read_msg(parts("c1", "n1", 77)).unwrap();
    assert_eq!(sent.len(), 1);
    assert_eq!(sent[0].src, "n1");
    assert_eq!(sent[0].dst, "c1");
    assert_eq!(sent[0].body.msg_id, Some(9));
    assert_eq!(sent[0].body.in_reply_to, Some(77));
    match &sent[0].body.payload {
        OutPayload::ReadOk { messages } => {
            let mut sorted = messages.clone();
            sorted.sort();
            assert_eq!(sorted, vec![1, 2, 4, 9]);
        }
        other => panic!("expected read_ok, got {:?}", other),
    }
}

#[test]
fn the_topology_fixes_the_neighbors() {
    let mut n = node("n2");
    let map = topology(&[("n1", &["n2"]), ("n2", &["n1", "n3"]), ("n3", &["n2"])]);
    assert_eq!(
        n.handle_topology_msg(parts("c1", "n2", 1), map).unwrap(),
        vec![out("n2", "c1", 1, Some(1), OutPayload::TopologyOk)]
    );
    assert_eq!(n.neighbors(), &names(&["n1", "n3"]));
    assert!(n.topology_known());
}

#[test]
fn a_topology_without_this_node_is_an_error() {
    let mut n = with_neighbors("n1", &["n2"]);
    n.handle_broadcast_msg(parts("c1", "n1", 4), 5).unwrap();
    for map in [topology(&[]), topology(&[("n2", &["n1"]), ("n", &[]), ("n11", &[])])] {
        assert_eq!(
            n.handle_topology_msg(parts("c1", "n1", 1), map),
            Err(NodeError::TopologyMissesSelf)
        );
    }
    // Nothing has changed.
    assert_eq!(n.neighbors(), &names(&["n2"]));
    assert_eq!(n.msg_id(), 4);
    assert!(n.has_observed(5));
}

#[test]
fn process_dispatches_by_payload() {
    let request = |msg_id: usize, payload: InPayload| InMessage {
        src: "c1".to_string(),
        dst: "n1".to_string(),
        body: Body { msg_id: Some(msg_id), in_reply_to: None, payload },
    };
    let mut n = node("n1");
    let map = InPayload::Topology { topology: topology(&[("n1", &["n2"])]) };
    assert_eq!(
        n.process(request(1, map)).unwrap(),
        vec![out("n1", "c1", 1, Some(1), OutPayload::TopologyOk)]
    );
    assert_eq!(
        n.process(request(2, InPayload::Broadcast { message: 3 })).unwrap(),
        vec![
            out("n1", "c1", 2, Some(2), OutPayload::BroadcastOk),
            out("n1", "n2", 3, None, OutPayload::Gossip { message: 3 }),
        ]
    );
    assert_eq!(
        n.process(request(3, InPayload::Gossip { message: 3 })).unwrap(),
        vec![out("n1", "c1", 4, Some(3), OutPayload::GossipOk { message: 3 })]
    );
    assert_eq!(n.process(request(4, InPayload::GossipOk { message: 3 })).unwrap(), vec![]);
    assert_eq!(
        n.process(request(5, InPayload::Read)).unwrap(),
        vec![out("n1", "c1", 5, Some(5), OutPayload::ReadOk { messages: vec![3] })]
    );
    assert_eq!(n.tick().unwrap(), vec![out("n1", "n2", 6, None, OutPayload::Gossip { message: 3 })]);
}

#[test]
fn a_reply_to_a_request_without_identifier_names_none() {
    let mut n = node("n1");
    let anonymous = PartialInMessage { src: "n2".to_string(), dst: "n1".to_string(), msg_id: None };
    let sent = n.handle_gossip_msg(anonymous, 5).unwrap();
    assert_eq!(sent, vec![out("n1", "n2", 1, None, OutPayload::GossipOk { message: 5 })]);
}

#[test]
fn nothing_is_sent_and_nothing_changes_when_the_identifiers_do_not_suffice() {
    // After the topology two identifiers are left; a new value takes one
    // for the answer and three for the flood.
    let mut n = node_from("n1", usize::MAX - 3);
    n.handle_topology_msg(parts("c0", "n1", 0), topology(&[("n1", &["a", "b", "c"])])).unwrap();
    assert_eq!(n.msg_id(), usize::MAX - 2);
    assert_eq!(n.handle_broadcast_msg(parts("c1", "n1", 1), 5), Err(NodeError::IdsExhausted));
    assert_eq!(n.handle_gossip_msg(parts("a", "n1", 1), 5), Err(NodeError::IdsExhausted));
    assert!(!n.has_observed(5));
    assert_eq!(n.msg_id(), usize::MAX - 2);

    // Answers alone still fit.
    assert_eq!(n.handle_read_msg(parts("c1", "n1", 1)).unwrap().len(), 1);
    assert_eq!(n.handle_gossip_ok_msg(parts("a", "n1", 1), 5).unwrap(), vec![]);
    assert_eq!(n.msg_id(), usize::MAX - 1);
    assert_eq!(
        n.handle_topology_msg(parts("c0", "n1", 0), topology(&[("n1", &[])])).unwrap().len(),
        1
    );
    assert_eq!(n.msg_id(), usize::MAX);

    // Now nothing fits.
    assert_eq!(n.handle_read_msg(parts("c1", "n1", 1)), Err(NodeError::IdsExhausted));
    assert_eq!(n.handle_broadcast_msg(parts("c1", "n1", 1), 5), Err(NodeError::IdsExhausted));
    assert_eq!(
        n.handle_topology_msg(parts("c0", "n1", 0), topology(&[("n1", &["a"])])),
        Err(NodeError::IdsExhausted)
    );
    assert_eq!(n.neighbors(), &names(&[]));
    // A topology without this node is told apart first.
    assert_eq!(
        n.handle_topology_msg(parts("c0", "n1", 0), topology(&[])),
        Err(NodeError::TopologyMissesSelf)
    );
    // An acknowledgment needs no identifier, and an empty round neither.
    assert_eq!(n.handle_gossip_ok_msg(parts("a", "n1", 1), 5).unwrap(), vec![]);
    assert_eq!(n.retry_round().unwrap(), vec![]);
}

#[test]
fn a_flood_that_just_fits_uses_the_last_identifiers() {
    let mut n = node_from("n1", usize::MAX - 5);
    n.handle_topology_msg(parts("c0", "n1", 0), topology(&[("n1", &["a", "b", "c"])])).unwrap();
    let sent = n.handle_broadcast_msg(parts("c1", "n1", 1), 5).unwrap();
    assert_eq!(sent.len(), 4);
    assert_eq!(sent[0].body.msg_id, Some(usize::MAX - 4));
    assert_eq!(sent[3].body.msg_id, Some(usize::MAX - 1));
    assert_eq!(n.msg_id(), usize::MAX);
    // The round of three no longer fits, and changes nothing.
    assert_eq!(n.retry_round(), Err(NodeError::IdsExhausted));
    assert_eq!(n.msg_id(), usize::MAX);
}

#[test]
fn gossip_to_neighbors_numbers_from_the_counter() {
    let mut serializer = MessageSerializer::starting_at((), 10);
    let sent = gossip_to_neighbors(&"n1".to_string(), &names(&["x", "y", "x"]), 42, &mut serializer);
    assert_eq!(
        sent,
        vec![
            out("n1", "x", 10, None, OutPayload::Gossip { message: 42 }),
            out("n1", "y", 11, None, OutPayload::Gossip { message: 42 }),
            out("n1", "x", 12, None, OutPayload::Gossip { message: 42 }),
        ]
    );
    assert_eq!(serializer.msg_id(), 13);
    assert_eq!(gossip_to_neighbors(&"n1".to_string(), &names(&[]), 42, &mut serializer), vec![]);
    assert_eq!(serializer.msg_id(), 13);
}

#[test]
fn distinct_names_keeps_first_occurrences() {
    assert_eq!(distinct_names(&names(&[])), names(&[]));
    assert_eq!(distinct_names(&names(&["a"])), names(&["a"]));
    assert_eq!(distinct_names(&names(&["b", "a", "b", "c", "a", "b"])), names(&["b", "a", "c"]));
    assert_eq!(distinct_names(&names(&["a", "a", "a"])), names(&["a"]));
}

#[test]
fn find_neighbors_takes_the_first_entry_of_the_name() {
    let map = topology(&[("n1", &["n2"]), ("n2", &["n1", "n3"]), ("n2", &["n9"]), ("n3", &[])]);
    assert_eq!(find_neighbors(&map, &"n1".to_string()), Some(names(&["n2"])));
    assert_eq!(find_neighbors(&map, &"n2".to_string()), Some(names(&["n1", "n3"])));
    assert_eq!(find_neighbors(&map, &"n3".to_string()), Some(names(&[])));
    assert_eq!(find_neighbors(&map, &"n4".to_string()), None);
    assert_eq!(find_neighbors(&topology(&[]), &"n1".to_string()), None);
}

#[test]
fn shutdown_releases_the_serializer_where_the_node_left_it() {
    let mut n = with_neighbors("n1", &["n2"]);
    n.handle_broadcast_msg(parts("c1", "n1", 4), 5).unwrap();
    let serializer = n.shutdown().unwrap();
    assert_eq!(serializer.msg_id(), 4);
}

#[test]
fn the_serializer_of_a_node_numbers_for_the_node() {
    let mut n = node("n1");
    let mut extra = OutMessage {
        src: "n1".to_string(),
        dst: "c1".to_string(),
        body: Body { msg_id: None, in_reply_to: None, payload: OutPayload::TopologyOk },
    };
    n.serializer().send(&mut extra).unwrap();
    assert_eq!(extra.body.msg_id, Some(1));
    assert_eq!(n.msg_id(), 2);
}
