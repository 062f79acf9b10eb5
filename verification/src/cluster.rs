//! A cluster of broadcast nodes on a network that may lose, repeat and
//! reorder messages but makes none up, and the proof that a value spreads
//! to every node that the neighbor graph connects to one that holds it.

use crate::broadcast::{
    envelopes, gossip, is_retry_round, lemma_processed_grows, lemma_retried_keeps, owed, processed,
    retried, target, Envelope, InPayload, NodeState, Outcome, Said,
};
use crate::ledger::grows;
use crate::message::InMessage;
use vstd::prelude::*;

verus! {

/// The nodes of a cluster by name, and every envelope that any of them has
/// sent so far. An envelope once sent can be delivered any number of times,
/// or never.
pub struct Cluster {
    pub nodes: Map<Seq<char>, NodeState>,
    pub wire: Set<Envelope>,
}

/// One thing that happens in a cluster.
pub enum Move {
    /// The network hands `in_msg` to `node`, which handles it.
    Deliver {
        node: Seq<char>,
        in_msg: InMessage<InPayload>,
        post: NodeState,
        out: Outcome,
    },
    /// The retry worker of `node` does a round.
    Tick { node: Seq<char>, post: NodeState, out: Outcome },
}

/// Whether `node` is in the cluster and has observed `value`.
pub open spec fn holds(cluster: Cluster, node: Seq<char>, value: usize) -> bool {
    cluster.nodes.contains_key(node) && cluster.nodes[node].ledger.contains_key(value)
}

/// Whether `node` holds `value` and has `peer`'s acknowledgment of it.
pub open spec fn acked(cluster: Cluster, node: Seq<char>, value: usize, peer: Seq<char>) -> bool {
    holds(cluster, node, value) && cluster.nodes[node].ledger[value].contains(peer)
}

/// Whether the network may hand `in_msg` over: what claims to come from a
/// peer must have been sent, by the claimed sender, to the addressee.
/// Requests of clients are not constrained.
pub open spec fn deliverable(cluster: Cluster, in_msg: InMessage<InPayload>) -> bool {
    match in_msg.body.payload {
        InPayload::Gossip { message } => exists|sent: Envelope| #[trigger]
            cluster.wire.contains(sent) && sent.src == in_msg.src@ && sent.dst == in_msg.dst@
                && sent.payload == (Said::Gossip { message }),
        InPayload::GossipOk { message } => exists|sent: Envelope| #[trigger]
            cluster.wire.contains(sent) && sent.src == in_msg.src@ && sent.dst == in_msg.dst@
                && sent.payload == (Said::GossipOk { message }),
        _ => true,
    }
}

/// The envelopes that a step puts on the wire.
pub open spec fn sent_by(out: Outcome) -> Set<Envelope> {
    match out {
        Ok(sent) => envelopes(sent@).to_set(),
        Err(_) => Set::empty(),
    }
}

/// Whether `step` takes the cluster from `before` to `after`.
pub open spec fn follows(before: Cluster, step: Move, after: Cluster) -> bool {
    match step {
        Move::Deliver { node, in_msg, post, out } => {
            &&& before.nodes.contains_key(node)
            &&& in_msg.dst@ == node
            &&& deliverable(before, in_msg)
            &&& processed(before.nodes[node], in_msg, post, out)
            &&& after == Cluster {
                nodes: before.nodes.insert(node, post),
                wire: before.wire.union(sent_by(out)),
            }
        },
        Move::Tick { node, post, out } => {
            &&& before.nodes.contains_key(node)
            &&& retried(before.nodes[node], post, out)
            &&& after == Cluster {
                nodes: before.nodes.insert(node, post),
                wire: before.wire.union(sent_by(out)),
            }
        },
    }
}

/// The value an envelope gossips or acknowledges, if it does either.
pub open spec fn carries(envelope: Envelope) -> Option<usize> {
    match envelope.payload {
        Said::Gossip { message } => Some(message),
        Said::GossipOk { message } => Some(message),
        _ => None,
    }
}

/// What holds of every cluster that started sound: each node knows its own
/// name, whoever gossiped or acknowledged a value holds it, and whoever is
/// recorded as an acknowledger of a value holds it.
pub open spec fn sound(cluster: Cluster) -> bool {
    &&& forall|node: Seq<char>| #[trigger]
        cluster.nodes.contains_key(node) ==> cluster.nodes[node].node_id == node
    &&& forall|sent: Envelope| #[trigger]
        cluster.wire.contains(sent) && carries(sent) is Some ==> holds(
            cluster,
            sent.src,
            carries(sent)->0,
        )
    &&& forall|node: Seq<char>, value: usize, peer: Seq<char>| #[trigger]
        acked(cluster, node, value, peer) ==> holds(cluster, peer, value)
}

/// A cluster of nodes that have just been created, with nothing sent, is
/// sound.
pub proof fn lemma_fresh_cluster_sound(cluster: Cluster)
    requires
        cluster.wire == Set::<Envelope>::empty(),
        forall|node: Seq<char>| #[trigger]
            cluster.nodes.contains_key(node) ==> cluster.nodes[node] == crate::broadcast::initial(
                node,
                cluster.nodes[node].next_id,
            ),
    ensures
        sound(cluster),
{
}

/// No step makes a node forget: whoever held a value or an acknowledgment
/// before it holds it after it.
pub proof fn lemma_step_keeps(before: Cluster, step: Move, after: Cluster)
    requires
        follows(before, step, after),
    ensures
        after.nodes.dom() == before.nodes.dom(),
        forall|node: Seq<char>| #[trigger]
            before.nodes.contains_key(node) ==> grows(
                before.nodes[node].ledger,
                after.nodes[node].ledger,
            ) && after.nodes[node].node_id == before.nodes[node].node_id,
        forall|node: Seq<char>, value: usize| #[trigger]
            holds(before, node, value) ==> holds(after, node, value),
        forall|node: Seq<char>, value: usize, peer: Seq<char>| #[trigger]
            acked(before, node, value, peer) ==> acked(after, node, value, peer),
        forall|sent: Envelope| before.wire.contains(sent) ==> after.wire.contains(sent),
{
    match step {
        Move::Deliver { node, in_msg, post, out } => {
            lemma_processed_grows(before.nodes[node], in_msg, post, out);
        },
        Move::Tick { node, post, out } => {
            lemma_retried_keeps(before.nodes[node], post, out);
        },
    }
    assert(after.nodes.dom() =~= before.nodes.dom());
    assert forall|node: Seq<char>, value: usize| #[trigger] holds(before, node, value) implies holds(
        after,
        node,
        value,
    ) by {
        assert(grows(before.nodes[node].ledger, after.nodes[node].ledger));
    }
    assert forall|node: Seq<char>, value: usize, peer: Seq<char>| #[trigger]
        acked(before, node, value, peer) implies acked(after, node, value, peer) by {
        assert(grows(before.nodes[node].ledger, after.nodes[node].ledger));
        assert(holds(before, node, value));
    }
}

/// What a step puts on the wire speaks only of values that its sender
/// holds afterwards.
proof fn lemma_sent_is_held(before: Cluster, step: Move, after: Cluster, sent: Envelope)
    requires
        sound(before),
        follows(before, step, after),
        match step {
            Move::Deliver { out, .. } => sent_by(out).contains(sent),
            Move::Tick { out, .. } => sent_by(out).contains(sent),
        },
        carries(sent) is Some,
    ensures
        holds(after, sent.src, carries(sent)->0),
{
    match step {
        Move::Deliver { node, in_msg, post, out } => {
            let pre = before.nodes[node];
            let list = envelopes(out->Ok_0@);
            let k = choose|k: int| 0 <= k < list.len() && list[k] == sent;
            assert(pre.node_id == node);
            assert(after.nodes[node] == post);
            match in_msg.body.payload {
                InPayload::Read => {
                    assert(out->Ok_0@.len() == 1);
                    assert(list[0] == out->Ok_0@[0]@);
                },
                _ => {},
            }
        },
        Move::Tick { node, post, out } => {
            let pre = before.nodes[node];
            let list = envelopes(out->Ok_0@);
            let k = choose|k: int| 0 <= k < list.len() && list[k] == sent;
            assert(pre.node_id == node);
            assert(after.nodes[node] == post);
            let targets = list.map_values(|envelope: Envelope| target(envelope));
            assert(targets[k] == target(list[k]));
            assert(targets.to_set().contains(targets[k]));
            assert(owed(pre).contains(target(sent)));
            assert(list[k] == gossip(pre.node_id, target(sent).1, target(sent).0, pre.next_id + k));
        },
    }
}

/// A sound cluster stays sound, whatever happens in it.
pub proof fn lemma_step_sound(before: Cluster, step: Move, after: Cluster)
    requires
        sound(before),
        follows(before, step, after),
    ensures
        sound(after),
{
    lemma_step_keeps(before, step, after);
    assert forall|node: Seq<char>| #[trigger] after.nodes.contains_key(node) implies after.nodes[node].node_id
        == node by {
        assert(before.nodes.contains_key(node));
    }
    assert forall|sent: Envelope| #[trigger]
        after.wire.contains(sent) && carries(sent) is Some implies holds(
        after,
        sent.src,
        carries(sent)->0,
    ) by {
        if before.wire.contains(sent) {
            assert(holds(before, sent.src, carries(sent)->0));
        } else {
            lemma_sent_is_held(before, step, after, sent);
        }
    }
    assert forall|node: Seq<char>, value: usize, peer: Seq<char>| #[trigger]
        acked(after, node, value, peer) implies holds(after, peer, value) by {
        if acked(before, node, value, peer) {
            assert(holds(before, peer, value));
        } else {
            match step {
                Move::Deliver { node: at, in_msg, post, out } => {
                    assert(node == at) by {
                        if node != at {
                            assert(after.nodes[node] == before.nodes[node]);
                        }
                    }
                    assert(after.nodes[node] == post);
                    match in_msg.body.payload {
                        InPayload::GossipOk { message } => {
                            assert(value == message && peer == in_msg.src@);
                            let proof_of = choose|sent: Envelope| #[trigger]
                                before.wire.contains(sent) && sent.src == in_msg.src@ && sent.dst
                                    == in_msg.dst@ && sent.payload == (Said::GossipOk { message });
                            assert(carries(proof_of) == Some(message));
                            assert(holds(before, proof_of.src, message));
                        },
                        _ => {},
                    }
                },
                Move::Tick { node: at, post, out } => {
                    lemma_retried_keeps(before.nodes[at], post, out);
                    if node != at {
                        assert(after.nodes[node] == before.nodes[node]);
                    }
                },
            }
        }
    }
}

/// A run of a cluster: `moves[i]` takes it from `states[i]` to
/// `states[i + 1]`.
pub open spec fn is_run(states: Seq<Cluster>, moves: Seq<Move>) -> bool {
    &&& states.len() == moves.len() + 1
    &&& forall|i: int|
        0 <= i < moves.len() ==> follows(states[i], #[trigger] moves[i], states[i + 1])
}

/// Every state of a run that starts sound is sound.
pub proof fn lemma_run_sound(states: Seq<Cluster>, moves: Seq<Move>, at: int)
    requires
        is_run(states, moves),
        sound(states[0]),
        0 <= at < states.len(),
    ensures
        sound(states[at]),
    decreases at,
{
    if at > 0 {
        lemma_run_sound(states, moves, at - 1);
        assert(follows(states[at - 1], moves[at - 1], states[at]));
        lemma_step_sound(states[at - 1], moves[at - 1], states[at]);
    }
}

/// What a node holds at one point of a run, it holds at every later one.
pub proof fn lemma_run_keeps(
    states: Seq<Cluster>,
    moves: Seq<Move>,
    from: int,
    to: int,
    node: Seq<char>,
    value: usize,
)
    requires
        is_run(states, moves),
        0 <= from <= to < states.len(),
        holds(states[from], node, value),
    ensures
        holds(states[to], node, value),
    decreases to - from,
{
    if from < to {
        lemma_run_keeps(states, moves, from, to - 1, node, value);
        assert(follows(states[to - 1], moves[to - 1], states[to]));
        lemma_step_keeps(states[to - 1], moves[to - 1], states[to]);
    }
}

/// Whether `step` is `node` taking in, and handling, a gossip of `value`
/// that `from` sent it.
pub open spec fn is_receipt(step: Move, from: Seq<char>, node: Seq<char>, value: usize) -> bool {
    &&& step matches Move::Deliver { node: at, in_msg, post, out }
    &&& at == node
    &&& in_msg.src@ == from
    &&& in_msg.body.payload == (InPayload::Gossip { message: value })
    &&& out is Ok
}

/// Whether a gossip of `value` from `from` got through to `node` at some
/// point of the run.
pub open spec fn received(moves: Seq<Move>, from: Seq<char>, node: Seq<char>, value: usize)
    -> bool {
    exists|i: int| 0 <= i < moves.len() && is_receipt(#[trigger] moves[i], from, node, value)
}

/// A node that takes in a gossip holds its value from then on.
pub proof fn lemma_receipt_holds(
    before: Cluster,
    step: Move,
    after: Cluster,
    from: Seq<char>,
    node: Seq<char>,
    value: usize,
)
    requires
        follows(before, step, after),
        is_receipt(step, from, node, value),
    ensures
        holds(after, node, value),
{
    assert(after.nodes[node] == step->Deliver_post);
}

/// Whether the network has been fair to `value` by the end of the run:
/// for every node that holds the value and each of its neighbors in the
/// cluster, either the neighbor's acknowledgment has arrived, or at least
/// one of the node's gossips of the value has got through to the
/// neighbor. Since a node gossips a value again in every retry round until
/// the acknowledgment arrives, a network that delivers what is sent after
/// finitely many losses gets every run to this point.
pub open spec fn fair(states: Seq<Cluster>, moves: Seq<Move>, value: usize) -> bool {
    forall|node: Seq<char>, peer: Seq<char>|
        holds(states.last(), node, value) && #[trigger] states.last().nodes[node].neighbors.contains(
            peer,
        ) && states.last().nodes.contains_key(peer) ==> acked(states.last(), node, value, peer)
            || received(moves, node, peer, value)
}

/// Whether `path` leads through the cluster along neighbor lists.
pub open spec fn is_path(cluster: Cluster, path: Seq<Seq<char>>) -> bool {
    &&& path.len() > 0
    &&& forall|i: int| 0 <= i < path.len() ==> cluster.nodes.contains_key(#[trigger] path[i])
    &&& forall|i: int|
        0 < i < path.len() ==> cluster.nodes[path[i - 1]].neighbors.contains(#[trigger] path[i])
}

/// Whether every node of the cluster can be reached from `origin` along
/// neighbor lists.
pub open spec fn connected_from(cluster: Cluster, origin: Seq<char>) -> bool {
    forall|node: Seq<char>| #[trigger]
        cluster.nodes.contains_key(node) ==> exists|path: Seq<Seq<char>>| #[trigger]
            is_path(cluster, path) && path[0] == origin && path.last() == node
}

/// At the end of a fair run, a value has travelled along every path that
/// starts at a node holding it.
pub proof fn lemma_value_travels(
    states: Seq<Cluster>,
    moves: Seq<Move>,
    value: usize,
    path: Seq<Seq<char>>,
    upto: int,
)
    requires
        is_run(states, moves),
        sound(states[0]),
        fair(states, moves, value),
        is_path(states.last(), path),
        holds(states.last(), path[0], value),
        0 <= upto < path.len(),
    ensures
        holds(states.last(), path[upto], value),
    decreases upto,
{
    if upto > 0 {
        lemma_value_travels(states, moves, value, path, upto - 1);
        let end = states.last();
        let node = path[upto - 1];
        let peer = path[upto];
        assert(end.nodes[node].neighbors.contains(peer));
        if acked(end, node, value, peer) {
            lemma_run_sound(states, moves, states.len() - 1);
        } else {
            let i = choose|i: int|
                0 <= i < moves.len() && is_receipt(#[trigger] moves[i], node, peer, value);
            assert(follows(states[i], moves[i], states[i + 1]));
            lemma_receipt_holds(states[i], moves[i], states[i + 1], node, peer, value);
            lemma_run_keeps(states, moves, i + 1, states.len() - 1, peer, value);
        }
    }
}

/// Eventual convergence. Take any run of a cluster that started sound, on
/// a network that loses, repeats and reorders at will. If some node has
/// observed `value` at some point, every node can be reached from it along
/// neighbor lists, and the network has been fair to the value, then at the
/// end every node holds the value.
pub proof fn lemma_converges(
    states: Seq<Cluster>,
    moves: Seq<Move>,
    value: usize,
    origin: Seq<char>,
    since: int,
)
    requires
        is_run(states, moves),
        sound(states[0]),
        0 <= since < states.len(),
        holds(states[since], origin, value),
        connected_from(states.last(), origin),
        fair(states, moves, value),
    ensures
        forall|node: Seq<char>| #[trigger]
            states.last().nodes.contains_key(node) ==> holds(states.last(), node, value),
{
    lemma_run_keeps(states, moves, since, states.len() - 1, origin, value);
    assert forall|node: Seq<char>| #[trigger] states.last().nodes.contains_key(node) implies holds(
        states.last(),
        node,
        value,
    ) by {
        let path = choose|path: Seq<Seq<char>>| #[trigger]
            is_path(states.last(), path) && path[0] == origin && path.last() == node;
        lemma_value_travels(states, moves, value, path, path.len() - 1);
    }
}

/// As long as a neighbor has not acknowledged a value that a node holds,
/// every retry round of the node gossips the value to that neighbor.
pub proof fn lemma_retry_reaches(
    pre: NodeState,
    post: NodeState,
    out: Outcome,
    value: usize,
    peer: Seq<char>,
)
    requires
        retried(pre, post, out),
        out is Ok,
        pre.ledger.contains_key(value),
        pre.neighbors.contains(peer),
        !pre.ledger[value].contains(peer),
    ensures
        exists|k: int|
            0 <= k < out->Ok_0@.len() && (#[trigger] envelopes(out->Ok_0@)[k]) == gossip(
                pre.node_id,
                peer,
                value,
                pre.next_id + k,
            ),
{
    let list = envelopes(out->Ok_0@);
    let targets = list.map_values(|envelope: Envelope| target(envelope));
    assert(owed(pre).contains((value, peer)));
    assert(targets.to_set().contains((value, peer)));
    let k = choose|k: int| 0 <= k < targets.len() && targets[k] == (value, peer);
    assert(targets[k] == target(list[k]));
    assert(list[k] == gossip(pre.node_id, peer, value, pre.next_id + k));
}

/// Once a neighbor's acknowledgment of a value is recorded, no retry round
/// gossips the value to that neighbor again.
pub proof fn lemma_ack_ends_retry(
    pre: NodeState,
    post: NodeState,
    out: Outcome,
    value: usize,
    peer: Seq<char>,
)
    requires
        retried(pre, post, out),
        out is Ok,
        pre.ledger.contains_key(value) ==> pre.ledger[value].contains(peer),
    ensures
        forall|k: int|
            0 <= k < out->Ok_0@.len() ==> target(#[trigger] envelopes(out->Ok_0@)[k]) != (
                value,
                peer,
            ),
{
    let list = envelopes(out->Ok_0@);
    let targets = list.map_values(|envelope: Envelope| target(envelope));
    assert forall|k: int| 0 <= k < out->Ok_0@.len() implies target(#[trigger] list[k]) != (
        value,
        peer,
    ) by {
        assert(targets[k] == target(list[k]));
        assert(targets.to_set().contains(targets[k]));
    }
}

/// What is on the wire at one point of a run is on it at every later one.
pub proof fn lemma_run_keeps_wire(
    states: Seq<Cluster>,
    moves: Seq<Move>,
    from: int,
    to: int,
    sent: Envelope,
)
    requires
        is_run(states, moves),
        0 <= from <= to < states.len(),
        states[from].wire.contains(sent),
    ensures
        states[to].wire.contains(sent),
    decreases to - from,
{
    if from < to {
        lemma_run_keeps_wire(states, moves, from, to - 1, sent);
        assert(follows(states[to - 1], moves[to - 1], states[to]));
        lemma_step_keeps(states[to - 1], moves[to - 1], states[to]);
    }
}

/// An acknowledgment that has arrived at one point of a run is there at
/// every later one.
pub proof fn lemma_run_keeps_acks(
    states: Seq<Cluster>,
    moves: Seq<Move>,
    from: int,
    to: int,
    node: Seq<char>,
    value: usize,
    peer: Seq<char>,
)
    requires
        is_run(states, moves),
        0 <= from <= to < states.len(),
        acked(states[from], node, value, peer),
    ensures
        acked(states[to], node, value, peer),
    decreases to - from,
{
    if from < to {
        lemma_run_keeps_acks(states, moves, from, to - 1, node, value, peer);
        assert(follows(states[to - 1], moves[to - 1], states[to]));
        lemma_step_keeps(states[to - 1], moves[to - 1], states[to]);
    }
}

/// Whether `step` is a retry round of `node` that was not refused.
pub open spec fn is_round(step: Move, node: Seq<char>) -> bool {
    &&& step matches Move::Tick { node: at, post, out }
    &&& at == node
    &&& out is Ok
}

/// Whether the retry worker of `node` did a round at some point of the run
/// at which the node held `value` and listed `peer` as a neighbor.
pub open spec fn retried_for(
    states: Seq<Cluster>,
    moves: Seq<Move>,
    node: Seq<char>,
    peer: Seq<char>,
    value: usize,
) -> bool {
    exists|i: int|
        0 <= i < moves.len() && is_round(#[trigger] moves[i], node) && holds(
            states[i],
            node,
            value,
        ) && states[i].nodes[node].neighbors.contains(peer)
}

/// Whether the retry workers have kept running: for every node that holds
/// `value` at the end and each of its neighbors in the cluster, the
/// neighbor's acknowledgment has arrived, or the node's worker has done a
/// round since the node holds the value and lists the neighbor.
pub open spec fn workers_ran(states: Seq<Cluster>, moves: Seq<Move>, value: usize) -> bool {
    forall|node: Seq<char>, peer: Seq<char>|
        holds(states.last(), node, value) && #[trigger] states.last().nodes[node].neighbors.contains(
            peer,
        ) && states.last().nodes.contains_key(peer) ==> acked(states.last(), node, value, peer)
            || retried_for(states, moves, node, peer, value)
}

/// Whether the network has delivered what was sent, after however many
/// losses: of the gossips of `value` that a node has sent to a member of
/// the cluster, at least one has got through.
pub open spec fn delivered_eventually(states: Seq<Cluster>, moves: Seq<Move>, value: usize)
    -> bool {
    forall|sent: Envelope| #[trigger]
        states.last().wire.contains(sent) && sent.payload == (Said::Gossip { message: value })
            && states.last().nodes.contains_key(sent.dst) ==> received(
            moves,
            sent.src,
            sent.dst,
            value,
        )
}

/// Retry rounds put on the wire what fairness asks the network to
/// deliver: where the workers have kept running and the network has
/// delivered what was sent, the network has been fair.
pub proof fn lemma_retries_make_fair(states: Seq<Cluster>, moves: Seq<Move>, value: usize)
    requires
        is_run(states, moves),
        sound(states[0]),
        workers_ran(states, moves, value),
        delivered_eventually(states, moves, value),
    ensures
        fair(states, moves, value),
{
    let end = states.last();
    assert forall|node: Seq<char>, peer: Seq<char>|
        holds(end, node, value) && #[trigger] end.nodes[node].neighbors.contains(peer)
            && end.nodes.contains_key(peer) implies acked(end, node, value, peer) || received(
        moves,
        node,
        peer,
        value,
    ) by {
        if !acked(end, node, value, peer) {
            let i = choose|i: int|
                0 <= i < moves.len() && is_round(#[trigger] moves[i], node) && holds(
                    states[i],
                    node,
                    value,
                ) && states[i].nodes[node].neighbors.contains(peer);
            let pre = states[i].nodes[node];
            let out = moves[i]->Tick_out;
            assert(follows(states[i], moves[i], states[i + 1]));
            lemma_run_sound(states, moves, i);
            if acked(states[i], node, value, peer) {
                lemma_run_keeps_acks(states, moves, i, states.len() - 1, node, value, peer);
            }
            lemma_retry_reaches(pre, moves[i]->Tick_post, out, value, peer);
            let k = choose|k: int|
                0 <= k < out->Ok_0@.len() && (#[trigger] envelopes(out->Ok_0@)[k]) == gossip(
                    pre.node_id,
                    peer,
                    value,
                    pre.next_id + k,
                );
            let sent = envelopes(out->Ok_0@)[k];
            assert(sent_by(out).contains(sent));
            assert(states[i + 1].wire.contains(sent));
            lemma_run_keeps_wire(states, moves, i + 1, states.len() - 1, sent);
            assert(sent.src == node && sent.dst == peer);
        }
    }
}

/// Eventual convergence, in terms of what the nodes send. Take any run of
/// a cluster that started sound, on a network that loses, repeats and
/// reorders at will. If some node has observed `value` at some point,
/// every node can be reached from it along neighbor lists, the retry
/// workers have kept running, and the network has delivered what was sent
/// to it after however many losses, then at the end every node holds the
/// value.
pub proof fn lemma_retries_converge(
    states: Seq<Cluster>,
    moves: Seq<Move>,
    value: usize,
    origin: Seq<char>,
    since: int,
)
    requires
        is_run(states, moves),
        sound(states[0]),
        0 <= since < states.len(),
        holds(states[since], origin, value),
        connected_from(states.last(), origin),
        workers_ran(states, moves, value),
        delivered_eventually(states, moves, value),
    ensures
        forall|node: Seq<char>| #[trigger]
            states.last().nodes.contains_key(node) ==> holds(states.last(), node, value),
{
    lemma_retries_make_fair(states, moves, value);
    lemma_converges(states, moves, value, origin, since);
}

} // verus!
