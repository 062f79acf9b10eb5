//! The reliable broadcast node: values are flooded to the neighbors when
//! first observed, acknowledged by whoever receives them, and resent to the
//! neighbors that have not acknowledged them yet.

use crate::ledger::{
    after_acknowledge, after_observe, grows, lemma_unacknowledged, name_seq, names, Ledger,
};
use crate::message::{Body, DeconstructedInMessage, InMessage, OutMessage, PartialInMessage};
use crate::node::{numbered, Node, NodeError};
use crate::retry::{
    lemma_pairs_contains, lemma_pairs_distinct, pairs_of, pending, resend_missing, resend_wave,
    rows,
};
use crate::serializer::MessageSerializer;
use vstd::prelude::*;

verus! {

/// What a broadcast node can be asked.
#[derive(Clone, Debug, PartialEq, Eq)]
pub enum InPayload {
    Broadcast { message: usize },
    Read,
    Topology { topology: Topology },
    Gossip { message: usize },
    GossipOk { message: usize },
}

/// What a broadcast node says.
#[derive(Clone, Debug, PartialEq, Eq)]
pub enum OutPayload {
    BroadcastOk,
    ReadOk { messages: Vec<usize> },
    TopologyOk,
    Gossip { message: usize },
    GossipOk { message: usize },
}

/// The neighbor lists of a cluster, node by node.
pub type Topology = Vec<(String, Vec<String>)>;

/// What a node hands back for one request: the messages to send, in order,
/// or why it refused.
pub type Outcome = Result<Vec<OutMessage<OutPayload>>, NodeError>;

/// An outgoing payload as plain values.
pub enum Said {
    BroadcastOk,
    ReadOk { messages: Seq<usize> },
    TopologyOk,
    Gossip { message: usize },
    GossipOk { message: usize },
}

impl View for OutPayload {
    type V = Said;

    open spec fn view(&self) -> Said {
        match *self {
            OutPayload::BroadcastOk => Said::BroadcastOk,
            OutPayload::ReadOk { messages } => Said::ReadOk { messages: messages@ },
            OutPayload::TopologyOk => Said::TopologyOk,
            OutPayload::Gossip { message } => Said::Gossip { message },
            OutPayload::GossipOk { message } => Said::GossipOk { message },
        }
    }
}

/// An outgoing envelope as plain values.
pub struct Envelope {
    pub src: Seq<char>,
    pub dst: Seq<char>,
    pub msg_id: Option<usize>,
    pub in_reply_to: Option<usize>,
    pub payload: Said,
}

impl View for OutMessage<OutPayload> {
    type V = Envelope;

    open spec fn view(&self) -> Envelope {
        Envelope {
            src: self.src@,
            dst: self.dst@,
            msg_id: self.body.msg_id,
            in_reply_to: self.body.in_reply_to,
            payload: self.body.payload@,
        }
    }
}

/// The envelopes held by a list of outgoing messages, in order.
pub open spec fn envelopes(out: Seq<OutMessage<OutPayload>>) -> Seq<Envelope> {
    out.map_values(|msg: OutMessage<OutPayload>| msg@)
}

/// The reply to a request from `parts`, numbered `id`.
pub open spec fn reply(parts: PartialInMessage, payload: Said, id: usize) -> Envelope {
    Envelope {
        src: parts.dst@,
        dst: parts.src@,
        msg_id: Some(id),
        in_reply_to: parts.msg_id,
        payload,
    }
}

/// One gossip of `message` from `node_id` to `neighbor`, numbered `id`.
pub open spec fn gossip(node_id: Seq<char>, neighbor: Seq<char>, message: usize, id: int)
    -> Envelope {
    Envelope {
        src: node_id,
        dst: neighbor,
        msg_id: Some(id as usize),
        in_reply_to: None,
        payload: Said::Gossip { message },
    }
}

/// A flood: one gossip of `message` to each of `neighbors` in turn, numbered
/// from `first_id` on.
pub open spec fn flood(
    node_id: Seq<char>,
    neighbors: Seq<Seq<char>>,
    message: usize,
    first_id: int,
) -> Seq<Envelope> {
    Seq::new(neighbors.len(), |i: int| gossip(node_id, neighbors[i], message, first_id + i))
}

/// Builds the flood of `message` from `node_id` to `neighbors`, stamping
/// each gossip with `serializer`.
pub fn gossip_to_neighbors<W>(
    node_id: &String,
    neighbors: &Vec<String>,
    message: usize,
    serializer: &mut MessageSerializer<W>,
) -> (out: Vec<OutMessage<OutPayload>>)
    requires
        old(serializer).next_id() + neighbors@.len() <= usize::MAX,
    ensures
        envelopes(out@) == flood(
            node_id@,
            name_seq(neighbors@),
            message,
            old(serializer).next_id() as int,
        ),
        final(serializer).next_id() == old(serializer).next_id() + neighbors@.len(),
        final(serializer).stream() == old(serializer).stream(),
{
    let mut out: Vec<OutMessage<OutPayload>> = Vec::new();
    let mut i: usize = 0;
    while i < neighbors.len()
        invariant
            i <= neighbors@.len(),
            old(serializer).next_id() + neighbors@.len() <= usize::MAX,
            serializer.next_id() == old(serializer).next_id() + i,
            serializer.stream() == old(serializer).stream(),
            out@.len() == i,
            forall|j: int|
                0 <= j < i ==> (#[trigger] out@[j])@ == gossip(
                    node_id@,
                    neighbors@[j]@,
                    message,
                    old(serializer).next_id() + j,
                ),
        decreases neighbors@.len() - i,
    {
        let mut msg = OutMessage {
            src: node_id.clone(),
            dst: neighbors[i].clone(),
            body: Body { msg_id: None, in_reply_to: None, payload: OutPayload::Gossip { message } },
        };
        serializer.stamp(&mut msg);
        out.push(msg);
        i += 1;
    }
    assert(envelopes(out@) =~= flood(
        node_id@,
        name_seq(neighbors@),
        message,
        old(serializer).next_id() as int,
    ));
    out
}

/// The names of `list` with every repetition after the first dropped.
pub open spec fn distinct(list: Seq<Seq<char>>) -> Seq<Seq<char>>
    decreases list.len(),
{
    if list.len() == 0 {
        list
    } else if distinct(list.drop_last()).contains(list.last()) {
        distinct(list.drop_last())
    } else {
        distinct(list.drop_last()).push(list.last())
    }
}

/// `distinct` repeats no name and drops none.
pub proof fn lemma_distinct(list: Seq<Seq<char>>)
    ensures
        distinct(list).no_duplicates(),
        distinct(list).to_set() == list.to_set(),
    decreases list.len(),
{
    if list.len() > 0 {
        let front = list.drop_last();
        lemma_distinct(front);
        assert(list =~= front.push(list.last()));
        assert forall|name: Seq<char>| list.to_set().contains(name) <==> front.to_set().contains(
            name,
        ) || name == list.last() by {
            if front.to_set().contains(name) {
                let i = choose|i: int| 0 <= i < front.len() && front[i] == name;
                assert(list[i] == name);
            }
            if name == list.last() {
                assert(list[list.len() - 1] == name);
            }
            if list.to_set().contains(name) {
                let i = choose|i: int| 0 <= i < list.len() && list[i] == name;
                if i < front.len() {
                    assert(front[i] == name);
                }
            }
        }
        let kept = distinct(front);
        if kept.contains(list.last()) {
            assert(kept.to_set() =~= list.to_set());
        } else {
            let all = kept.push(list.last());
            assert forall|name: Seq<char>| all.to_set().contains(name) <==> kept.to_set().contains(
                name,
            ) || name == list.last() by {
                if kept.to_set().contains(name) {
                    let i = choose|i: int| 0 <= i < kept.len() && kept[i] == name;
                    assert(all[i] == name);
                }
                if name == list.last() {
                    assert(all[all.len() - 1] == name);
                }
                if all.to_set().contains(name) {
                    let i = choose|i: int| 0 <= i < all.len() && all[i] == name;
                    if i < kept.len() {
                        assert(kept[i] == name);
                    }
                }
            }
            assert(all.to_set() =~= list.to_set());
        }
    } else {
        assert(distinct(list).to_set() =~= list.to_set());
    }
}

/// The names of `list`, each once, in the order of their first occurrence.
pub fn distinct_names(list: &Vec<String>) -> (kept: Vec<String>)
    ensures
        name_seq(kept@) == distinct(name_seq(list@)),
{
    let mut kept: Vec<String> = Vec::new();
    let mut i: usize = 0;
    assert(name_seq(list@.take(0)) =~= Seq::<Seq<char>>::empty());
    assert(name_seq(kept@) =~= Seq::<Seq<char>>::empty());
    while i < list.len()
        invariant
            i <= list.len(),
            name_seq(kept@) == distinct(name_seq(list@.take(i as int))),
        decreases list.len() - i,
    {
        let ghost before = name_seq(list@.take(i as int));
        let ghost kept_before = kept@;
        let seen = crate::ledger::contains_name(&kept, &list[i]);
        if !seen {
            kept.push(list[i].clone());
        }
        proof {
            let next = name_seq(list@.take(i + 1));
            let name = list@[i as int]@;
            assert(next =~= before.push(name));
            assert(next.drop_last() =~= before);
            assert(names(kept_before).contains(name) == name_seq(kept_before).contains(name)) by {
                if names(kept_before).contains(name) {
                    let k = choose|k: int| 0 <= k < kept_before.len() && kept_before[k]@ == name;
                    assert(name_seq(kept_before)[k] == name);
                }
                if name_seq(kept_before).contains(name) {
                    let k = choose|k: int|
                        0 <= k < name_seq(kept_before).len() && name_seq(kept_before)[k] == name;
                    assert(kept_before[k]@ == name);
                }
            }
            if !seen {
                assert(name_seq(kept@) =~= name_seq(kept_before).push(name));
            }
        }
        i += 1;
    }
    assert(list@.take(i as int) =~= list@);
    kept
}

/// Whether entry `at` is the first of `topology` that is keyed `node_id`.
pub open spec fn first_entry_for(
    topology: Seq<(String, Vec<String>)>,
    node_id: Seq<char>,
    at: int,
) -> bool {
    &&& 0 <= at < topology.len()
    &&& topology[at].0@ == node_id
    &&& forall|j: int| 0 <= j < at ==> (#[trigger] topology[j]).0@ != node_id
}

/// Whether `topology` lists `node_id` at all.
pub open spec fn lists(topology: Seq<(String, Vec<String>)>, node_id: Seq<char>) -> bool {
    exists|at: int| 0 <= at < topology.len() && (#[trigger] topology[at]).0@ == node_id
}

/// The neighbors that `topology` gives `node_id`: those of the first entry
/// keyed by it.
pub open spec fn neighbors_in(topology: Seq<(String, Vec<String>)>, node_id: Seq<char>) -> Seq<
    Seq<char>,
> {
    name_seq(topology[choose|at: int| first_entry_for(topology, node_id, at)].1@)
}

/// Looks `node_id` up in `topology`.
pub fn find_neighbors(topology: &Topology, node_id: &String) -> (found: Option<Vec<String>>)
    ensures
        found is Some <==> lists(topology@, node_id@),
        found matches Some(list) ==> name_seq(list@) == neighbors_in(topology@, node_id@),
{
    let mut i: usize = 0;
    while i < topology.len()
        invariant
            i <= topology.len(),
            forall|j: int| 0 <= j < i ==> (#[trigger] topology@[j]).0@ != node_id@,
        decreases topology.len() - i,
    {
        if topology[i].0 == *node_id {
            let list = topology[i].1.clone();
            proof {
                assert(first_entry_for(topology@, node_id@, i as int));
                let at = choose|at: int| first_entry_for(topology@, node_id@, at);
                assert(at == i) by {
                    if at < i {
                        assert(topology@[at].0@ != node_id@);
                    }
                    if i < at {
                        assert(topology@[i as int].0@ != node_id@);
                    }
                }
                assert(list@ =~= topology@[i as int].1@) by {
                    assert(list@.len() == topology@[i as int].1@.len());
                }
            }
            return Some(list);
        }
        i += 1;
    }
    None
}

/// A broadcast node as plain values.
pub struct NodeState {
    /// This node's identifier.
    pub node_id: Seq<char>,
    /// The identifier the next outgoing message gets.
    pub next_id: usize,
    /// For every observed value, the neighbors that acknowledged it.
    pub ledger: Map<usize, Set<Seq<char>>>,
    /// The neighbors a new value is flooded to, as the topology listed them.
    pub neighbors: Seq<Seq<char>>,
    /// Whether the topology has arrived, which is when the retry worker
    /// starts.
    pub topology_known: bool,
}

/// The state a node starts in.
pub open spec fn initial(node_id: Seq<char>, next_id: usize) -> NodeState {
    NodeState {
        node_id,
        next_id,
        ledger: Map::empty(),
        neighbors: Seq::empty(),
        topology_known: false,
    }
}

/// How many identifiers a first or repeated sighting of `message` takes:
/// one for the reply, and one per neighbor if the value is new.
pub open spec fn sighting_cost(state: NodeState, message: usize) -> nat {
    if state.ledger.contains_key(message) {
        1
    } else {
        1 + state.neighbors.len()
    }
}

/// The state after a sighting of `message`.
pub open spec fn after_sighting(state: NodeState, message: usize) -> NodeState {
    NodeState {
        next_id: (state.next_id + sighting_cost(state, message)) as usize,
        ledger: after_observe(state.ledger, message),
        ..state
    }
}

/// What a sighting of `message` sends: the reply `answer` to the sender,
/// then a flood if the value is new.
pub open spec fn sighting_output(
    state: NodeState,
    parts: PartialInMessage,
    answer: Said,
    message: usize,
) -> Seq<Envelope> {
    let first = seq![reply(parts, answer, state.next_id)];
    if state.ledger.contains_key(message) {
        first
    } else {
        first + flood(state.node_id, state.neighbors, message, state.next_id + 1)
    }
}

/// The state after a topology that lists `neighbors` for this node.
pub open spec fn after_topology(state: NodeState, neighbors: Seq<Seq<char>>) -> NodeState {
    NodeState {
        next_id: (state.next_id + 1) as usize,
        neighbors,
        topology_known: true,
        ..state
    }
}

/// The state after `sender` acknowledged `message`.
pub open spec fn after_ack(state: NodeState, message: usize, sender: Seq<char>) -> NodeState {
    NodeState { ledger: after_acknowledge(state.ledger, message, sender), ..state }
}

/// Whether `envelope` answers a read from `parts` in `state`: a `read_ok`
/// numbered with the next identifier that lists every observed value once,
/// in any order.
pub open spec fn is_read_reply(envelope: Envelope, state: NodeState, parts: PartialInMessage)
    -> bool {
    &&& envelope.payload matches Said::ReadOk { messages }
    &&& messages.no_duplicates()
    &&& messages.to_set() == state.ledger.dom()
    &&& envelope == reply(parts, Said::ReadOk { messages }, state.next_id)
}

/// The state after one message that changes nothing else has been sent.
pub open spec fn after_reply(state: NodeState) -> NodeState {
    NodeState { next_id: (state.next_id + 1) as usize, ..state }
}

/// The pairs of value and neighbor for which an acknowledgment is
/// outstanding: the value is observed, and the neighbor has not
/// acknowledged it.
pub open spec fn owed(state: NodeState) -> Set<(usize, Seq<char>)> {
    Set::new(
        |pair: (usize, Seq<char>)|
            state.ledger.contains_key(pair.0) && state.neighbors.contains(pair.1)
                && !state.ledger[pair.0].contains(pair.1),
    )
}

/// The value an envelope gossips and the neighbor it goes to.
pub open spec fn target(envelope: Envelope) -> (usize, Seq<char>) {
    (
        match envelope.payload {
            Said::Gossip { message } => message,
            _ => 0,
        },
        envelope.dst,
    )
}

/// Whether `sent` is a retry round in `state`: gossips only, numbered in
/// order from the next identifier on, one for each outstanding
/// acknowledgment and no other.
pub open spec fn is_retry_round(sent: Seq<Envelope>, state: NodeState) -> bool {
    &&& forall|k: int|
        0 <= k < sent.len() ==> #[trigger] sent[k] == gossip(
            state.node_id,
            target(sent[k]).1,
            target(sent[k]).0,
            state.next_id + k,
        )
    &&& sent.map_values(|envelope: Envelope| target(envelope)).no_duplicates()
    &&& sent.map_values(|envelope: Envelope| target(envelope)).to_set() == owed(state)
}

/// The state after `count` messages that change nothing else were sent.
pub open spec fn after_sending(state: NodeState, count: nat) -> NodeState {
    NodeState { next_id: (state.next_id + count) as usize, ..state }
}

/// The addressing part of a received message.
pub open spec fn parts_of<P>(in_msg: InMessage<P>) -> PartialInMessage {
    PartialInMessage { src: in_msg.src, dst: in_msg.dst, msg_id: in_msg.body.msg_id }
}

/// The failure that changes nothing: `out` is the error `why` and the
/// state is as before.
pub open spec fn refused(
    pre: NodeState,
    post: NodeState,
    out: Outcome,
    why: NodeError,
) -> bool {
    out == Outcome::Err(why) && post == pre
}

/// What a sighting of `message` does, by client broadcast or peer gossip:
/// the sender is answered with `answer`, and a value that is new is
/// recorded and flooded. Where the identifiers do not cover that, the
/// sighting is refused.
pub open spec fn sighted(
    pre: NodeState,
    parts: PartialInMessage,
    answer: Said,
    message: usize,
    post: NodeState,
    out: Outcome,
) -> bool {
    if pre.next_id + sighting_cost(pre, message) <= usize::MAX {
        &&& out matches Ok(sent)
        &&& envelopes(sent@) == sighting_output(pre, parts, answer, message)
        &&& post == after_sighting(pre, message)
    } else {
        refused(pre, post, out, NodeError::IdsExhausted)
    }
}

/// What a read does: one `read_ok` that lists every observed value.
pub open spec fn read(
    pre: NodeState,
    parts: PartialInMessage,
    post: NodeState,
    out: Outcome,
) -> bool {
    if pre.next_id < usize::MAX {
        &&& out matches Ok(sent)
        &&& sent@.len() == 1
        &&& is_read_reply(sent@[0]@, pre, parts)
        &&& post == after_reply(pre)
    } else {
        refused(pre, post, out, NodeError::IdsExhausted)
    }
}

/// What a topology message does: the node takes its neighbor list from it
/// and answers `topology_ok`. A topology without this node is refused, and
/// so is one that the identifiers do not cover.
pub open spec fn configured(
    pre: NodeState,
    parts: PartialInMessage,
    topology: Seq<(String, Vec<String>)>,
    post: NodeState,
    out: Outcome,
) -> bool {
    if !lists(topology, pre.node_id) {
        refused(pre, post, out, NodeError::TopologyMissesSelf)
    } else if pre.next_id == usize::MAX {
        refused(pre, post, out, NodeError::IdsExhausted)
    } else {
        &&& out matches Ok(sent)
        &&& envelopes(sent@) == seq![reply(parts, Said::TopologyOk, pre.next_id)]
        &&& post == after_topology(pre, neighbors_in(topology, pre.node_id))
    }
}

/// What an acknowledgment does: the sender is recorded for the value if
/// the value is known; nothing is sent.
pub open spec fn acknowledged(
    pre: NodeState,
    parts: PartialInMessage,
    message: usize,
    post: NodeState,
    out: Outcome,
) -> bool {
    &&& out matches Ok(sent)
    &&& sent@.len() == 0
    &&& post == after_ack(pre, message, parts.src@)
}

/// What a retry round does: every outstanding acknowledgment is asked for
/// again by one gossip. Where the identifiers do not cover the round, it is
/// refused.
pub open spec fn retried(
    pre: NodeState,
    post: NodeState,
    out: Outcome,
) -> bool {
    if pre.next_id + owed(pre).len() <= usize::MAX {
        &&& out matches Ok(sent)
        &&& sent@.len() == owed(pre).len()
        &&& is_retry_round(envelopes(sent@), pre)
        &&& post == after_sending(pre, sent@.len())
    } else {
        refused(pre, post, out, NodeError::IdsExhausted)
    }
}

/// What handling `in_msg` does, by the kind of its payload.
pub open spec fn processed(
    pre: NodeState,
    in_msg: InMessage<InPayload>,
    post: NodeState,
    out: Outcome,
) -> bool {
    let parts = parts_of(in_msg);
    match in_msg.body.payload {
        InPayload::Broadcast { message } => sighted(
            pre,
            parts,
            Said::BroadcastOk,
            message,
            post,
            out,
        ),
        InPayload::Read => read(pre, parts, post, out),
        InPayload::Topology { topology } => configured(pre, parts, topology@, post, out),
        InPayload::Gossip { message } => sighted(
            pre,
            parts,
            Said::GossipOk { message },
            message,
            post,
            out,
        ),
        InPayload::GossipOk { message } => acknowledged(pre, parts, message, post, out),
    }
}

/// A node of the broadcast cluster.
pub struct BroadcastNode<W> {
    node_id: String,
    serializer: MessageSerializer<W>,
    ledger: Ledger,
    neighbors: Vec<String>,
    topology_known: bool,
}

impl<W> View for BroadcastNode<W> {
    type V = NodeState;

    closed spec fn view(&self) -> NodeState {
        NodeState {
            node_id: self.node_id@,
            next_id: self.serializer.next_id(),
            ledger: self.ledger@,
            neighbors: name_seq(self.neighbors@),
            topology_known: self.topology_known,
        }
    }
}

impl<W> BroadcastNode<W> {
    /// The stream of the serializer this node stamps with.
    pub closed spec fn writer(&self) -> W {
        self.serializer.stream()
    }

    /// Shared part of a client broadcast and a peer gossip: answer the
    /// sender, and flood the value if it is new here.
    fn handle_sighting(
        &mut self,
        parts: PartialInMessage,
        answer: OutPayload,
        message: usize,
    ) -> (out: Outcome)
        ensures
            final(self).writer() == old(self).writer(),
            sighted(old(self)@, parts, answer@, message, final(self)@, out),
    {
        let known = self.ledger.contains(message);
        let left = self.serializer.remaining();
        if left == 0 || (!known && left - 1 < self.neighbors.len()) {
            return Err(NodeError::IdsExhausted);
        }
        let mut first = parts.to_out_msg(answer);
        self.serializer.stamp(&mut first);
        let mut sent: Vec<OutMessage<OutPayload>> = Vec::new();
        sent.push(first);
        let fresh = self.ledger.observe(message);
        if fresh {
            let mut wave = gossip_to_neighbors(
                &self.node_id,
                &self.neighbors,
                message,
                &mut self.serializer,
            );
            let ghost head = sent@;
            let ghost tail = wave@;
            sent.append(&mut wave);
            assert(envelopes(sent@) =~= envelopes(head) + envelopes(tail));
        }
        assert(envelopes(sent@) =~= sighting_output(old(self)@, parts, answer@, message));
        Ok(sent)
    }

    /// A client asks to broadcast `message`: always answer `broadcast_ok`;
    /// if the value is new here, record it and gossip it to every neighbor.
    /// A repeated value is answered and nothing more. Fails, changing
    /// nothing, when the identifiers left do not cover the reply and the
    /// flood.
    pub fn handle_broadcast_msg(
        &mut self,
        partial_in_msg: PartialInMessage,
        message: usize,
    ) -> (out: Outcome)
        ensures
            final(self).writer() == old(self).writer(),
            sighted(old(self)@, partial_in_msg, Said::BroadcastOk, message, final(self)@, out),
    {
        self.handle_sighting(partial_in_msg, OutPayload::BroadcastOk, message)
    }

    /// A peer gossips `message`: always answer `gossip_ok` with the value,
    /// new or not; if it is new here, record it and gossip it to every
    /// neighbor, the sender included. Fails, changing nothing, when the
    /// identifiers left do not cover the reply and the flood.
    pub fn handle_gossip_msg(
        &mut self,
        partial_in_msg: PartialInMessage,
        message: usize,
    ) -> (out: Outcome)
        ensures
            final(self).writer() == old(self).writer(),
            sighted(
                old(self)@,
                partial_in_msg,
                Said::GossipOk { message },
                message,
                final(self)@,
                out,
            ),
    {
        self.handle_sighting(partial_in_msg, OutPayload::GossipOk { message }, message)
    }

    /// A peer acknowledges `message`: record the sender as an acknowledger
    /// of it. An acknowledgment of a value never observed here is dropped.
    /// Nothing is sent.
    pub fn handle_gossip_ok_msg(
        &mut self,
        partial_in_msg: PartialInMessage,
        message: usize,
    ) -> (out: Outcome)
        ensures
            final(self).writer() == old(self).writer(),
            acknowledged(old(self)@, partial_in_msg, message, final(self)@, out),
    {
        self.ledger.acknowledge(message, partial_in_msg.src);
        Ok(Vec::new())
    }

    /// A client reads: answer `read_ok` with every observed value. Fails,
    /// changing nothing, when no identifier is left.
    pub fn handle_read_msg(&mut self, partial_in_msg: PartialInMessage) -> (out: Outcome)
        ensures
            final(self).writer() == old(self).writer(),
            read(old(self)@, partial_in_msg, final(self)@, out),
    {
        if self.serializer.remaining() == 0 {
            return Err(NodeError::IdsExhausted);
        }
        let messages = self.ledger.all_values();
        let mut answer = partial_in_msg.to_out_msg(OutPayload::ReadOk { messages });
        self.serializer.stamp(&mut answer);
        let mut sent: Vec<OutMessage<OutPayload>> = Vec::new();
        sent.push(answer);
        Ok(sent)
    }

    /// The topology arrives: take this node's neighbor list from it and
    /// answer `topology_ok`. From now on retry rounds have neighbors to
    /// resend to. Fails, changing nothing, when the topology has no entry
    /// for this node, or else when no identifier is left.
    pub fn handle_topology_msg(
        &mut self,
        partial_in_msg: PartialInMessage,
        topology: Topology,
    ) -> (out: Outcome)
        ensures
            final(self).writer() == old(self).writer(),
            configured(old(self)@, partial_in_msg, topology@, final(self)@, out),
    {
        let neighbors = match find_neighbors(&topology, &self.node_id) {
            Some(list) => list,
            None => {
                return Err(NodeError::TopologyMissesSelf);
            },
        };
        if self.serializer.remaining() == 0 {
            return Err(NodeError::IdsExhausted);
        }
        self.neighbors = neighbors;
        self.topology_known = true;
        let mut answer = partial_in_msg.to_out_msg(OutPayload::TopologyOk);
        self.serializer.stamp(&mut answer);
        let mut sent: Vec<OutMessage<OutPayload>> = Vec::new();
        sent.push(answer);
        assert(envelopes(sent@) =~= seq![
            reply(partial_in_msg, Said::TopologyOk, old(self)@.next_id),
        ]);
        Ok(sent)
    }

    /// One round of the retry worker: gossip every observed value again to
    /// each neighbor that has not acknowledged it. A neighbor listed twice
    /// is sent to once. Fails, changing nothing, when the identifiers left
    /// do not cover the round.
    pub fn retry_round(&mut self) -> (out: Outcome)
        ensures
            final(self).writer() == old(self).writer(),
            owed(old(self)@).finite(),
            retried(old(self)@, final(self)@, out),
    {
        let retry = distinct_names(&self.neighbors);
        let snapshot = self.ledger.snapshot_missing_acks(&retry);
        let ghost state = self@;
        let ghost pairs = pairs_of(rows(snapshot@));
        proof {
            let table = rows(snapshot@);
            let keys = snapshot@.map_values(|entry: (usize, Vec<String>)| entry.0);
            lemma_distinct(state.neighbors);
            assert forall|e: int| 0 <= e < table.len() implies (#[trigger] table[e]).1.no_duplicates()
                && state.ledger.contains_key(table[e].0) && (forall|name: Seq<char>|
                table[e].1.contains(name) <==> state.neighbors.contains(name)
                    && !state.ledger[table[e].0].contains(name)) by {
                assert(keys[e] == snapshot@[e].0);
                assert(keys.to_set().contains(keys[e]));
                lemma_unacknowledged(name_seq(retry@), state.ledger[snapshot@[e].0]);
                assert forall|name: Seq<char>|
                    name_seq(retry@).contains(name) <==> state.neighbors.contains(name) by {
                    assert(name_seq(retry@).to_set().contains(name) <==> state.neighbors.to_set().contains(
                        name,
                    ));
                }
            }
            assert forall|a: int, b: int| 0 <= a < b < table.len() implies (#[trigger] table[a]).0 != (
            #[trigger] table[b]).0 by {
                assert(keys[a] != keys[b]);
            }
            lemma_pairs_distinct(table);
            assert forall|pair: (usize, Seq<char>)| pairs.to_set().contains(pair) <==> owed(
                state,
            ).contains(pair) by {
                lemma_pairs_contains(table, pair);
                if owed(state).contains(pair) {
                    assert(keys.to_set().contains(pair.0));
                    let e = choose|e: int| 0 <= e < keys.len() && keys[e] == pair.0;
                    assert(table[e].0 == pair.0);
                    assert(table[e].1.contains(pair.1));
                }
            }
            assert(pairs.to_set() =~= owed(state));
            pairs.unique_seq_to_set();
        }
        let left = self.serializer.remaining();
        if pending(&snapshot, left).is_none() {
            return Err(NodeError::IdsExhausted);
        }
        let sent = resend_missing(&self.node_id, &snapshot, &mut self.serializer);
        proof {
            let wave = envelopes(sent@);
            assert(wave == resend_wave(state.node_id, pairs, state.next_id as int));
            assert(wave.map_values(|envelope: Envelope| target(envelope)) =~= pairs);
        }
        Ok(sent)
    }

    /// This node's name.
    pub fn node_id(&self) -> (name: &String)
        ensures
            name@ == self@.node_id,
    {
        &self.node_id
    }

    /// The neighbors a new value is flooded to, as the topology listed
    /// them.
    pub fn neighbors(&self) -> (list: &Vec<String>)
        ensures
            name_seq(list@) == self@.neighbors,
    {
        &self.neighbors
    }

    /// The identifier the node's next outgoing message gets.
    pub fn msg_id(&self) -> (id: usize)
        ensures
            id == self@.next_id,
    {
        self.serializer.msg_id()
    }

    /// Whether the node has observed `value`.
    pub fn has_observed(&self, value: usize) -> (known: bool)
        ensures
            known == self@.ledger.contains_key(value),
    {
        self.ledger.contains(value)
    }

    /// Whether the topology has arrived, which is when the host starts the
    /// retry worker.
    pub fn topology_known(&self) -> (known: bool)
        ensures
            known == self@.topology_known,
    {
        self.topology_known
    }

    /// The serializer, for the host to write what the node handed back.
    pub fn serializer(&mut self) -> (serializer: &mut MessageSerializer<W>)
        ensures
            serializer.next_id() == old(self)@.next_id,
            serializer.stream() == old(self).writer(),
            final(self)@ == (NodeState { next_id: final(serializer).next_id(), ..old(self)@ }),
            final(self).writer() == final(serializer).stream(),
    {
        &mut self.serializer
    }
}

/// A value is flooded once: however a sighting of `message` found the
/// node, a further sighting finds the value known, sends the answer and
/// nothing else, and leaves the ledger as it is.
pub proof fn lemma_one_wave(
    state: NodeState,
    parts: PartialInMessage,
    answer: Said,
    message: usize,
)
    ensures
        after_sighting(state, message).ledger.contains_key(message),
        sighting_cost(after_sighting(state, message), message) == 1,
        sighting_output(after_sighting(state, message), parts, answer, message) == seq![
            reply(parts, answer, after_sighting(state, message).next_id),
        ],
        after_sighting(after_sighting(state, message), message).ledger == after_sighting(
            state,
            message,
        ).ledger,
{
}

/// Whatever a node is asked, its ledger forgets no value and no
/// acknowledger.
pub proof fn lemma_processed_grows(
    pre: NodeState,
    in_msg: InMessage<InPayload>,
    post: NodeState,
    out: Outcome,
)
    requires
        processed(pre, in_msg, post, out),
    ensures
        grows(pre.ledger, post.ledger),
        post.node_id == pre.node_id,
{
}

/// A retry round leaves the ledger, the name and the neighbors as they
/// are.
pub proof fn lemma_retried_keeps(
    pre: NodeState,
    post: NodeState,
    out: Outcome,
)
    requires
        retried(pre, post, out),
    ensures
        post.ledger == pre.ledger,
        post.node_id == pre.node_id,
        post.neighbors == pre.neighbors,
{
}

/// Messages whose envelopes carry their place as identifier are numbered.
proof fn lemma_numbered(sent: Seq<OutMessage<OutPayload>>, first: int)
    requires
        forall|k: int|
            0 <= k < sent.len() ==> (#[trigger] envelopes(sent)[k]).msg_id == Some(
                (first + k) as usize,
            ),
    ensures
        numbered(sent, first),
{
    assert forall|k: int| 0 <= k < sent.len() implies (#[trigger] sent[k]).body.msg_id == Some(
        (first + k) as usize,
    ) by {
        assert(envelopes(sent)[k] == sent[k]@);
    }
}

/// Whatever a node is asked, what it hands back is numbered from its next
/// identifier on without a gap, its counter moves past exactly those
/// identifiers, and a refusal leaves the counter alone.
pub proof fn lemma_processed_numbered(
    pre: NodeState,
    in_msg: InMessage<InPayload>,
    post: NodeState,
    out: Outcome,
)
    requires
        processed(pre, in_msg, post, out),
    ensures
        out matches Ok(sent) ==> numbered(sent@, pre.next_id as int) && post.next_id
            == pre.next_id + sent@.len(),
        out is Err ==> post.next_id == pre.next_id,
{
    if out is Ok {
        let sent = out->Ok_0@;
        assert(envelopes(sent).len() == sent.len());
        match in_msg.body.payload {
            InPayload::Read => {
                assert(envelopes(sent)[0] == sent[0]@);
            },
            _ => {},
        }
        lemma_numbered(sent, pre.next_id as int);
    }
}

/// A retry round is numbered from the node's next identifier on without a
/// gap, the counter moves past exactly those identifiers, and a refusal
/// leaves the counter alone.
pub proof fn lemma_retried_numbered(
    pre: NodeState,
    post: NodeState,
    out: Outcome,
)
    requires
        retried(pre, post, out),
    ensures
        out matches Ok(sent) ==> numbered(sent@, pre.next_id as int) && post.next_id
            == pre.next_id + sent@.len(),
        out is Err ==> post.next_id == pre.next_id,
{
    if out is Ok {
        let sent = out->Ok_0@;
        assert(envelopes(sent).len() == sent.len());
        lemma_numbered(sent, pre.next_id as int);
    }
}

impl<W> Node<W, InPayload> for BroadcastNode<W> {
    type Reply = OutPayload;

    open spec fn next_id(&self) -> usize {
        self@.next_id
    }

    open spec fn stream(&self) -> W {
        self.writer()
    }

    open spec fn created(&self, node_id: Seq<char>, node_ids: Seq<Seq<char>>) -> bool {
        self@ == initial(node_id, self@.next_id)
    }

    open spec fn handled(
        &self,
        in_msg: InMessage<InPayload>,
        after: &Self,
        out: Outcome,
    ) -> bool {
        processed(self@, in_msg, after@, out)
    }

    open spec fn ticked(&self, after: &Self, out: Outcome)
        -> bool {
        retried(self@, after@, out)
    }

    open spec fn ended(&self, released: Result<MessageSerializer<W>, NodeError>) -> bool {
        released is Ok
    }

    /// A node named `node_id` that has seen nothing and knows no neighbor.
    /// The list of all nodes is not used: neighbors come with the topology.
    fn new(node_id: String, node_ids: Vec<String>, serializer: MessageSerializer<W>) -> (node:
        Self) {
        let node = BroadcastNode {
            node_id,
            serializer,
            ledger: Ledger::new(),
            neighbors: Vec::new(),
            topology_known: false,
        };
        assert(name_seq(node.neighbors@) =~= Seq::<Seq<char>>::empty());
        node
    }

    /// Handles one message by the kind of its payload.
    fn process(&mut self, in_msg: InMessage<InPayload>) -> (out: Outcome) {
        let parts = DeconstructedInMessage::from(in_msg);
        let partial_in_msg = parts.partial_in_msg;
        let out = match parts.in_payload {
            InPayload::Broadcast { message } => self.handle_broadcast_msg(partial_in_msg, message),
            InPayload::Read => self.handle_read_msg(partial_in_msg),
            InPayload::Topology { topology } => self.handle_topology_msg(partial_in_msg, topology),
            InPayload::Gossip { message } => self.handle_gossip_msg(partial_in_msg, message),
            InPayload::GossipOk { message } => self.handle_gossip_ok_msg(partial_in_msg, message),
        };
        proof {
            assert(parts.partial_in_msg == parts_of(in_msg));
            lemma_processed_numbered(old(self)@, in_msg, self@, out);
        }
        out
    }

    /// One retry round.
    fn tick(&mut self) -> (out: Outcome) {
        let out = self.retry_round();
        proof {
            lemma_retried_numbered(old(self)@, self@, out);
        }
        out
    }

    /// Ends the node. The host cancels the retry worker and waits for it
    /// before it calls this.
    fn shutdown(self) -> (released: Result<MessageSerializer<W>, NodeError>) {
        Ok(self.serializer)
    }
}

} // verus!
