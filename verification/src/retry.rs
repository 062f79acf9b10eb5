//! One round of the retry worker: every observed value is gossiped again
//! to each neighbor that has not acknowledged it, and to no one else.

use crate::broadcast::{envelopes, gossip, Envelope, OutPayload};
use crate::ledger::name_seq;
use crate::message::{Body, OutMessage};
use crate::serializer::MessageSerializer;
use vstd::prelude::*;

verus! {

/// A snapshot of missing acknowledgments as plain values: each row is a
/// value and the neighbors that still owe an acknowledgment of it.
pub open spec fn rows(snapshot: Seq<(usize, Vec<String>)>) -> Seq<(usize, Seq<Seq<char>>)> {
    snapshot.map_values(|entry: (usize, Vec<String>)| (entry.0, name_seq(entry.1@)))
}

/// The pairs of value and neighbor that one row stands for, in order.
pub open spec fn row_pairs(row: (usize, Seq<Seq<char>>)) -> Seq<(usize, Seq<char>)> {
    row.1.map_values(|neighbor: Seq<char>| (row.0, neighbor))
}

/// The pairs of value and neighbor that the rows stand for, row by row.
pub open spec fn pairs_of(rows: Seq<(usize, Seq<Seq<char>>)>) -> Seq<(usize, Seq<char>)>
    decreases rows.len(),
{
    if rows.len() == 0 {
        Seq::empty()
    } else {
        pairs_of(rows.drop_last()) + row_pairs(rows.last())
    }
}

/// One gossip per pair, in order, numbered from `first_id` on.
pub open spec fn resend_wave(node_id: Seq<char>, pairs: Seq<(usize, Seq<char>)>, first_id: int)
    -> Seq<Envelope> {
    Seq::new(pairs.len(), |k: int| gossip(node_id, pairs[k].1, pairs[k].0, first_id + k))
}

/// Taking one more row adds that row's pairs at the end.
pub proof fn lemma_pairs_step(rows: Seq<(usize, Seq<Seq<char>>)>, i: int)
    requires
        0 <= i < rows.len(),
    ensures
        pairs_of(rows.take(i + 1)) == pairs_of(rows.take(i)) + row_pairs(rows[i]),
{
    assert(rows.take(i + 1).drop_last() =~= rows.take(i));
    assert(rows.take(i + 1).last() == rows[i]);
}

/// A pair is among those of the rows exactly when some row holds its value
/// and lists its neighbor.
pub proof fn lemma_pairs_contains(rows: Seq<(usize, Seq<Seq<char>>)>, pair: (usize, Seq<char>))
    ensures
        pairs_of(rows).contains(pair) <==> exists|e: int|
            0 <= e < rows.len() && (#[trigger] rows[e]).0 == pair.0 && rows[e].1.contains(pair.1),
    decreases rows.len(),
{
    if rows.len() > 0 {
        let front = rows.drop_last();
        let last = rows.last();
        lemma_pairs_contains(front, pair);
        let head = pairs_of(front);
        let tail = row_pairs(last);
        if pairs_of(rows).contains(pair) {
            let k = choose|k: int| 0 <= k < pairs_of(rows).len() && pairs_of(rows)[k] == pair;
            if k < head.len() {
                assert(head[k] == pair);
                let e = choose|e: int|
                    0 <= e < front.len() && (#[trigger] front[e]).0 == pair.0
                        && front[e].1.contains(pair.1);
                assert(rows[e] == front[e]);
            } else {
                assert(tail[k - head.len()] == pair);
                assert(last.1[k - head.len()] == pair.1);
                assert(rows[rows.len() - 1] == last);
            }
        }
        if exists|e: int|
            0 <= e < rows.len() && (#[trigger] rows[e]).0 == pair.0 && rows[e].1.contains(pair.1) {
            let e = choose|e: int|
                0 <= e < rows.len() && (#[trigger] rows[e]).0 == pair.0 && rows[e].1.contains(
                    pair.1,
                );
            if e < front.len() {
                assert(front[e] == rows[e]);
                assert(head.contains(pair));
                let k = choose|k: int| 0 <= k < head.len() && head[k] == pair;
                assert(pairs_of(rows)[k] == pair);
            } else {
                let j = choose|j: int| 0 <= j < last.1.len() && last.1[j] == pair.1;
                assert(tail[j] == pair);
                assert(pairs_of(rows)[head.len() + j] == pair);
            }
        }
    }
}

/// Rows with distinct values whose neighbor lists repeat nothing stand for
/// pairs that repeat nothing.
pub proof fn lemma_pairs_distinct(rows: Seq<(usize, Seq<Seq<char>>)>)
    requires
        forall|a: int, b: int|
            0 <= a < b < rows.len() ==> (#[trigger] rows[a]).0 != (#[trigger] rows[b]).0,
        forall|e: int| 0 <= e < rows.len() ==> (#[trigger] rows[e]).1.no_duplicates(),
    ensures
        pairs_of(rows).no_duplicates(),
    decreases rows.len(),
{
    if rows.len() > 0 {
        let front = rows.drop_last();
        let last = rows.last();
        assert forall|a: int, b: int| 0 <= a < b < front.len() implies (#[trigger] front[a]).0 != (
        #[trigger] front[b]).0 by {
            assert(front[a] == rows[a] && front[b] == rows[b]);
        }
        assert forall|e: int| 0 <= e < front.len() implies (#[trigger] front[e]).1.no_duplicates() by {
            assert(front[e] == rows[e]);
        }
        lemma_pairs_distinct(front);
        let head = pairs_of(front);
        let tail = row_pairs(last);
        let all = pairs_of(rows);
        assert forall|x: int, y: int| 0 <= x < y < all.len() implies all[x] != all[y] by {
            if y < head.len() {
                assert(all[x] == head[x] && all[y] == head[y]);
            } else if x >= head.len() {
                assert(all[x] == tail[x - head.len()] && all[y] == tail[y - head.len()]);
                assert(rows[rows.len() - 1] == last);
                assert(last.1[x - head.len()] != last.1[y - head.len()]);
            } else {
                assert(all[x] == head[x]);
                assert(all[y] == tail[y - head.len()]);
                if all[x] == all[y] {
                    assert(head.contains(all[y]));
                    lemma_pairs_contains(front, all[y]);
                    let e = choose|e: int|
                        0 <= e < front.len() && (#[trigger] front[e]).0 == all[y].0
                            && front[e].1.contains(all[y].1);
                    assert(rows[e] == front[e]);
                    assert(rows[rows.len() - 1] == last);
                    assert(rows[e].0 != rows[rows.len() - 1].0);
                }
            }
        }
    }
}

/// Counts the messages a round over `snapshot` sends, giving up with
/// `None` as soon as the count passes `limit`.
pub fn pending(snapshot: &Vec<(usize, Vec<String>)>, limit: usize) -> (count: Option<usize>)
    ensures
        count matches Some(n) ==> n == pairs_of(rows(snapshot@)).len() && n <= limit,
        count is None ==> pairs_of(rows(snapshot@)).len() > limit,
{
    let mut total: usize = 0;
    let mut i: usize = 0;
    assert(rows(snapshot@).take(0) =~= Seq::<(usize, Seq<Seq<char>>)>::empty());
    while i < snapshot.len()
        invariant
            i <= snapshot.len(),
            total == pairs_of(rows(snapshot@).take(i as int)).len(),
            total <= limit,
        decreases snapshot.len() - i,
    {
        let width = snapshot[i].1.len();
        proof {
            lemma_pairs_step(rows(snapshot@), i as int);
            lemma_pairs_grow(rows(snapshot@), i as int + 1);
        }
        if width > limit - total {
            return None;
        }
        total = total + width;
        i += 1;
    }
    assert(rows(snapshot@).take(i as int) =~= rows(snapshot@));
    Some(total)
}

/// The rows taken so far never stand for more pairs than all the rows do.
pub proof fn lemma_pairs_grow(rows: Seq<(usize, Seq<Seq<char>>)>, i: int)
    requires
        0 <= i <= rows.len(),
    ensures
        pairs_of(rows.take(i)).len() <= pairs_of(rows).len(),
    decreases rows.len() - i,
{
    if i < rows.len() {
        lemma_pairs_step(rows, i);
        lemma_pairs_grow(rows, i + 1);
    } else {
        assert(rows.take(i) =~= rows);
    }
}

/// Builds a round's messages from `snapshot`: for each row in turn, one
/// gossip of its value to each neighbor it lists, stamped with
/// `serializer`.
pub fn resend_missing<W>(
    node_id: &String,
    snapshot: &Vec<(usize, Vec<String>)>,
    serializer: &mut MessageSerializer<W>,
) -> (out: Vec<OutMessage<OutPayload>>)
    requires
        old(serializer).next_id() + pairs_of(rows(snapshot@)).len() <= usize::MAX,
    ensures
        envelopes(out@) == resend_wave(
            node_id@,
            pairs_of(rows(snapshot@)),
            old(serializer).next_id() as int,
        ),
        final(serializer).next_id() == old(serializer).next_id() + pairs_of(rows(snapshot@)).len(),
        final(serializer).stream() == old(serializer).stream(),
{
    let mut out: Vec<OutMessage<OutPayload>> = Vec::new();
    let ghost all = rows(snapshot@);
    let ghost first = old(serializer).next_id() as int;
    let mut i: usize = 0;
    assert(all.take(0) =~= Seq::<(usize, Seq<Seq<char>>)>::empty());
    assert(envelopes(out@) =~= resend_wave(node_id@, pairs_of(all.take(0)), first));
    while i < snapshot.len()
        invariant
            i <= snapshot.len(),
            all == rows(snapshot@),
            first == old(serializer).next_id(),
            first + pairs_of(all).len() <= usize::MAX,
            serializer.stream() == old(serializer).stream(),
            serializer.next_id() == first + pairs_of(all.take(i as int)).len(),
            envelopes(out@) == resend_wave(node_id@, pairs_of(all.take(i as int)), first),
        decreases snapshot.len() - i,
    {
        let message = snapshot[i].0;
        let ghost done = pairs_of(all.take(i as int));
        let ghost row = row_pairs(all[i as int]);
        proof {
            lemma_pairs_step(all, i as int);
            lemma_pairs_grow(all, i as int + 1);
            assert(done + row.take(0) =~= done);
        }
        let mut j: usize = 0;
        while j < snapshot[i].1.len()
            invariant
                i < snapshot.len(),
                j <= snapshot@[i as int].1@.len(),
                all == rows(snapshot@),
                message == snapshot@[i as int].0,
                done == pairs_of(all.take(i as int)),
                row == row_pairs(all[i as int]),
                first + done.len() + row.len() <= usize::MAX,
                serializer.stream() == old(serializer).stream(),
                serializer.next_id() == first + done.len() + j,
                envelopes(out@) == resend_wave(node_id@, done + row.take(j as int), first),
            decreases snapshot@[i as int].1@.len() - j,
        {
            let ghost before = out@;
            let mut msg = OutMessage {
                src: node_id.clone(),
                dst: snapshot[i].1[j].clone(),
                body: Body {
                    msg_id: None,
                    in_reply_to: None,
                    payload: OutPayload::Gossip { message },
                },
            };
            serializer.stamp(&mut msg);
            out.push(msg);
            proof {
                let sofar = done + row.take(j as int);
                let next = done + row.take(j + 1);
                assert(row[j as int] == (message, snapshot@[i as int].1@[j as int]@));
                assert(next =~= sofar.push(row[j as int]));
                assert(envelopes(out@) =~= envelopes(before).push(msg@));
                assert(envelopes(out@) =~= resend_wave(node_id@, next, first));
            }
            j += 1;
        }
        proof {
            assert(row.take(j as int) =~= row);
        }
        i += 1;
    }
    assert(all.take(i as int) =~= all);
    out
}

/// The time the retry worker sleeps before each round, in milliseconds.
pub const RETRY_INTERVAL_MS: u64 = 1;

/// What the retry worker finds when it looks at its cancellation channel.
#[derive(Clone, Copy, Debug, PartialEq, Eq, Structural)]
pub enum Signal {
    /// Nothing has been sent on the channel.
    Empty,
    /// The sending side is gone, and nothing was sent.
    Disconnected,
    /// The shutdown path has sent its signal.
    Cancelled,
}

/// What the retry worker does next.
#[derive(Clone, Copy, Debug, PartialEq, Eq, Structural)]
pub enum WorkerStep {
    /// Sleep for the interval, then do a round.
    Resend,
    /// Return; the shutdown path is waiting.
    Stop,
}

/// Decides, once per interval, whether the retry worker goes on. Only a
/// signal that was received stops it.
pub fn worker_step(signal: Signal) -> (next: WorkerStep)
    ensures
        next == (match signal {
            Signal::Cancelled => WorkerStep::Stop,
            _ => WorkerStep::Resend,
        }),
{
    match signal {
        Signal::Cancelled => WorkerStep::Stop,
        Signal::Empty => WorkerStep::Resend,
        Signal::Disconnected => WorkerStep::Resend,
    }
}

} // verus!
