//! The gossip broadcast engine.
//!
//! A node collects client-submitted values into a monotonically growing known
//! set, and disseminates them along a self-built tree: values owed to each
//! neighbor accumulate in a per-neighbor batch, a periodic flush turns each
//! non-empty batch into one batched gossip message and parks it in the
//! unacknowledged set, and a second, slower ticker re-emits everything still
//! unacknowledged. An acknowledgment withdraws exactly the matching entry.

use vstd::prelude::*;
use vstd::pervasive::VecAdditionalExecFns;
use crate::msg::{
    InnerBodyView, InnerMessageBody, Message, MessageBody, MessageBodyView, MessageView,
    ReadOkVariants, ReadOkView, strs_view,
};
use crate::node::{NodeCore, ProtocolError};
use crate::rpc::IdTable;
use crate::strnum::find_string;
use crate::topology::{FANOUT, compute_neighbors, neighbor_indices, parent_index};

verus! {

/// No value occurs twice.
pub open spec fn unique_u64s(s: Seq<u64>) -> bool {
    forall|i: int, j: int| 0 <= i < j < s.len() ==> s[i] != s[j]
}

/// View of the per-neighbor batches.
pub open spec fn batches_view(s: Seq<Vec<u64>>) -> Seq<Seq<u64>> {
    s.map_values(|b: Vec<u64>| b@)
}

/// Does every batch stand empty?
pub open spec fn all_batches_empty(s: Seq<Vec<u64>>) -> bool {
    forall|k: int| 0 <= k < s.len() ==> (#[trigger] s[k])@.len() == 0
}

/// View of the unacknowledged entries: id and message content.
pub open spec fn entries_view(s: Seq<(u64, Message)>) -> Seq<(u64, MessageView)> {
    s.map_values(|p: (u64, Message)| (p.0, p.1@))
}

/// The state of one gossiping node.
pub struct BroadcastNode {
    pub core: NodeCore,
    /// Values seen so far; grows monotonically, never shrinks.
    pub known: Vec<u64>,
    /// The node ids this node gossips to: parent and children in the tree.
    pub neighbors: Vec<String>,
    /// Values owed to each neighbor, aligned with `neighbors`.
    pub batches: Vec<Vec<u64>>,
    /// Gossip sent and not yet acknowledged, keyed by message id.
    pub unacked: IdTable<Message>,
}

impl BroadcastNode {
    /// The known set.
    pub open spec fn kset(self) -> Set<u64> {
        self.known@.to_set()
    }

    /// Internal consistency: one batch per neighbor, no duplicate known
    /// values, unambiguous unacknowledged entries whose ids were all
    /// allocated in the past.
    pub open spec fn wf(self) -> bool {
        &&& self.batches@.len() == self.neighbors@.len()
        &&& unique_u64s(self.known@)
        &&& self.unacked.wf()
        &&& forall|i: int|
            0 <= i < self.unacked.entries@.len() ==> (#[trigger] self.unacked.entries@[i]).0
                < self.core.gen.next
    }

    /// How one state may follow another: message ids only move forward, and
    /// an id absent from the unacknowledged set can only re-appear there if
    /// it was not yet allocated.
    pub open spec fn evolves(pre: BroadcastNode, post: BroadcastNode) -> bool {
        &&& pre.core.gen.next <= post.core.gen.next
        &&& forall|k: u64|
            #[trigger] post.unacked.as_map().dom().contains(k) ==> pre.unacked.as_map().dom().contains(
                k,
            ) || pre.core.gen.next <= k
    }

    /// A fresh node: nothing known, no neighbors, nothing pending.
    pub fn new() -> (r: BroadcastNode)
        ensures
            r.wf(),
            !r.core.initialized(),
            r.core.gen.next == 1,
            r.kset() =~= Set::<u64>::empty(),
            r.neighbors@.len() == 0,
            r.unacked.entries@.len() == 0,
    {
        let r = BroadcastNode {
            core: NodeCore::new(),
            known: Vec::new(),
            neighbors: Vec::new(),
            batches: Vec::new(),
            unacked: IdTable::new(),
        };
        proof {
            assert(r.known@.to_set() =~= Set::<u64>::empty());
        }
        r
    }

    /// Record a value if it is new. Answers whether it was new; the known
    /// set afterwards holds the value either way, and never loses one.
    fn insert_known(&mut self, value: u64) -> (fresh: bool)
        requires
            unique_u64s(old(self).known@),
        ensures
            fresh == !old(self).kset().contains(value),
            final(self).kset() == old(self).kset().insert(value),
            unique_u64s(final(self).known@),
            fresh ==> final(self).known@ == old(self).known@.push(value),
            !fresh ==> final(self).known == old(self).known,
            final(self).core == old(self).core,
            final(self).neighbors == old(self).neighbors,
            final(self).batches == old(self).batches,
            final(self).unacked == old(self).unacked,
    {
        let mut i: usize = 0;
        while i < self.known.len()
            invariant
                0 <= i <= self.known@.len(),
                forall|m: int| 0 <= m < i ==> self.known@[m] != value,
                self == old(self),
                unique_u64s(self.known@),
            decreases self.known@.len() - i,
        {
            if self.known[i] == value {
                proof {
                    assert(self.known@.contains(value));
                    assert(self.kset().insert(value) =~= self.kset());
                }
                return false;
            }
            i = i + 1;
        }
        proof {
            assert(!self.known@.contains(value));
        }
        self.known.push(value);
        proof {
            old(self).known@.lemma_push_to_set_commute(value);
        }
        true
    }

    /// Acknowledge: withdraw the entry whose id the reply names. A duplicate
    /// or late acknowledgment matches nothing and changes nothing.
    pub fn ack(&mut self, in_reply_to: u64)
        requires
            old(self).wf(),
        ensures
            final(self).wf(),
            !final(self).unacked.as_map().dom().contains(in_reply_to),
            final(self).unacked.as_map() == old(self).unacked.as_map().remove(in_reply_to),
            final(self).core == old(self).core,
            final(self).known == old(self).known,
            final(self).neighbors == old(self).neighbors,
            final(self).batches == old(self).batches,
            BroadcastNode::evolves(*old(self), *final(self)),
    {
        let r = self.unacked.resolve(in_reply_to);
        proof {
            if r is None {
                assert(old(self).unacked.as_map().remove(in_reply_to) =~= old(
                    self,
                ).unacked.as_map());
            }
            if exists|i: int|
                0 <= i < old(self).unacked.entries@.len() && old(self).unacked.entries@[i].0
                    == in_reply_to && self.unacked.entries@ == old(self).unacked.entries@.remove(i) {
                let i = choose|i: int|
                    0 <= i < old(self).unacked.entries@.len() && old(self).unacked.entries@[i].0
                        == in_reply_to && self.unacked.entries@ == old(self).unacked.entries@.remove(
                        i,
                    );
                assert(forall|m: int|
                    0 <= m < self.unacked.entries@.len() ==> (#[trigger] self.unacked.entries@[m])
                        == (if m < i {
                        old(self).unacked.entries@[m]
                    } else {
                        old(self).unacked.entries@[m + 1]
                    }));
            }
        }
    }

    /// Everything still owed an acknowledgment, for the retry ticker to
    /// re-emit verbatim: exactly the unacknowledged entries, no more and no
    /// less.
    pub fn retry_messages(&self) -> (r: &Vec<(u64, Message)>)
        ensures
            r@ == self.unacked.entries@,
    {
        &self.unacked.entries
    }

    /// Answer a read with a snapshot of every known value; no side effects.
    pub fn handle_read(&mut self, src: String, dst: String, req_id: Option<u64>) -> (r: Message)
        requires
            old(self).core.gen.next < u64::MAX,
        ensures
            r@.is_reply(
                dst@,
                src@,
                old(self).core.gen.next,
                req_id,
                (InnerBodyView::ReadOk(ReadOkView::Array { messages: old(self).known@ })),
            ),
            final(self).core.gen.next == old(self).core.gen.next + 1,
            final(self).core.id == old(self).core.id,
            final(self).core.nodes == old(self).core.nodes,
            final(self).known == old(self).known,
            final(self).neighbors == old(self).neighbors,
            final(self).batches == old(self).batches,
            final(self).unacked == old(self).unacked,
            BroadcastNode::evolves(*old(self), *final(self)),
    {
        let mut snapshot: Vec<u64> = Vec::new();
        let mut i: usize = 0;
        while i < self.known.len()
            invariant
                0 <= i <= self.known@.len(),
                snapshot@ == self.known@.subrange(0, i as int),
            decreases self.known@.len() - i,
        {
            snapshot.push(self.known[i]);
            proof {
                assert(self.known@.subrange(0, i + 1) =~= self.known@.subrange(0, i as int).push(
                    self.known@[i as int],
                ));
            }
            i = i + 1;
        }
        proof {
            assert(self.known@.subrange(0, self.known@.len() as int) =~= self.known@);
        }
        let id = self.core.gen.fresh();
        Message {
            src: dst,
            dst: src,
            body: MessageBody {
                id: Some(id),
                in_reply_to: req_id,
                inner: InnerMessageBody::ReadOk(ReadOkVariants::Array { messages: snapshot }),
            },
        }
    }

    /// Rebuild the tree neighbors from the sorted node list, ignoring the
    /// suggestion that came with the message, and start with empty batches.
    /// Refused when the node is uninitialized or its own id is not in the
    /// node list: no tree position exists then.
    pub fn handle_topology(&mut self, src: String, dst: String, req_id: Option<u64>) -> (r: Result<
        Message,
        ProtocolError,
    >)
        requires
            old(self).wf(),
            old(self).core.gen.next < u64::MAX,
        ensures
            final(self).wf(),
            BroadcastNode::evolves(*old(self), *final(self)),
            match r {
                Ok(reply) => {
                    &&& old(self).core.initialized()
                    &&& exists|me: int|
                        0 <= me < old(self).core.nodes@.len() && old(self).core.nodes@[me]@ == old(
                            self,
                        ).core.my_id() && (forall|k: int|
                            0 <= k < me ==> old(self).core.nodes@[k]@ != old(self).core.my_id())
                            && final(self).neighbors@.len() == neighbor_indices(
                            me,
                            FANOUT as int,
                            old(self).core.nodes@.len() as int,
                        ).len() && (forall|k: int|
                            0 <= k < final(self).neighbors@.len()
                                ==> (#[trigger] final(self).neighbors@[k])@ == old(
                                self,
                            ).core.nodes@[neighbor_indices(
                                me,
                                FANOUT as int,
                                old(self).core.nodes@.len() as int,
                            )[k]]@)
                    &&& final(self).neighbors@.len() <= FANOUT + 1
                    &&& final(self).batches@.len() == final(self).neighbors@.len()
                    &&& all_batches_empty(final(self).batches@)
                    &&& final(self).known == old(self).known
                    &&& final(self).unacked == old(self).unacked
                    &&& final(self).core.id == old(self).core.id
                    &&& final(self).core.nodes == old(self).core.nodes
                    &&& final(self).core.gen.next == old(self).core.gen.next + 1
                    &&& reply@.is_reply(
                        dst@,
                        src@,
                        old(self).core.gen.next,
                        req_id,
                        InnerBodyView::TopologyOk,
                    )
                },
                Err(e) => {
                    &&& e == ProtocolError::UnexpectedMessage
                    &&& (!old(self).core.initialized() || (forall|k: int|
                        0 <= k < old(self).core.nodes@.len() ==> (#[trigger] old(
                            self,
                        ).core.nodes@[k])@ != old(self).core.my_id()))
                    &&& *final(self) == *old(self)
                },
            },
    {
        let me_name = match &self.core.id {
            Some(s) => s.clone(),
            None => { return Err(ProtocolError::UnexpectedMessage); },
        };
        let me = match find_string(&self.core.nodes, &me_name) {
            Some(i) => i,
            None => { return Err(ProtocolError::UnexpectedMessage); },
        };
        let nbrs = compute_neighbors(&self.core.nodes, me, FANOUT);
        let mut batches: Vec<Vec<u64>> = Vec::new();
        let mut k: usize = 0;
        while k < nbrs.len()
            invariant
                0 <= k <= nbrs@.len(),
                batches@.len() == k,
                forall|m: int| 0 <= m < k ==> (#[trigger] batches@[m])@.len() == 0,
            decreases nbrs@.len() - k,
        {
            batches.push(Vec::new());
            k = k + 1;
        }
        self.neighbors = nbrs;
        self.batches = batches;
        let id = self.core.gen.fresh();
        Ok(Message {
            src: dst,
            dst: src,
            body: MessageBody {
                id: Some(id),
                in_reply_to: req_id,
                inner: InnerMessageBody::TopologyOk,
            },
        })
    }
}

/// Append `value` to the batch at `k`, leaving the others alone.
fn push_into_batch(batches: &mut Vec<Vec<u64>>, k: usize, value: u64)
    requires
        k < old(batches)@.len(),
    ensures
        final(batches)@.len() == old(batches)@.len(),
        final(batches)@[k as int]@ == old(batches)@[k as int]@.push(value),
        forall|m: int|
            0 <= m < old(batches)@.len() && m != k ==> final(batches)@[m] == old(batches)@[m],
{
    let mut tmp: Vec<u64> = Vec::new();
    batches.set_and_swap(k, &mut tmp);
    tmp.push(value);
    batches.set_and_swap(k, &mut tmp);
}

/// Among `values[i ..]`, the ones that are new relative to `known`, each
/// taken once, in order of first appearance.
pub open spec fn fresh_from(known: Set<u64>, values: Seq<u64>, i: int) -> Seq<u64>
    decreases values.len() - i,
{
    if i < 0 || i >= values.len() {
        Seq::empty()
    } else if known.contains(values[i]) {
        fresh_from(known, values, i + 1)
    } else {
        seq![values[i]] + fresh_from(known.insert(values[i]), values, i + 1)
    }
}

/// The values of a gossiped batch that are new relative to `known`.
pub open spec fn fresh_values(known: Set<u64>, values: Seq<u64>) -> Seq<u64> {
    fresh_from(known, values, 0)
}

/// Law (gossip is idempotent): a batch of values all known already carries
/// nothing new — the known set does not grow and nothing is owed to any
/// neighbor on its account.
pub proof fn lemma_known_values_add_nothing(known: Set<u64>, values: Seq<u64>)
    requires
        forall|i: int| 0 <= i < values.len() ==> known.contains(#[trigger] values[i]),
    ensures
        fresh_values(known, values).len() == 0,
        known.union(values.to_set()) == known,
{
    lemma_fresh_from_known(known, values, 0);
    assert(known.union(values.to_set()) =~= known);
}

proof fn lemma_fresh_from_known(known: Set<u64>, values: Seq<u64>, i: int)
    requires
        forall|m: int| 0 <= m < values.len() ==> known.contains(#[trigger] values[m]),
        0 <= i,
    ensures
        fresh_from(known, values, i).len() == 0,
    decreases values.len() - i,
{
    if i < values.len() {
        lemma_fresh_from_known(known, values, i + 1);
    }
}

/// Taking one more element collects at most that element into the set.
proof fn lemma_take_to_set_step(vs: Seq<u64>, i: int)
    requires
        0 <= i < vs.len(),
    ensures
        vs.take(i + 1).to_set() == vs.take(i).to_set().insert(vs[i]),
{
    assert forall|a: u64| vs.take(i + 1).to_set().contains(a) implies vs.take(i).to_set().insert(
        vs[i],
    ).contains(a) by {
        let idx = choose|idx: int| 0 <= idx < i + 1 && #[trigger] vs.take(i + 1)[idx] == a;
        if idx < i {
            assert(vs.take(i)[idx] == a);
        }
    }
    assert forall|a: u64| vs.take(i).to_set().insert(vs[i]).contains(a) implies vs.take(
        i + 1,
    ).to_set().contains(a) by {
        if a == vs[i] {
            assert(vs.take(i + 1)[i] == a);
        } else {
            let idx = choose|idx: int| 0 <= idx < i && #[trigger] vs.take(i)[idx] == a;
            assert(vs.take(i + 1)[idx] == a);
        }
    }
    assert(vs.take(i + 1).to_set() =~= vs.take(i).to_set().insert(vs[i]));
}

impl BroadcastNode {
    /// Take in a client-submitted value: record it, owe it to every
    /// neighbor (a client is no neighbor, so nothing is skipped), and
    /// acknowledge at once — dissemination is eventual, not synchronous.
    /// A value seen before changes nothing but is still acknowledged.
    pub fn handle_broadcast(&mut self, src: String, dst: String, req_id: Option<u64>, value: u64) -> (r:
        Message)
        requires
            old(self).wf(),
            old(self).core.gen.next < u64::MAX,
        ensures
            final(self).wf(),
            BroadcastNode::evolves(*old(self), *final(self)),
            final(self).kset() == old(self).kset().insert(value),
            final(self).batches@.len() == old(self).batches@.len(),
            !old(self).kset().contains(value) ==> forall|k: int|
                0 <= k < old(self).batches@.len() ==> (#[trigger] final(self).batches@[k])@ == old(
                    self,
                ).batches@[k]@.push(value),
            old(self).kset().contains(value) ==> final(self).batches == old(self).batches
                && final(self).known == old(self).known,
            final(self).neighbors == old(self).neighbors,
            final(self).unacked == old(self).unacked,
            final(self).core.id == old(self).core.id,
            final(self).core.nodes == old(self).core.nodes,
            final(self).core.gen.next == old(self).core.gen.next + 1,
            r@.is_reply(dst@, src@, old(self).core.gen.next, req_id, InnerBodyView::BroadcastOk),
    {
        let fresh = self.insert_known(value);
        if fresh {
            let ghost b0 = self.batches@;
            let mut k: usize = 0;
            while k < self.batches.len()
                invariant
                    0 <= k <= self.batches@.len(),
                    self.batches@.len() == b0.len(),
                    forall|m: int| 0 <= m < k ==> (#[trigger] self.batches@[m])@ == b0[m]@.push(value),
                    forall|m: int| k <= m < b0.len() ==> (#[trigger] self.batches@[m]) == b0[m],
                    self.core == old(self).core,
                    self.known@ == old(self).known@.push(value),
                    self.neighbors == old(self).neighbors,
                    self.unacked == old(self).unacked,
                    unique_u64s(self.known@),
                    self.kset() == old(self).kset().insert(value),
                decreases self.batches@.len() - k,
            {
                push_into_batch(&mut self.batches, k, value);
                k = k + 1;
            }
        }
        let id = self.core.gen.fresh();
        Message {
            src: dst,
            dst: src,
            body: MessageBody {
                id: Some(id),
                in_reply_to: req_id,
                inner: InnerMessageBody::BroadcastOk,
            },
        }
    }

    /// Take in a batch gossiped by the neighbor `src`: record each value not
    /// seen before and owe it onward to every other neighbor — never straight
    /// back to `src`. The whole batch is acknowledged unconditionally, new
    /// or not: the sender only needs to know it arrived.
    pub fn handle_batch_broadcast(
        &mut self,
        src: String,
        dst: String,
        req_id: Option<u64>,
        values: Vec<u64>,
    ) -> (r: Message)
        requires
            old(self).wf(),
            old(self).core.gen.next < u64::MAX,
        ensures
            final(self).wf(),
            BroadcastNode::evolves(*old(self), *final(self)),
            final(self).kset() == old(self).kset().union(values@.to_set()),
            final(self).batches@.len() == old(self).batches@.len(),
            forall|k: int|
                0 <= k < old(self).batches@.len() ==> (#[trigger] final(self).batches@[k])@ == (
                if old(self).neighbors@[k]@ == src@ {
                    old(self).batches@[k]@
                } else {
                    old(self).batches@[k]@ + fresh_values(old(self).kset(), values@)
                }),
            final(self).neighbors == old(self).neighbors,
            final(self).unacked == old(self).unacked,
            final(self).core.id == old(self).core.id,
            final(self).core.nodes == old(self).core.nodes,
            final(self).core.gen.next == old(self).core.gen.next + 1,
            r@.is_reply(dst@, src@, old(self).core.gen.next, req_id, InnerBodyView::BroadcastOk),
    {
        let ghost k0 = old(self).kset();
        let ghost vs = values@;
        let ghost mut appended: Seq<u64> = Seq::empty();
        proof {
            assert(vs.take(0).to_set() =~= Set::<u64>::empty());
            assert(k0.union(vs.take(0).to_set()) =~= k0);
            assert(Seq::<u64>::empty() + fresh_from(self.kset(), vs, 0) =~= fresh_from(
                self.kset(),
                vs,
                0,
            ));
        }
        let mut i: usize = 0;
        while i < values.len()
            invariant
                0 <= i <= vs.len(),
                values@ == vs,
                self.wf(),
                self.kset() == k0.union(vs.take(i as int).to_set()),
                fresh_values(k0, vs) == appended + fresh_from(self.kset(), vs, i as int),
                self.batches@.len() == old(self).batches@.len(),
                forall|k: int|
                    0 <= k < old(self).batches@.len() ==> (#[trigger] self.batches@[k])@ == (
                    if old(self).neighbors@[k]@ == src@ {
                        old(self).batches@[k]@
                    } else {
                        old(self).batches@[k]@ + appended
                    }),
                self.neighbors == old(self).neighbors,
                self.unacked == old(self).unacked,
                self.core == old(self).core,
                k0 == old(self).kset(),
            decreases vs.len() - i,
        {
            let v = values[i];
            let fresh = self.insert_known(v);
            proof {
                lemma_take_to_set_step(vs, i as int);
                if fresh {
                    assert(fresh_from(k0.union(vs.take(i as int).to_set()), vs, i as int)
                        == seq![v] + fresh_from(self.kset(), vs, i + 1));
                } else {
                    assert(k0.union(vs.take(i as int).to_set()).insert(v) =~= k0.union(
                        vs.take(i as int).to_set(),
                    ));
                }
                assert(self.kset() =~= k0.union(vs.take(i + 1).to_set()));
            }
            if fresh {
                let ghost b_in = self.batches@;
                let ghost app_in = appended;
                let ghost known_in = self.known@;
                let mut k: usize = 0;
                while k < self.batches.len()
                    invariant
                        0 <= k <= self.batches@.len(),
                        self.batches@.len() == b_in.len(),
                        self.neighbors@.len() == self.batches@.len(),
                        self.neighbors == old(self).neighbors,
                        forall|m: int|
                            0 <= m < k ==> (#[trigger] self.batches@[m])@ == (
                            if old(self).neighbors@[m]@ == src@ {
                                b_in[m]@
                            } else {
                                b_in[m]@.push(v)
                            }),
                        forall|m: int| k <= m < b_in.len() ==> (#[trigger] self.batches@[m]) == b_in[m],
                        self.core == old(self).core,
                        self.known@ == known_in,
                        unique_u64s(self.known@),
                        self.unacked == old(self).unacked,
                    decreases self.batches@.len() - k,
                {
                    if !self.neighbors[k].eq(&src) {
                        push_into_batch(&mut self.batches, k, v);
                    }
                    k = k + 1;
                }
                proof {
                    appended = appended.push(v);
                    assert(seq![v] + fresh_from(self.kset(), vs, i + 1) =~= Seq::<u64>::empty().push(
                        v,
                    ) + fresh_from(self.kset(), vs, i + 1));
                    assert(app_in + (seq![v] + fresh_from(self.kset(), vs, i + 1)) =~= appended
                        + fresh_from(self.kset(), vs, i + 1));
                    assert forall|m: int| 0 <= m < old(self).batches@.len() && old(self).neighbors@[m]@
                        != src@ implies (#[trigger] self.batches@[m])@ == old(self).batches@[m]@
                        + appended by {
                        assert(self.batches@[m]@ == b_in[m]@.push(v));
                        assert(b_in[m]@ == old(self).batches@[m]@ + app_in);
                        assert((old(self).batches@[m]@ + app_in).push(v) =~= old(self).batches@[m]@
                            + app_in.push(v));
                    }
                }
            }
            i = i + 1;
        }
        proof {
            assert(vs.take(vs.len() as int) =~= vs);
            assert(fresh_from(self.kset(), vs, vs.len() as int) =~= Seq::<u64>::empty());
            assert(appended + Seq::<u64>::empty() =~= appended);
            assert(fresh_values(k0, vs) == appended);
        }
        let id = self.core.gen.fresh();
        Message {
            src: dst,
            dst: src,
            body: MessageBody {
                id: Some(id),
                in_reply_to: req_id,
                inner: InnerMessageBody::BroadcastOk,
            },
        }
    }
}

/// The gossip message `me` sends `to`, carrying a whole batch.
pub open spec fn gossip_request(me: Seq<char>, to: Seq<char>, id: u64, values: Seq<u64>) -> MessageView {
    MessageView {
        src: me,
        dst: to,
        body: MessageBodyView {
            id: Some(id),
            in_reply_to: None,
            inner: InnerBodyView::BatchBroadcast { messages: values },
        },
    }
}

/// What one flush emits, walking the neighbors from `i` on with `id0` the
/// next free message id: one batched gossip message per non-empty batch,
/// with consecutive ids.
pub open spec fn flush_from(
    me: Seq<char>,
    nbrs: Seq<Seq<char>>,
    batches: Seq<Seq<u64>>,
    i: int,
    id0: int,
) -> Seq<(u64, MessageView)>
    decreases nbrs.len() - i,
{
    if i < 0 || i >= nbrs.len() || nbrs.len() != batches.len() {
        Seq::empty()
    } else if batches[i].len() == 0 {
        flush_from(me, nbrs, batches, i + 1, id0)
    } else {
        seq![((id0 as u64), gossip_request(me, nbrs[i], id0 as u64, batches[i]))] + flush_from(
            me,
            nbrs,
            batches,
            i + 1,
            id0 + 1,
        )
    }
}

impl BroadcastNode {
    /// Flush: coalesce everything owed to each neighbor into one gossip
    /// message per non-empty batch, park each in the unacknowledged set, and
    /// clear the batches. The new entries stand behind position `r`; the
    /// caller emits them once now, and the retry ticker takes over.
    pub fn flush(&mut self) -> (r: usize)
        requires
            old(self).wf(),
            old(self).core.gen.next + old(self).neighbors@.len() <= u64::MAX,
        ensures
            final(self).wf(),
            BroadcastNode::evolves(*old(self), *final(self)),
            r == old(self).unacked.entries@.len(),
            entries_view(final(self).unacked.entries@) == entries_view(old(self).unacked.entries@)
                + flush_from(
                old(self).core.my_id(),
                strs_view(old(self).neighbors@),
                batches_view(old(self).batches@),
                0,
                old(self).core.gen.next as int,
            ),
            final(self).batches@.len() == old(self).batches@.len(),
            all_batches_empty(final(self).batches@),
            final(self).known == old(self).known,
            final(self).neighbors == old(self).neighbors,
            final(self).core.id == old(self).core.id,
            final(self).core.nodes == old(self).core.nodes,
            final(self).core.gen.next == old(self).core.gen.next + flush_from(
                old(self).core.my_id(),
                strs_view(old(self).neighbors@),
                batches_view(old(self).batches@),
                0,
                old(self).core.gen.next as int,
            ).len(),
    {
        let r = self.unacked.entries.len();
        let me_name = match &self.core.id {
            Some(s) => s.clone(),
            None => String::new(),
        };
        let ghost me = old(self).core.my_id();
        let ghost nbrs = strs_view(old(self).neighbors@);
        let ghost bv0 = batches_view(old(self).batches@);
        let ghost id0 = old(self).core.gen.next as int;
        let ghost full = flush_from(me, nbrs, bv0, 0, id0);
        proof {
            lemma_flush_from_len(me, nbrs, bv0, 0, id0);
            assert(Seq::<(u64, MessageView)>::empty() + flush_from(me, nbrs, bv0, 0, id0)
                =~= flush_from(me, nbrs, bv0, 0, id0));
        }
        let mut k: usize = 0;
        while k < self.batches.len()
            invariant
                0 <= k <= self.batches@.len(),
                self.wf(),
                me_name@ == me,
                me == self.core.my_id(),
                self.core.id == old(self).core.id,
                self.core.nodes == old(self).core.nodes,
                self.known == old(self).known,
                self.neighbors == old(self).neighbors,
                nbrs == strs_view(self.neighbors@),
                self.batches@.len() == bv0.len(),
                bv0 == batches_view(old(self).batches@),
                r == old(self).unacked.entries@.len(),
                forall|m: int| 0 <= m < k ==> (#[trigger] self.batches@[m])@.len() == 0,
                forall|m: int| k <= m < bv0.len() ==> (#[trigger] self.batches@[m])@ == bv0[m],
                full == flush_from(me, nbrs, bv0, 0, id0),
                entries_view(self.unacked.entries@) == entries_view(old(self).unacked.entries@)
                    + full.take(full.len() - flush_from(me, nbrs, bv0, k as int, self.core.gen.next as int).len()),
                full =~= full.take(full.len() - flush_from(me, nbrs, bv0, k as int, self.core.gen.next as int).len())
                    + flush_from(me, nbrs, bv0, k as int, self.core.gen.next as int),
                self.core.gen.next as int + flush_from(me, nbrs, bv0, k as int, self.core.gen.next as int).len()
                    == id0 + full.len(),
                self.core.gen.next + (self.batches@.len() - k) <= u64::MAX,
                BroadcastNode::evolves(*old(self), *self),
            decreases self.batches@.len() - k,
        {
            let ghost rest_pre = flush_from(me, nbrs, bv0, k as int, self.core.gen.next as int);
            if self.batches[k].len() > 0 {
                let mut b: Vec<u64> = Vec::new();
                self.batches.set_and_swap(k, &mut b);
                let mid = self.core.gen.fresh();
                let nbr = self.neighbors[k].clone();
                let m = Message {
                    src: me_name.clone(),
                    dst: nbr,
                    body: MessageBody {
                        id: Some(mid),
                        in_reply_to: None,
                        inner: InnerMessageBody::BatchBroadcast { messages: b },
                    },
                };
                proof {
                    assert(m@ == gossip_request(me, nbrs[k as int], mid, bv0[k as int]));
                    assert(rest_pre == seq![(mid, m@)] + flush_from(me, nbrs, bv0, k + 1, mid as int + 1));
                    lemma_alist_keys_bounded(self.unacked.entries@, mid);
                }
                let ghost e_pre = self.unacked.entries@;
                self.unacked.register(mid, m);
                proof {
                    let rest_post = flush_from(me, nbrs, bv0, k + 1, self.core.gen.next as int);
                    let done_pre = full.take(full.len() - rest_pre.len());
                    let done_post = full.take(full.len() - rest_post.len());
                    assert(done_post =~= done_pre.push((mid, m@)));
                    assert(self.unacked.entries@ == e_pre.push((mid, m)));
                    assert(entries_view(e_pre.push((mid, m))) =~= entries_view(e_pre).push((mid, m@)));
                    assert(entries_view(old(self).unacked.entries@) + done_pre.push((mid, m@))
                        =~= (entries_view(old(self).unacked.entries@) + done_pre).push((mid, m@)));
                    assert(entries_view(self.unacked.entries@) =~= entries_view(old(self).unacked.entries@)
                        + done_post);
                }
            } else {
                proof {
                    assert(bv0[k as int].len() == 0);
                    assert(rest_pre == flush_from(me, nbrs, bv0, k + 1, self.core.gen.next as int));
                }
            }
            k = k + 1;
        }
        proof {
            assert(flush_from(me, nbrs, bv0, bv0.len() as int, self.core.gen.next as int)
                =~= Seq::<(u64, MessageView)>::empty());
            assert(full.take(full.len() as int) =~= full);
        }
        r
    }
}

/// Every key in an id table whose keys are bounded stays distinct from a
/// fresh id at the bound.
proof fn lemma_alist_keys_bounded(s: Seq<(u64, Message)>, id: u64)
    requires
        forall|i: int| 0 <= i < s.len() ==> (#[trigger] s[i]).0 < id,
    ensures
        !crate::rpc::alist_map(s).dom().contains(id),
{
    crate::rpc::lemma_alist_contains(s, id);
}

/// The number of messages one flush emits never exceeds the neighbor count.
proof fn lemma_flush_from_len(me: Seq<char>, nbrs: Seq<Seq<char>>, batches: Seq<Seq<u64>>, i: int, id0: int)
    requires
        0 <= i,
    ensures
        flush_from(me, nbrs, batches, i, id0).len() <= nbrs.len() - i || flush_from(
            me,
            nbrs,
            batches,
            i,
            id0,
        ).len() == 0,
    decreases nbrs.len() - i,
{
    if i < nbrs.len() && nbrs.len() == batches.len() {
        lemma_flush_from_len(me, nbrs, batches, i + 1, if batches[i].len() == 0 { id0 } else { id0 + 1 });
    }
}

/// Law (retry stops at acknowledgment): an id that is out of the
/// unacknowledged set and already allocated — as after its acknowledgment —
/// can never re-enter the set, however the node evolves; and the retry
/// ticker re-emits exactly the set's entries, so that id is never retried
/// again.
pub proof fn lemma_ack_stops_retry(pre: BroadcastNode, post: BroadcastNode, id: u64)
    requires
        !pre.unacked.as_map().dom().contains(id),
        id < pre.core.gen.next,
        BroadcastNode::evolves(pre, post),
    ensures
        !post.unacked.as_map().dom().contains(id),
        id < post.core.gen.next,
{
}


/// Law (one hop of dissemination): whatever one flush finds owed to the
/// neighbor at position `k` leaves in a single gossip message addressed to
/// that neighbor and carrying the whole batch — so a value a node owes its
/// neighbor is on the wire after the next flush, and by the contract of
/// `handle_batch_broadcast` it is in the receiver's known set as soon as
/// that message is taken in. Applied hop by hop along the tree, this carries
/// every value to every reachable node once no message is lost.
pub proof fn lemma_flush_carries_batch(
    me: Seq<char>,
    nbrs: Seq<Seq<char>>,
    batches: Seq<Seq<u64>>,
    i: int,
    id0: int,
    k: int,
)
    requires
        0 <= i <= k < nbrs.len(),
        nbrs.len() == batches.len(),
        batches[k].len() > 0,
    ensures
        exists|m: int|
            0 <= m < flush_from(me, nbrs, batches, i, id0).len()
                && (#[trigger] flush_from(me, nbrs, batches, i, id0)[m]).1 == gossip_request(
                me,
                nbrs[k],
                flush_from(me, nbrs, batches, i, id0)[m].0,
                batches[k],
            ),
    decreases k - i,
{
    let full = flush_from(me, nbrs, batches, i, id0);
    if i == k {
        assert(full[0].1 == gossip_request(me, nbrs[k], id0 as u64, batches[k]));
    } else if batches[i].len() == 0 {
        lemma_flush_carries_batch(me, nbrs, batches, i + 1, id0, k);
    } else {
        lemma_flush_carries_batch(me, nbrs, batches, i + 1, id0 + 1, k);
        let rest = flush_from(me, nbrs, batches, i + 1, id0 + 1);
        let m = choose|m: int|
            0 <= m < rest.len() && (#[trigger] rest[m]).1 == gossip_request(
                me,
                nbrs[k],
                rest[m].0,
                batches[k],
            );
        assert(full[m + 1] == rest[m]);
    }
}


/// Law (dissemination is complete at quiescence): each node gossips with its
/// parent and its children, so once everything owed has been flushed,
/// delivered, and acknowledged, a node's known set agrees with its parent's.
/// Since every node reaches the root by parent steps, all known sets are
/// then one and the same: a value broadcast anywhere is known everywhere.
pub proof fn lemma_quiescent_dissemination(knowns: Seq<Set<u64>>, f: int)
    requires
        1 <= knowns.len(),
        1 <= f,
        forall|c: int| 1 <= c < knowns.len() ==> #[trigger] knowns[c] == knowns[parent_index(c, f)],
    ensures
        forall|i: int| 0 <= i < knowns.len() ==> #[trigger] knowns[i] == knowns[0],
{
    assert forall|i: int| 0 <= i < knowns.len() implies #[trigger] knowns[i] == knowns[0] by {
        lemma_equal_up_the_tree(knowns, f, i);
    }
}

proof fn lemma_equal_up_the_tree(knowns: Seq<Set<u64>>, f: int, c: int)
    requires
        1 <= f,
        0 <= c < knowns.len(),
        forall|d: int| 1 <= d < knowns.len() ==> #[trigger] knowns[d] == knowns[parent_index(d, f)],
    ensures
        knowns[c] == knowns[0],
    decreases c,
{
    if c > 0 {
        let p = parent_index(c, f);
        vstd::arithmetic::div_mod::lemma_fundamental_div_mod(c - 1, f);
        vstd::arithmetic::div_mod::lemma_mod_bound(c - 1, f);
        assert(f * p <= c - 1);
        assert(p <= f * p) by (nonlinear_arith)
            requires 0 <= p && 1 <= f;
        lemma_equal_up_the_tree(knowns, f, p);
    }
}

} // verus!
