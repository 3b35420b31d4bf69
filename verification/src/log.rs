//! The partitioned append-only log.
//!
//! Each key owns an ordered sequence of entries whose offsets are contiguous
//! and count up from zero, a next free offset, and a committed offset that
//! clients advertise — last write wins, nothing is derived from the entries.
//! Polls page their answers to a fixed maximum of entries per key; keys this
//! node has never seen are omitted from every answer, never an error.

use vstd::prelude::*;
use crate::msg::{InnerBodyView, InnerMessageBody, Message, MessageBody, kventries_view, kvu_view, strs_view};
use crate::node::{NodeCore, ProtocolError};

verus! {

/// The most entries one poll hands back per key.
pub const PAGE: usize = 20;

/// One key's log.
pub struct Log {
    pub next_offset: u64,
    pub committed: u64,
    pub messages: Vec<(u64, u64)>,
}

impl Log {
    /// Offsets are contiguous from zero: the entry at position `k` carries
    /// offset `k`, and the next free offset is the length.
    pub open spec fn wf(self) -> bool {
        &&& self.next_offset == self.messages@.len()
        &&& forall|k: int| 0 <= k < self.messages@.len() ==> (#[trigger] self.messages@[k]).0 == k
    }
}

/// The log a key maps to, by first match; the table never holds a key twice.
pub open spec fn lookup(logs: Seq<(String, Log)>, key: Seq<char>) -> Option<Log>
    decreases logs.len(),
{
    if logs.len() == 0 {
        None
    } else if logs[0].0@ == key {
        Some(logs[0].1)
    } else {
        lookup(logs.drop_first(), key)
    }
}

/// A key maps to nothing exactly when no entry carries it.
pub proof fn lemma_lookup_none(logs: Seq<(String, Log)>, key: Seq<char>)
    ensures
        lookup(logs, key) is None <==> forall|i: int|
            0 <= i < logs.len() ==> (#[trigger] logs[i]).0@ != key,
    decreases logs.len(),
{
    if logs.len() > 0 {
        lemma_lookup_none(logs.drop_first(), key);
        if logs[0].0@ != key {
            assert(forall|i: int|
                1 <= i < logs.len() ==> logs.drop_first()[i - 1] == (#[trigger] logs[i]));
        }
    }
}

/// Appending a pair with a key not yet present binds that key and no other.
pub proof fn lemma_lookup_push(logs: Seq<(String, Log)>, p: (String, Log), key: Seq<char>)
    requires
        lookup(logs, p.0@) is None,
    ensures
        lookup(logs.push(p), key) == (if key == p.0@ {
            Some(p.1)
        } else {
            lookup(logs, key)
        }),
    decreases logs.len(),
{
    if logs.len() == 0 {
        assert(logs.push(p)[0] == p);
        assert(logs.push(p).drop_first() =~= Seq::<(String, Log)>::empty());
        assert(logs.push(p).len() == 1);
        if key == p.0@ {
            assert(lookup(logs.push(p), key) == Some(p.1));
        } else {
            assert(lookup(logs.push(p), key) == lookup(Seq::<(String, Log)>::empty(), key));
            assert(lookup(logs.push(p), key) is None);
        }
    } else {
        assert(logs.push(p)[0] == logs[0]);
        assert(logs.push(p).drop_first() =~= logs.drop_first().push(p));
        lemma_lookup_push(logs.drop_first(), p, key);
        if logs[0].0@ == key {
            assert(lookup(logs.push(p), key) == Some(logs[0].1));
        } else {
            assert(lookup(logs.push(p), key) == lookup(logs.drop_first().push(p), key));
        }
    }
}

/// Replacing the first entry that carries a key rebinds that key and no
/// other.
pub proof fn lemma_lookup_update(logs: Seq<(String, Log)>, i: int, p: (String, Log), key: Seq<char>)
    requires
        0 <= i < logs.len(),
        forall|m: int| 0 <= m < i ==> (#[trigger] logs[m]).0@ != logs[i].0@,
        p.0@ == logs[i].0@,
    ensures
        lookup(logs.update(i, p), key) == (if key == logs[i].0@ {
            Some(p.1)
        } else {
            lookup(logs, key)
        }),
    decreases i,
{
    if i == 0 {
        assert(logs.update(0, p)[0] == p);
        assert(logs.update(0, p).drop_first() =~= logs.drop_first());
    } else {
        assert(logs.update(i, p)[0] == logs[0]);
        assert(logs.update(i, p).drop_first() =~= logs.drop_first().update(i - 1, p));
        assert(forall|m: int|
            0 <= m < i - 1 ==> logs.drop_first()[m] == (#[trigger] logs[m + 1]));
        lemma_lookup_update(logs.drop_first(), i - 1, p, key);
    }
}

/// The slice of a log one poll answers for a requested offset: everything
/// from that offset on, cut to the page size.
pub open spec fn page_of(entries: Seq<(u64, u64)>, o: u64) -> Seq<(u64, u64)> {
    let len = entries.len() as int;
    let lo = if (o as int) < len {
        o as int
    } else {
        len
    };
    let hi = if lo + (PAGE as int) < len {
        lo + (PAGE as int)
    } else {
        len
    };
    entries.subrange(lo, hi)
}

/// What a poll answers, walking the requested offsets from position `j`:
/// one entry per requested key this node has a log for, in request order,
/// each with its page; unknown keys are omitted.
pub open spec fn poll_from(
    logs: Seq<(String, Log)>,
    offsets: Seq<(Seq<char>, u64)>,
    j: int,
) -> Seq<(Seq<char>, Seq<(u64, u64)>)>
    decreases offsets.len() - j,
{
    if j < 0 || j >= offsets.len() {
        Seq::empty()
    } else {
        let rest = poll_from(logs, offsets, j + 1);
        match lookup(logs, offsets[j].0) {
            Some(log) => seq![(offsets[j].0, page_of(log.messages@, offsets[j].1))] + rest,
            None => rest,
        }
    }
}

/// What a committed-offsets listing answers, walking the requested keys from
/// position `j`: each known key with its committed offset; unknown keys are
/// omitted.
pub open spec fn list_from(logs: Seq<(String, Log)>, keys: Seq<Seq<char>>, j: int) -> Seq<
    (Seq<char>, u64),
>
    decreases keys.len() - j,
{
    if j < 0 || j >= keys.len() {
        Seq::empty()
    } else {
        let rest = list_from(logs, keys, j + 1);
        match lookup(logs, keys[j]) {
            Some(log) => seq![(keys[j], log.committed)] + rest,
            None => rest,
        }
    }
}

/// The offset a commit leaves a key at: the last one named for it wins.
pub open spec fn last_commit(offsets: Seq<(Seq<char>, u64)>, key: Seq<char>) -> Option<u64>
    decreases offsets.len(),
{
    if offsets.len() == 0 {
        None
    } else if offsets.last().0 == key {
        Some(offsets.last().1)
    } else {
        last_commit(offsets.drop_last(), key)
    }
}

/// The state of one log node.
pub struct LogNode {
    pub core: NodeCore,
    pub logs: Vec<(String, Log)>,
}

impl LogNode {
    /// Internal consistency: no key twice, every log well formed.
    pub open spec fn wf(self) -> bool {
        &&& forall|i: int, j: int|
            0 <= i < j < self.logs@.len() ==> (#[trigger] self.logs@[i]).0@ != (
            #[trigger] self.logs@[j]).0@
        &&& forall|i: int| 0 <= i < self.logs@.len() ==> (#[trigger] self.logs@[i]).1.wf()
    }

    /// A fresh, uninitialized log node.
    pub fn new() -> (r: LogNode)
        ensures
            r.wf(),
            !r.core.initialized(),
            r.core.gen.next == 1,
            r.logs@.len() == 0,
    {
        LogNode { core: NodeCore::new(), logs: Vec::new() }
    }

    /// The position of the log for `key`, if one exists.
    fn find_key(&self, key: &String) -> (r: Option<usize>)
        ensures
            match r {
                Some(i) => {
                    &&& i < self.logs@.len()
                    &&& self.logs@[i as int].0@ == key@
                    &&& forall|m: int| 0 <= m < i ==> (#[trigger] self.logs@[m]).0@ != key@
                    &&& lookup(self.logs@, key@) == Some(self.logs@[i as int].1)
                },
                None => lookup(self.logs@, key@) is None,
            },
    {
        proof {
            assert(self.logs@.skip(0) =~= self.logs@);
        }
        let mut i: usize = 0;
        while i < self.logs.len()
            invariant
                0 <= i <= self.logs@.len(),
                forall|m: int| 0 <= m < i ==> (#[trigger] self.logs@[m]).0@ != key@,
                lookup(self.logs@, key@) == lookup(self.logs@.skip(i as int), key@),
            decreases self.logs@.len() - i,
        {
            if self.logs[i].0.eq(key) {
                proof {
                    assert(self.logs@.skip(i as int)[0] == self.logs@[i as int]);
                }
                return Some(i);
            }
            proof {
                assert(self.logs@.skip(i as int)[0] == self.logs@[i as int]);
                assert(self.logs@.skip(i as int).drop_first() =~= self.logs@.skip(i + 1));
            }
            i = i + 1;
        }
        proof {
            assert(self.logs@.skip(self.logs@.len() as int) =~= Seq::<(String, Log)>::empty());
        }
        None
    }

    /// Append a value under a key: it lands at the key's next free offset,
    /// which the acknowledgment names. A key never seen before starts its
    /// log at offset zero. Fails only on offset exhaustion.
    pub fn handle_send(
        &mut self,
        src: String,
        dst: String,
        req_id: Option<u64>,
        key: String,
        value: u64,
    ) -> (r: Result<Message, ProtocolError>)
        requires
            old(self).wf(),
            old(self).core.initialized(),
            old(self).core.gen.next < u64::MAX,
        ensures
            final(self).wf(),
            final(self).core.id == old(self).core.id,
            final(self).core.nodes == old(self).core.nodes,
            match r {
                Ok(reply) => {
                    let assigned = match lookup(old(self).logs@, key@) {
                        Some(log) => log.next_offset,
                        None => 0,
                    };
                    &&& final(self).core.gen.next == old(self).core.gen.next + 1
                    &&& reply@.is_reply(
                        old(self).core.my_id(),
                        src@,
                        old(self).core.gen.next,
                        req_id,
                        (InnerBodyView::SendOk { offset: assigned }),
                    )
                    &&& match lookup(final(self).logs@, key@) {
                        Some(log2) => {
                            &&& log2.messages@ == (match lookup(old(self).logs@, key@) {
                                Some(log) => log.messages@,
                                None => Seq::<(u64, u64)>::empty(),
                            }).push((assigned, value))
                            &&& log2.next_offset == assigned + 1
                            &&& log2.committed == (match lookup(old(self).logs@, key@) {
                                Some(log) => log.committed,
                                None => 0,
                            })
                        },
                        None => false,
                    }
                    &&& forall|k2: Seq<char>|
                        k2 != key@ ==> #[trigger] lookup(final(self).logs@, k2) == lookup(
                            old(self).logs@,
                            k2,
                        )
                },
                Err(e) => {
                    &&& e == ProtocolError::StoreFault
                    &&& match lookup(old(self).logs@, key@) {
                        Some(log) => log.next_offset == u64::MAX,
                        None => false,
                    }
                    &&& final(self).core == old(self).core
                    &&& final(self).logs@ == old(self).logs@
                },
            },
    {
        let offset: u64;
        match self.find_key(&key) {
            Some(i) => {
                let ghost pre = self.logs@;
                let mut tmp: (String, Log) = (
                    String::new(),
                    Log { next_offset: 0, committed: 0, messages: Vec::new() },
                );
                self.logs.set_and_swap(i, &mut tmp);
                if tmp.1.next_offset == u64::MAX {
                    self.logs.set_and_swap(i, &mut tmp);
                    proof {
                        assert(self.logs@ =~= pre);
                    }
                    return Err(ProtocolError::StoreFault);
                }
                offset = tmp.1.next_offset;
                tmp.1.messages.push((offset, value));
                tmp.1.next_offset = offset + 1;
                self.logs.set_and_swap(i, &mut tmp);
                proof {
                    assert(self.logs@ =~= pre.update(i as int, self.logs@[i as int]));
                    lemma_lookup_update(pre, i as int, self.logs@[i as int], key@);
                    assert forall|k2: Seq<char>| k2 != key@ implies #[trigger] lookup(
                        self.logs@,
                        k2,
                    ) == lookup(pre, k2) by {
                        lemma_lookup_update(pre, i as int, self.logs@[i as int], k2);
                    }
                }
            },
            None => {
                offset = 0;
                let mut log = Log { next_offset: 1, committed: 0, messages: Vec::new() };
                log.messages.push((0, value));
                let ghost pre = self.logs@;
                let ghost kview = key@;
                proof {
                    lemma_lookup_none(pre, kview);
                }
                let entry = (key, log);
                proof {
                    lemma_lookup_push(pre, entry, kview);
                }
                self.logs.push(entry);
                proof {
                    assert forall|k2: Seq<char>| k2 != entry.0@ implies #[trigger] lookup(
                        self.logs@,
                        k2,
                    ) == lookup(pre, k2) by {
                        lemma_lookup_push(pre, entry, k2);
                    }
                }
            },
        }
        let id = self.core.gen.fresh();
        let me = match &self.core.id {
            Some(s) => s.clone(),
            None => String::new(),
        };
        Ok(Message {
            src: me,
            dst: src,
            body: MessageBody {
                id: Some(id),
                in_reply_to: req_id,
                inner: InnerMessageBody::SendOk { offset },
            },
        })
    }

    /// Answer a poll: for each requested key this node has a log for, the
    /// entries from the requested offset on, at most a page of them, in
    /// request order; keys never seen are omitted. No side effects.
    pub fn handle_poll(
        &mut self,
        src: String,
        dst: String,
        req_id: Option<u64>,
        offsets: Vec<(String, u64)>,
    ) -> (r: Message)
        requires
            old(self).wf(),
            old(self).core.initialized(),
            old(self).core.gen.next < u64::MAX,
        ensures
            final(self).wf(),
            final(self).core.id == old(self).core.id,
            final(self).core.nodes == old(self).core.nodes,
            final(self).core.gen.next == old(self).core.gen.next + 1,
            final(self).logs == old(self).logs,
            r@.is_reply(
                old(self).core.my_id(),
                src@,
                old(self).core.gen.next,
                req_id,
                (InnerBodyView::PollOk {
                    msgs: poll_from(old(self).logs@, kvu_view(offsets@), 0),
                }),
            ),
    {
        let ghost ov = kvu_view(offsets@);
        let ghost full = poll_from(self.logs@, ov, 0);
        let mut results: Vec<(String, Vec<(u64, u64)>)> = Vec::new();
        proof {
            assert(kventries_view(results@) =~= Seq::<(Seq<char>, Seq<(u64, u64)>)>::empty());
            assert(Seq::<(Seq<char>, Seq<(u64, u64)>)>::empty() + full =~= full);
        }
        let mut j: usize = 0;
        while j < offsets.len()
            invariant
                0 <= j <= offsets@.len(),
                ov == kvu_view(offsets@),
                full == poll_from(self.logs@, ov, 0),
                self == old(self),
                self.wf(),
                full =~= kventries_view(results@) + poll_from(self.logs@, ov, j as int),
            decreases offsets@.len() - j,
        {
            let ghost rest_pre = poll_from(self.logs@, ov, j as int);
            match self.find_key(&offsets[j].0) {
                Some(i) => {
                    let want = offsets[j].1;
                    let len = self.logs[i].1.messages.len();
                    let lo: usize = if want < len as u64 {
                        want as usize
                    } else {
                        len
                    };
                    let hi: usize = if len - lo > PAGE {
                        lo + PAGE
                    } else {
                        len
                    };
                    let mut page: Vec<(u64, u64)> = Vec::new();
                    let mut idx = lo;
                    proof {
                        assert(page@ =~= self.logs@[i as int].1.messages@.subrange(
                            lo as int,
                            lo as int,
                        ));
                    }
                    while idx < hi
                        invariant
                            lo <= idx <= hi,
                            hi <= self.logs@[i as int].1.messages@.len(),
                            i < self.logs@.len(),
                            self == old(self),
                            page@ == self.logs@[i as int].1.messages@.subrange(
                                lo as int,
                                idx as int,
                            ),
                        decreases hi - idx,
                    {
                        let e = self.logs[i].1.messages[idx];
                        page.push(e);
                        proof {
                            assert(self.logs@[i as int].1.messages@.subrange(lo as int, idx + 1)
                                =~= self.logs@[i as int].1.messages@.subrange(
                                lo as int,
                                idx as int,
                            ).push(e));
                        }
                        idx = idx + 1;
                    }
                    proof {
                        assert(page@ =~= page_of(self.logs@[i as int].1.messages@, want));
                        assert(rest_pre == seq![(ov[j as int].0, page_of(
                            self.logs@[i as int].1.messages@,
                            want,
                        ))] + poll_from(self.logs@, ov, j + 1));
                    }
                    let keycopy = offsets[j].0.clone();
                    let ghost done_pre = kventries_view(results@);
                    results.push((keycopy, page));
                    proof {
                        assert(kventries_view(results@) =~= done_pre.push(
                            (ov[j as int].0, page_of(self.logs@[i as int].1.messages@, want)),
                        ));
                        assert(done_pre.push((ov[j as int].0, page_of(
                            self.logs@[i as int].1.messages@,
                            want,
                        ))) + poll_from(self.logs@, ov, j + 1) =~= done_pre + rest_pre);
                    }
                },
                None => {
                    proof {
                        assert(rest_pre == poll_from(self.logs@, ov, j + 1));
                    }
                },
            }
            j = j + 1;
        }
        proof {
            assert(poll_from(self.logs@, ov, offsets@.len() as int)
                =~= Seq::<(Seq<char>, Seq<(u64, u64)>)>::empty());
            assert(kventries_view(results@) + poll_from(self.logs@, ov, offsets@.len() as int)
                =~= kventries_view(results@));
        }
        let id = self.core.gen.fresh();
        let me = match &self.core.id {
            Some(s) => s.clone(),
            None => String::new(),
        };
        Message {
            src: me,
            dst: src,
            body: MessageBody {
                id: Some(id),
                in_reply_to: req_id,
                inner: InnerMessageBody::PollOk { msgs: results },
            },
        }
    }

    /// Record the clients' committed offsets: for each named key this node
    /// has a log for, the committed offset becomes the supplied value — the
    /// last write for a key wins, with no monotonicity check. Unknown keys
    /// are ignored. Always acknowledged.
    pub fn handle_commit_offsets(
        &mut self,
        src: String,
        dst: String,
        req_id: Option<u64>,
        offsets: Vec<(String, u64)>,
    ) -> (r: Message)
        requires
            old(self).wf(),
            old(self).core.initialized(),
            old(self).core.gen.next < u64::MAX,
        ensures
            final(self).wf(),
            final(self).core.id == old(self).core.id,
            final(self).core.nodes == old(self).core.nodes,
            final(self).core.gen.next == old(self).core.gen.next + 1,
            forall|k: Seq<char>|
                #[trigger] lookup(final(self).logs@, k) == (match lookup(old(self).logs@, k) {
                    Some(log) => Some(Log {
                        next_offset: log.next_offset,
                        committed: (match last_commit(kvu_view(offsets@), k) {
                            Some(o) => o,
                            None => log.committed,
                        }),
                        messages: log.messages,
                    }),
                    None => None::<Log>,
                }),
            r@.is_reply(
                old(self).core.my_id(),
                src@,
                old(self).core.gen.next,
                req_id,
                InnerBodyView::CommitOffsetsOk,
            ),
    {
        let ghost ov = kvu_view(offsets@);
        proof {
            assert(ov.take(0) =~= Seq::<(Seq<char>, u64)>::empty());
        }
        let mut j: usize = 0;
        while j < offsets.len()
            invariant
                0 <= j <= offsets@.len(),
                ov == kvu_view(offsets@),
                self.wf(),
                self.core == old(self).core,
                forall|k: Seq<char>|
                    #[trigger] lookup(self.logs@, k) == (match lookup(old(self).logs@, k) {
                        Some(log) => Some(Log {
                            next_offset: log.next_offset,
                            committed: (match last_commit(ov.take(j as int), k) {
                                Some(o) => o,
                                None => log.committed,
                            }),
                            messages: log.messages,
                        }),
                        None => None::<Log>,
                    }),
            decreases offsets@.len() - j,
        {
            proof {
                assert(ov.take(j + 1).drop_last() =~= ov.take(j as int));
                assert(ov.take(j + 1).last() == ov[j as int]);
            }
            let ghost pre = self.logs@;
            match self.find_key(&offsets[j].0) {
                Some(i) => {
                    let mut tmp: (String, Log) = (
                        String::new(),
                        Log { next_offset: 0, committed: 0, messages: Vec::new() },
                    );
                    self.logs.set_and_swap(i, &mut tmp);
                    tmp.1.committed = offsets[j].1;
                    self.logs.set_and_swap(i, &mut tmp);
                    proof {
                        assert(self.logs@ =~= pre.update(i as int, self.logs@[i as int]));
                        assert forall|k: Seq<char>| true implies #[trigger] lookup(self.logs@, k)
                            == (if k == pre[i as int].0@ {
                            Some(self.logs@[i as int].1)
                        } else {
                            lookup(pre, k)
                        }) by {
                            lemma_lookup_update(pre, i as int, self.logs@[i as int], k);
                        }
                    }
                },
                None => {
                    proof {
                        lemma_lookup_none(pre, ov[j as int].0);
                    }
                },
            }
            j = j + 1;
        }
        proof {
            assert(ov.take(offsets@.len() as int) =~= ov);
        }
        let id = self.core.gen.fresh();
        let me = match &self.core.id {
            Some(s) => s.clone(),
            None => String::new(),
        };
        Message {
            src: me,
            dst: src,
            body: MessageBody {
                id: Some(id),
                in_reply_to: req_id,
                inner: InnerMessageBody::CommitOffsetsOk,
            },
        }
    }

    /// List committed offsets: each requested key this node has a log for,
    /// with its committed offset, in request order; unknown keys are
    /// omitted. No side effects.
    pub fn handle_list_committed_offsets(
        &mut self,
        src: String,
        dst: String,
        req_id: Option<u64>,
        keys: Vec<String>,
    ) -> (r: Message)
        requires
            old(self).wf(),
            old(self).core.initialized(),
            old(self).core.gen.next < u64::MAX,
        ensures
            final(self).wf(),
            final(self).core.id == old(self).core.id,
            final(self).core.nodes == old(self).core.nodes,
            final(self).core.gen.next == old(self).core.gen.next + 1,
            final(self).logs == old(self).logs,
            r@.is_reply(
                old(self).core.my_id(),
                src@,
                old(self).core.gen.next,
                req_id,
                (InnerBodyView::ListCommittedOffsetsOk {
                    offsets: list_from(old(self).logs@, strs_view(keys@), 0),
                }),
            ),
    {
        let ghost kv = strs_view(keys@);
        let ghost full = list_from(self.logs@, kv, 0);
        let mut results: Vec<(String, u64)> = Vec::new();
        proof {
            assert(kvu_view(results@) =~= Seq::<(Seq<char>, u64)>::empty());
            assert(Seq::<(Seq<char>, u64)>::empty() + full =~= full);
        }
        let mut j: usize = 0;
        while j < keys.len()
            invariant
                0 <= j <= keys@.len(),
                kv == strs_view(keys@),
                full == list_from(self.logs@, kv, 0),
                self == old(self),
                self.wf(),
                full =~= kvu_view(results@) + list_from(self.logs@, kv, j as int),
            decreases keys@.len() - j,
        {
            let ghost rest_pre = list_from(self.logs@, kv, j as int);
            match self.find_key(&keys[j]) {
                Some(i) => {
                    let committed = self.logs[i].1.committed;
                    let keycopy = keys[j].clone();
                    let ghost done_pre = kvu_view(results@);
                    proof {
                        assert(rest_pre == seq![(kv[j as int], committed)] + list_from(
                            self.logs@,
                            kv,
                            j + 1,
                        ));
                    }
                    results.push((keycopy, committed));
                    proof {
                        assert(kvu_view(results@) =~= done_pre.push((kv[j as int], committed)));
                        assert(done_pre.push((kv[j as int], committed)) + list_from(
                            self.logs@,
                            kv,
                            j + 1,
                        ) =~= done_pre + rest_pre);
                    }
                },
                None => {
                    proof {
                        assert(rest_pre == list_from(self.logs@, kv, j + 1));
                    }
                },
            }
            j = j + 1;
        }
        proof {
            assert(list_from(self.logs@, kv, keys@.len() as int) =~= Seq::<(Seq<char>, u64)>::empty());
            assert(kvu_view(results@) + list_from(self.logs@, kv, keys@.len() as int)
                =~= kvu_view(results@));
        }
        let id = self.core.gen.fresh();
        let me = match &self.core.id {
            Some(s) => s.clone(),
            None => String::new(),
        };
        Message {
            src: me,
            dst: src,
            body: MessageBody {
                id: Some(id),
                in_reply_to: req_id,
                inner: InnerMessageBody::ListCommittedOffsetsOk { offsets: results },
            },
        }
    }
}

} // verus!
