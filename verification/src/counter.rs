//! The replicated increment-only counter.
//!
//! The authoritative value lives in an external, sequentially consistent
//! key-value service; the node holds no copy. An add first reads the current
//! value, then runs a compare-and-swap retry loop: every swap it asks for
//! moves the stored value from some `v` to exactly `v + delta`, so each add
//! lands exactly once however often the swap has to be retried. A read
//! first writes a unique value to a private per-node key to force a fresh
//! linearization point, then reads the shared key. Every store request is
//! correlated by message id and retried until its reply arrives.

use vstd::prelude::*;
use vstd::string::StringExecFns;
use crate::msg::{
    InnerBodyView, InnerMessageBody, Message, MessageBody, MessageBodyView, MessageView,
    ReadOkVariants, ReadOkView,
};
use crate::node::{NodeCore, ProtocolError};
use crate::rpc::IdTable;
use crate::strnum::{dec_str, extract_first_number, first_digit_run, is_u64_numeral, parse_u64,
    str_to_num, u64_to_dec};

verus! {

/// The shared key under which the counter lives.
pub open spec fn counter_key() -> Seq<char> {
    "counter"@
}

/// The id of the key-value service the counter engine talks to.
pub open spec fn store_service() -> Seq<char> {
    "seq-kv"@
}

/// The store error code for a failed compare-and-swap precondition: the
/// expected prior value no longer stands. Expected and recoverable; every
/// other store error is fatal.
pub const CAS_CONFLICT: u16 = 22;

/// What a node is waiting on for one outstanding store request.
pub enum Flow {
    /// The idempotent creation of the counter key at initialization; the
    /// outcome needs no answer.
    Seed,
    /// A read: the unique fence write is out, awaiting its acknowledgment.
    ReadFence { client: String, client_req: Option<u64> },
    /// A read: the fence is done, awaiting the stored value.
    ReadValue { client: String, client_req: Option<u64> },
    /// An add: awaiting the store's current value.
    AddRead { client: String, client_req: Option<u64>, delta: u64 },
    /// An add: awaiting the outcome of a swap from `from` to `from + delta`.
    AddCas { client: String, client_req: Option<u64>, delta: u64, from: u64 },
}

/// An outstanding store request: the message itself, re-emitted verbatim by
/// the retry ticker until its reply arrives, and what to do with the reply.
pub struct PendingRpc {
    pub request: Message,
    pub flow: Flow,
}

/// The read request for the shared counter key.
pub open spec fn kv_read_request(me: Seq<char>, id: u64) -> MessageView {
    MessageView {
        src: me,
        dst: store_service(),
        body: MessageBodyView {
            id: Some(id),
            in_reply_to: None,
            inner: InnerBodyView::ReadKv { key: counter_key() },
        },
    }
}

/// The fence write: a value never written before (the request's own id) to
/// this node's private key.
pub open spec fn kv_fence_request(me: Seq<char>, id: u64) -> MessageView {
    MessageView {
        src: me,
        dst: store_service(),
        body: MessageBodyView {
            id: Some(id),
            in_reply_to: None,
            inner: InnerBodyView::WriteKv { key: me, value: dec_str(id as nat) },
        },
    }
}

/// The compare-and-swap moving the counter from `from` to `to`.
pub open spec fn kv_cas_request(me: Seq<char>, id: u64, from: u64, to: u64) -> MessageView {
    MessageView {
        src: me,
        dst: store_service(),
        body: MessageBodyView {
            id: Some(id),
            in_reply_to: None,
            inner: InnerBodyView::CasKv {
                key: counter_key(),
                from: dec_str(from as nat),
                to: dec_str(to as nat),
                create_if_not_exists: false,
            },
        },
    }
}

/// The idempotent seed: create the counter at zero if it is absent.
pub open spec fn kv_seed_request(me: Seq<char>, id: u64) -> MessageView {
    MessageView {
        src: me,
        dst: store_service(),
        body: MessageBodyView {
            id: Some(id),
            in_reply_to: None,
            inner: InnerBodyView::CasKv {
                key: counter_key(),
                from: dec_str(0),
                to: dec_str(0),
                create_if_not_exists: true,
            },
        },
    }
}

/// The state of one counter node.
pub struct CounterNode {
    pub core: NodeCore,
    /// Outstanding store requests, keyed by their message id.
    pub pending: IdTable<PendingRpc>,
}

impl CounterNode {
    /// Internal consistency: unambiguous correlation, ids allocated in the
    /// past, every parked request carrying its own key as id, and — the
    /// heart of the add path — every outstanding swap asking the store to
    /// move from `from` to exactly `from + delta`.
    pub open spec fn wf(self) -> bool {
        &&& self.pending.wf()
        &&& forall|i: int|
            0 <= i < self.pending.entries@.len() ==> {
                let k = (#[trigger] self.pending.entries@[i]).0;
                let p = self.pending.entries@[i].1;
                &&& k < self.core.gen.next
                &&& p.request@.body.id == Some(k)
                &&& match p.flow {
                    Flow::AddCas { client, client_req, delta, from } => from + delta <= u64::MAX
                        && p.request@ == kv_cas_request(
                        self.core.my_id(),
                        k,
                        from,
                        (from + delta) as u64,
                    ),
                    _ => true,
                }
            }
    }

    /// A fresh, uninitialized counter node.
    pub fn new() -> (r: CounterNode)
        ensures
            r.wf(),
            !r.core.initialized(),
            r.core.gen.next == 1,
            r.pending.entries@.len() == 0,
    {
        CounterNode { core: NodeCore::new(), pending: IdTable::new() }
    }

    /// Everything still awaiting a store reply, for the retry ticker: each
    /// entry's request is re-emitted verbatim.
    pub fn retry_messages(&self) -> (r: &Vec<(u64, PendingRpc)>)
        ensures
            r@ == self.pending.entries@,
    {
        &self.pending.entries
    }

    /// The node's own id as a string, for building requests.
    fn my_name(&self) -> (r: String)
        requires
            self.core.initialized(),
        ensures
            r@ == self.core.my_id(),
    {
        match &self.core.id {
            Some(s) => s.clone(),
            None => String::new(),
        }
    }

    /// Park a store request for retry under its own id.
    fn park(&mut self, id: u64, request: Message, flow: Flow)
        requires
            old(self).wf(),
            !old(self).pending.spec_contains(id),
            id < old(self).core.gen.next,
            request@.body.id == Some(id),
            match flow {
                Flow::AddCas { client, client_req, delta, from } => from + delta <= u64::MAX
                    && request@ == kv_cas_request(old(self).core.my_id(), id, from, (from + delta) as u64),
                _ => true,
            },
        ensures
            final(self).wf(),
            final(self).core == old(self).core,
            final(self).pending.entries@ == old(self).pending.entries@.push(
                (id, PendingRpc { request, flow }),
            ),
            final(self).pending.as_map() == old(self).pending.as_map().insert(
                id,
                PendingRpc { request, flow },
            ),
    {
        self.pending.register(id, PendingRpc { request, flow });
    }

    /// Initialize: assign the identity, then seed the counter key with an
    /// idempotent create-if-absent swap to zero, and acknowledge. The seed
    /// request is parked for retry; its reply needs no further action.
    pub fn handle_init(
        &mut self,
        src: String,
        dst: String,
        req_id: Option<u64>,
        node_id: String,
        node_ids: Vec<String>,
    ) -> (r: Result<Vec<Message>, ProtocolError>)
        requires
            old(self).wf(),
            old(self).core.gen.next + 2 <= u64::MAX,
            !old(self).core.initialized() ==> old(self).pending.entries@.len() == 0,
        ensures
            final(self).wf(),
            match r {
                Ok(msgs) => {
                    &&& !old(self).core.initialized()
                    &&& final(self).core.initialized()
                    &&& final(self).core.my_id() == node_id@
                    &&& msgs@.len() == 2
                    &&& msgs@[0]@ == kv_seed_request(node_id@, (old(self).core.gen.next + 1) as u64)
                    &&& msgs@[1]@.is_reply(
                        dst@,
                        src@,
                        old(self).core.gen.next,
                        req_id,
                        InnerBodyView::InitOk,
                    )
                    &&& final(self).pending.as_map() == old(self).pending.as_map().insert(
                        (old(self).core.gen.next + 1) as u64,
                        final(self).pending.as_map()[(old(self).core.gen.next + 1) as u64],
                    )
                    &&& final(self).pending.as_map()[(old(self).core.gen.next + 1) as u64].flow is Seed
                    &&& final(self).core.gen.next == old(self).core.gen.next + 2
                },
                Err(e) => {
                    &&& e == ProtocolError::AlreadyInitialized
                    &&& old(self).core.initialized()
                    &&& *final(self) == *old(self)
                },
            },
    {
        let reply = match self.core.handle_init(src, dst, req_id, node_id, node_ids) {
            Ok(m) => m,
            Err(e) => {
                return Err(e);
            },
        };
        let me = self.my_name();
        let sid = self.core.gen.fresh();
        let zero_from = u64_to_dec(0);
        let zero_to = u64_to_dec(0);
        let seed = Message {
            src: me,
            dst: String::from_str("seq-kv"),
            body: MessageBody {
                id: Some(sid),
                in_reply_to: None,
                inner: InnerMessageBody::CasKv {
                    key: String::from_str("counter"),
                    from: zero_from,
                    to: zero_to,
                    create_if_not_exists: true,
                },
            },
        };
        let seed_copy = Message {
            src: self.my_name(),
            dst: String::from_str("seq-kv"),
            body: MessageBody {
                id: Some(sid),
                in_reply_to: None,
                inner: InnerMessageBody::CasKv {
                    key: String::from_str("counter"),
                    from: u64_to_dec(0),
                    to: u64_to_dec(0),
                    create_if_not_exists: true,
                },
            },
        };
        proof {
            crate::rpc::lemma_alist_contains(self.pending.entries@, sid);
        }
        self.park(sid, seed_copy, Flow::Seed);
        let mut msgs: Vec<Message> = Vec::new();
        msgs.push(seed);
        msgs.push(reply);
        Ok(msgs)
    }

    /// Begin answering an add. Adding zero is acknowledged at once and the
    /// store is never contacted; otherwise the store is asked for the
    /// current value and the add continues when the reply arrives.
    pub fn handle_add(
        &mut self,
        src: String,
        dst: String,
        req_id: Option<u64>,
        delta: u64,
    ) -> (r: Vec<Message>)
        requires
            old(self).wf(),
            old(self).core.initialized(),
            old(self).core.gen.next < u64::MAX,
        ensures
            final(self).wf(),
            final(self).core.id == old(self).core.id,
            final(self).core.nodes == old(self).core.nodes,
            final(self).core.gen.next == old(self).core.gen.next + 1,
            r@.len() == 1,
            delta == 0 ==> {
                &&& r@[0]@.is_reply(
                    old(self).core.my_id(),
                    src@,
                    old(self).core.gen.next,
                    req_id,
                    InnerBodyView::AddOk,
                )
                &&& final(self).pending == old(self).pending
            },
            delta != 0 ==> {
                &&& r@[0]@ == kv_read_request(old(self).core.my_id(), old(self).core.gen.next)
                &&& final(self).pending.as_map() == old(self).pending.as_map().insert(
                    old(self).core.gen.next,
                    final(self).pending.as_map()[old(self).core.gen.next],
                )
                &&& final(self).pending.as_map()[old(self).core.gen.next].flow matches Flow::AddRead {
                    client,
                    client_req,
                    delta: d,
                } && client@ == src@ && client_req == req_id && d == delta
            },
    {
        let mut msgs: Vec<Message> = Vec::new();
        if delta == 0 {
            let id = self.core.gen.fresh();
            let me = self.my_name();
            msgs.push(Message {
                src: me,
                dst: src,
                body: MessageBody {
                    id: Some(id),
                    in_reply_to: req_id,
                    inner: InnerMessageBody::AddOk,
                },
            });
        } else {
            let id = self.core.gen.fresh();
            let me = self.my_name();
            let request = Message {
                src: me,
                dst: String::from_str("seq-kv"),
                body: MessageBody {
                    id: Some(id),
                    in_reply_to: None,
                    inner: InnerMessageBody::ReadKv { key: String::from_str("counter") },
                },
            };
            let request_copy = Message {
                src: self.my_name(),
                dst: String::from_str("seq-kv"),
                body: MessageBody {
                    id: Some(id),
                    in_reply_to: None,
                    inner: InnerMessageBody::ReadKv { key: String::from_str("counter") },
                },
            };
            proof {
                crate::rpc::lemma_alist_contains(self.pending.entries@, id);
            }
            self.park(id, request_copy, Flow::AddRead { client: src, client_req: req_id, delta });
            msgs.push(request);
        }
        msgs
    }

    /// Begin answering a read: write a unique value (the request's own id)
    /// to this node's private key, so that the store cannot serve a stale
    /// counter value ahead of that write; the counter itself is read when
    /// the fence is acknowledged.
    pub fn handle_read(&mut self, src: String, dst: String, req_id: Option<u64>) -> (r: Vec<Message>)
        requires
            old(self).wf(),
            old(self).core.initialized(),
            old(self).core.gen.next < u64::MAX,
        ensures
            final(self).wf(),
            final(self).core.id == old(self).core.id,
            final(self).core.nodes == old(self).core.nodes,
            final(self).core.gen.next == old(self).core.gen.next + 1,
            r@.len() == 1,
            r@[0]@ == kv_fence_request(old(self).core.my_id(), old(self).core.gen.next),
            final(self).pending.as_map() == old(self).pending.as_map().insert(
                old(self).core.gen.next,
                final(self).pending.as_map()[old(self).core.gen.next],
            ),
            final(self).pending.as_map()[old(self).core.gen.next].flow matches Flow::ReadFence {
                client,
                client_req,
            } && client@ == src@ && client_req == req_id,
    {
        let id = self.core.gen.fresh();
        let me = self.my_name();
        let value = u64_to_dec(id);
        let request = Message {
            src: me,
            dst: String::from_str("seq-kv"),
            body: MessageBody {
                id: Some(id),
                in_reply_to: None,
                inner: InnerMessageBody::WriteKv { key: self.my_name(), value },
            },
        };
        let request_copy = Message {
            src: self.my_name(),
            dst: String::from_str("seq-kv"),
            body: MessageBody {
                id: Some(id),
                in_reply_to: None,
                inner: InnerMessageBody::WriteKv { key: self.my_name(), value: u64_to_dec(id) },
            },
        };
        proof {
            crate::rpc::lemma_alist_contains(self.pending.entries@, id);
        }
        self.park(id, request_copy, Flow::ReadFence { client: src, client_req: req_id });
        let mut msgs: Vec<Message> = Vec::new();
        msgs.push(request);
        msgs
    }

    /// Drive one in-flight flow forward with the store's reply. A reply whose
    /// id matches nothing is a duplicate or late retry artifact and is
    /// ignored. A compare-and-swap conflict carries the store's current value
    /// in its error text and drives one more swap attempt; any other
    /// unexpected reply, an unreadable value, or a counter overflow is an
    /// unrecoverable fault.
    pub fn on_reply(&mut self, reply: Message) -> (r: Result<Vec<Message>, ProtocolError>)
        requires
            old(self).wf(),
            old(self).core.initialized(),
            old(self).core.gen.next < u64::MAX,
        ensures
            final(self).wf(),
            final(self).core.id == old(self).core.id,
            final(self).core.nodes == old(self).core.nodes,
            match reply@.body.in_reply_to {
                Some(id) => {
                    if !old(self).pending.spec_contains(id) {
                        r matches Ok(msgs) && msgs@.len() == 0 && *final(self) == *old(self)
                    } else {
                        let p = old(self).pending.as_map()[id];
                        let without = old(self).pending.as_map().remove(id);
                        match p.flow {
                            Flow::Seed => r matches Ok(msgs) && msgs@.len() == 0
                                && final(self).pending.as_map() == without
                                && final(self).core == old(self).core,
                            Flow::ReadFence { client, client_req } => {
                                if reply@.body.inner is WriteKvOk {
                                    &&& r matches Ok(msgs) && msgs@.len() == 1 && msgs@[0]@
                                        == kv_read_request(
                                        old(self).core.my_id(),
                                        old(self).core.gen.next,
                                    )
                                    &&& final(self).core.gen.next == old(self).core.gen.next + 1
                                    &&& final(self).pending.as_map() == without.insert(
                                        old(self).core.gen.next,
                                        final(self).pending.as_map()[old(self).core.gen.next],
                                    )
                                    &&& final(self).pending.as_map()[old(self).core.gen.next].flow
                                        matches Flow::ReadValue { client: c2, client_req: q2 }
                                        && c2@ == client@ && q2 == client_req
                                } else {
                                    r == Err::<Vec<Message>, ProtocolError>(
                                        ProtocolError::UnexpectedMessage,
                                    ) && final(self).pending.as_map() == without
                                }
                            },
                            Flow::ReadValue { client, client_req } => {
                                if reply@.body.inner matches InnerBodyView::ReadOk(ReadOkView::Kv {
                                    value,
                                }) && is_u64_numeral(value) {
                                    &&& r matches Ok(msgs) && msgs@.len() == 1
                                        && (reply@.body.inner matches InnerBodyView::ReadOk(
                                        ReadOkView::Kv { value },
                                    ) && msgs@[0]@.is_reply(
                                        old(self).core.my_id(),
                                        client@,
                                        old(self).core.gen.next,
                                        client_req,
                                        (InnerBodyView::ReadOk(ReadOkView::Single {
                                            value: str_to_num(value) as u64,
                                        })),
                                    ))
                                    &&& final(self).core.gen.next == old(self).core.gen.next + 1
                                    &&& final(self).pending.as_map() == without
                                } else if reply@.body.inner matches InnerBodyView::ReadOk(
                                    ReadOkView::Kv { value },
                                ) {
                                    r == Err::<Vec<Message>, ProtocolError>(ProtocolError::StoreFault)
                                        && final(self).pending.as_map() == without
                                } else {
                                    r == Err::<Vec<Message>, ProtocolError>(
                                        ProtocolError::UnexpectedMessage,
                                    ) && final(self).pending.as_map() == without
                                }
                            },
                            Flow::AddRead { client, client_req, delta } => {
                                if reply@.body.inner matches InnerBodyView::ReadOk(ReadOkView::Kv {
                                    value,
                                }) && is_u64_numeral(value) && str_to_num(value) + delta <= u64::MAX {
                                    &&& r matches Ok(msgs) && msgs@.len() == 1
                                        && (reply@.body.inner matches InnerBodyView::ReadOk(
                                        ReadOkView::Kv { value },
                                    ) && msgs@[0]@ == kv_cas_request(
                                        old(self).core.my_id(),
                                        old(self).core.gen.next,
                                        str_to_num(value) as u64,
                                        (str_to_num(value) + delta) as u64,
                                    ))
                                    &&& final(self).core.gen.next == old(self).core.gen.next + 1
                                    &&& final(self).pending.as_map() == without.insert(
                                        old(self).core.gen.next,
                                        final(self).pending.as_map()[old(self).core.gen.next],
                                    )
                                    &&& reply@.body.inner matches InnerBodyView::ReadOk(
                                        ReadOkView::Kv { value },
                                    ) && final(self).pending.as_map()[old(self).core.gen.next].flow
                                        matches Flow::AddCas {
                                        client: c2,
                                        client_req: q2,
                                        delta: d2,
                                        from,
                                    } && c2@ == client@ && q2 == client_req && d2 == delta && from
                                        == str_to_num(value) as u64
                                } else if reply@.body.inner matches InnerBodyView::ReadOk(
                                    ReadOkView::Kv { value },
                                ) {
                                    r == Err::<Vec<Message>, ProtocolError>(ProtocolError::StoreFault)
                                        && final(self).pending.as_map() == without
                                } else {
                                    r == Err::<Vec<Message>, ProtocolError>(
                                        ProtocolError::UnexpectedMessage,
                                    ) && final(self).pending.as_map() == without
                                }
                            },
                            Flow::AddCas { client, client_req, delta, from } => {
                                if reply@.body.inner is CasKvOk {
                                    &&& r matches Ok(msgs) && msgs@.len() == 1 && msgs@[0]@.is_reply(
                                        old(self).core.my_id(),
                                        client@,
                                        old(self).core.gen.next,
                                        client_req,
                                        InnerBodyView::AddOk,
                                    )
                                    &&& final(self).core.gen.next == old(self).core.gen.next + 1
                                    &&& final(self).pending.as_map() == without
                                } else if reply@.body.inner matches InnerBodyView::Error {
                                    code,
                                    text: Some(t),
                                } && code == CAS_CONFLICT && is_u64_numeral(first_digit_run(t))
                                    && str_to_num(first_digit_run(t)) + delta <= u64::MAX {
                                    &&& r matches Ok(msgs) && msgs@.len() == 1
                                        && (reply@.body.inner matches InnerBodyView::Error {
                                        code: _,
                                        text: Some(t),
                                    } && msgs@[0]@ == kv_cas_request(
                                        old(self).core.my_id(),
                                        old(self).core.gen.next,
                                        str_to_num(first_digit_run(t)) as u64,
                                        (str_to_num(first_digit_run(t)) + delta) as u64,
                                    ))
                                    &&& final(self).core.gen.next == old(self).core.gen.next + 1
                                    &&& final(self).pending.as_map() == without.insert(
                                        old(self).core.gen.next,
                                        final(self).pending.as_map()[old(self).core.gen.next],
                                    )
                                    &&& reply@.body.inner matches InnerBodyView::Error {
                                        code: _,
                                        text: Some(t),
                                    } && final(self).pending.as_map()[old(self).core.gen.next].flow
                                        matches Flow::AddCas {
                                        client: c2,
                                        client_req: q2,
                                        delta: d2,
                                        from: f2,
                                    } && c2@ == client@ && q2 == client_req && d2 == delta && f2
                                        == str_to_num(first_digit_run(t)) as u64
                                } else if reply@.body.inner matches InnerBodyView::Error {
                                    code,
                                    text,
                                } && code == CAS_CONFLICT && text is Some {
                                    r == Err::<Vec<Message>, ProtocolError>(ProtocolError::StoreFault)
                                        && final(self).pending.as_map() == without
                                } else {
                                    r == Err::<Vec<Message>, ProtocolError>(
                                        ProtocolError::UnexpectedMessage,
                                    ) && final(self).pending.as_map() == without
                                }
                            },
                        }
                    }
                },
                None => r == Err::<Vec<Message>, ProtocolError>(ProtocolError::UnexpectedMessage)
                    && *final(self) == *old(self),
            },
    {
        let id = match reply.body.in_reply_to {
            Some(i) => i,
            None => {
                return Err(ProtocolError::UnexpectedMessage);
            },
        };
        let p = match self.pending.resolve(id) {
            Some(p) => p,
            None => {
                return Ok(Vec::new());
            },
        };
        let mut msgs: Vec<Message> = Vec::new();
        match p.flow {
            Flow::Seed => Ok(msgs),
            Flow::ReadFence { client, client_req } => {
                match reply.body.inner {
                    InnerMessageBody::WriteKvOk => {
                        let nid = self.core.gen.fresh();
                        let request = Message {
                            src: self.my_name(),
                            dst: String::from_str("seq-kv"),
                            body: MessageBody {
                                id: Some(nid),
                                in_reply_to: None,
                                inner: InnerMessageBody::ReadKv {
                                    key: String::from_str("counter"),
                                },
                            },
                        };
                        let request_copy = Message {
                            src: self.my_name(),
                            dst: String::from_str("seq-kv"),
                            body: MessageBody {
                                id: Some(nid),
                                in_reply_to: None,
                                inner: InnerMessageBody::ReadKv {
                                    key: String::from_str("counter"),
                                },
                            },
                        };
                        proof {
                            crate::rpc::lemma_alist_contains(self.pending.entries@, nid);
                        }
                        self.park(nid, request_copy, Flow::ReadValue { client, client_req });
                        msgs.push(request);
                        Ok(msgs)
                    },
                    _ => Err(ProtocolError::UnexpectedMessage),
                }
            },
            Flow::ReadValue { client, client_req } => {
                match reply.body.inner {
                    InnerMessageBody::ReadOk(ReadOkVariants::Kv { value }) => {
                        let v = match parse_u64(value.as_str()) {
                            Some(v) => v,
                            None => {
                                return Err(ProtocolError::StoreFault);
                            },
                        };
                        let nid = self.core.gen.fresh();
                        msgs.push(Message {
                            src: self.my_name(),
                            dst: client,
                            body: MessageBody {
                                id: Some(nid),
                                in_reply_to: client_req,
                                inner: InnerMessageBody::ReadOk(ReadOkVariants::Single { value: v }),
                            },
                        });
                        Ok(msgs)
                    },
                    _ => Err(ProtocolError::UnexpectedMessage),
                }
            },
            Flow::AddRead { client, client_req, delta } => {
                match reply.body.inner {
                    InnerMessageBody::ReadOk(ReadOkVariants::Kv { value }) => {
                        let v = match parse_u64(value.as_str()) {
                            Some(v) => v,
                            None => {
                                return Err(ProtocolError::StoreFault);
                            },
                        };
                        let to = match v.checked_add(delta) {
                            Some(t) => t,
                            None => {
                                return Err(ProtocolError::StoreFault);
                            },
                        };
                        self.push_cas(&mut msgs, client, client_req, delta, v, to);
                        Ok(msgs)
                    },
                    _ => Err(ProtocolError::UnexpectedMessage),
                }
            },
            Flow::AddCas { client, client_req, delta, from } => {
                match reply.body.inner {
                    InnerMessageBody::CasKvOk => {
                        let nid = self.core.gen.fresh();
                        msgs.push(Message {
                            src: self.my_name(),
                            dst: client,
                            body: MessageBody {
                                id: Some(nid),
                                in_reply_to: client_req,
                                inner: InnerMessageBody::AddOk,
                            },
                        });
                        Ok(msgs)
                    },
                    InnerMessageBody::Error { code, text } => {
                        if code != CAS_CONFLICT {
                            return Err(ProtocolError::UnexpectedMessage);
                        }
                        let t = match text {
                            Some(t) => t,
                            None => {
                                return Err(ProtocolError::UnexpectedMessage);
                            },
                        };
                        let cur = match extract_first_number(t.as_str()) {
                            Some(c) => c,
                            None => {
                                return Err(ProtocolError::StoreFault);
                            },
                        };
                        let to = match cur.checked_add(delta) {
                            Some(t2) => t2,
                            None => {
                                return Err(ProtocolError::StoreFault);
                            },
                        };
                        self.push_cas(&mut msgs, client, client_req, delta, cur, to);
                        Ok(msgs)
                    },
                    _ => Err(ProtocolError::UnexpectedMessage),
                }
            },
        }
    }

    /// Emit a compare-and-swap from `from` to `from + delta` and park it.
    fn push_cas(
        &mut self,
        msgs: &mut Vec<Message>,
        client: String,
        client_req: Option<u64>,
        delta: u64,
        from: u64,
        to: u64,
    )
        requires
            old(self).wf(),
            old(self).core.initialized(),
            old(self).core.gen.next < u64::MAX,
            to == from + delta,
        ensures
            final(self).wf(),
            final(self).core.id == old(self).core.id,
            final(self).core.nodes == old(self).core.nodes,
            final(self).core.gen.next == old(self).core.gen.next + 1,
            final(msgs)@ == old(msgs)@.push(final(msgs)@.last()),
            final(msgs)@.len() == old(msgs)@.len() + 1,
            final(msgs)@.last()@ == kv_cas_request(
                old(self).core.my_id(),
                old(self).core.gen.next,
                from,
                to,
            ),
            final(self).pending.as_map() == old(self).pending.as_map().insert(
                old(self).core.gen.next,
                final(self).pending.as_map()[old(self).core.gen.next],
            ),
            final(self).pending.as_map()[old(self).core.gen.next].flow matches Flow::AddCas {
                client: c2,
                client_req: q2,
                delta: d2,
                from: f2,
            } && c2@ == client@ && q2 == client_req && d2 == delta && f2 == from,
    {
        let nid = self.core.gen.fresh();
        let request = Message {
            src: self.my_name(),
            dst: String::from_str("seq-kv"),
            body: MessageBody {
                id: Some(nid),
                in_reply_to: None,
                inner: InnerMessageBody::CasKv {
                    key: String::from_str("counter"),
                    from: u64_to_dec(from),
                    to: u64_to_dec(to),
                    create_if_not_exists: false,
                },
            },
        };
        let request_copy = Message {
            src: self.my_name(),
            dst: String::from_str("seq-kv"),
            body: MessageBody {
                id: Some(nid),
                in_reply_to: None,
                inner: InnerMessageBody::CasKv {
                    key: String::from_str("counter"),
                    from: u64_to_dec(from),
                    to: u64_to_dec(to),
                    create_if_not_exists: false,
                },
            },
        };
        proof {
            crate::rpc::lemma_alist_contains(self.pending.entries@, nid);
        }
        self.park(nid, request_copy, Flow::AddCas { client, client_req, delta, from });
        msgs.push(request);
    }
}

/// The sum of a run of deltas.
pub open spec fn sum_of(deltas: Seq<u64>) -> int
    decreases deltas.len(),
{
    if deltas.len() == 0 {
        0
    } else {
        sum_of(deltas.drop_last()) + deltas.last()
    }
}

/// The counter value after a run of adds lands, starting from `init`: each
/// add's successful swap moves the stored value from some `v` to `v + delta`
/// (the shape of every swap this engine emits — see `wf` and the contracts
/// of `handle_add` and `on_reply`), so each lands exactly once.
pub open spec fn apply_adds(init: int, deltas: Seq<u64>) -> int
    decreases deltas.len(),
{
    if deltas.len() == 0 {
        init
    } else {
        apply_adds(init, deltas.drop_last()) + deltas.last()
    }
}

/// Law: once every add has landed, the counter shows the initial value plus
/// the sum of the deltas, no matter how often individual swaps had to be
/// retried.
pub proof fn lemma_adds_total(init: int, deltas: Seq<u64>)
    ensures
        apply_adds(init, deltas) == init + sum_of(deltas),
    decreases deltas.len(),
{
    if deltas.len() > 0 {
        lemma_adds_total(init, deltas.drop_last());
    }
}

/// Removing one delta takes exactly its value out of the sum.
proof fn lemma_sum_remove(deltas: Seq<u64>, i: int)
    requires
        0 <= i < deltas.len(),
    ensures
        sum_of(deltas.remove(i)) == sum_of(deltas) - deltas[i],
    decreases deltas.len(),
{
    if i == deltas.len() - 1 {
        assert(deltas.remove(i) =~= deltas.drop_last());
    } else {
        lemma_sum_remove(deltas.drop_last(), i);
        assert(deltas.remove(i).drop_last() =~= deltas.drop_last().remove(i));
        assert(deltas.remove(i).last() == deltas.last());
    }
}

/// Law: the sum does not depend on the interleaving — any two orders of the
/// same adds leave the counter at the same value.
pub proof fn lemma_sum_permutation(a: Seq<u64>, b: Seq<u64>)
    requires
        a.to_multiset() == b.to_multiset(),
    ensures
        sum_of(a) == sum_of(b),
    decreases a.len(),
{
    broadcast use vstd::seq_lib::group_to_multiset_ensures;

    if a.len() == 0 {
        assert(a.to_multiset().len() == a.len());
        assert(b.to_multiset().len() == b.len());
        assert(b.len() == 0);
    } else {
        let x = a.last();
        assert(a.to_multiset().count(x) > 0) by {
            assert(a.contains(x));
        }
        assert(b.to_multiset().count(x) > 0);
        assert(b.contains(x));
        let j = choose|j: int| 0 <= j < b.len() && b[j] == x;
        assert(a.drop_last().to_multiset() =~= b.remove(j).to_multiset()) by {
            assert(a =~= a.drop_last().push(x));
            assert(a.drop_last().push(x).to_multiset() =~= a.drop_last().to_multiset().insert(x));
            vstd::seq_lib::to_multiset_remove(b, j);
            assert(a.drop_last().to_multiset().insert(x).remove(x) =~= a.drop_last().to_multiset());
        }
        lemma_sum_permutation(a.drop_last(), b.remove(j));
        lemma_sum_remove(b, j);
    }
}

/// The deltas that actually move the counter.
pub open spec fn nonzero_deltas(deltas: Seq<u64>) -> Seq<u64> {
    deltas.filter(|d: u64| d != 0)
}

/// Law: adds of zero contribute nothing — the sum of the non-zero deltas is
/// the sum of all of them. An add of zero is acknowledged without a single
/// store request (see `handle_add`), and this shows no value is lost by it.
pub proof fn lemma_sum_ignores_zeros(deltas: Seq<u64>)
    ensures
        sum_of(nonzero_deltas(deltas)) == sum_of(deltas),
    decreases deltas.len(),
{
    reveal(Seq::filter);
    if deltas.len() > 0 {
        lemma_sum_ignores_zeros(deltas.drop_last());
        let x = deltas.last();
        let f = nonzero_deltas(deltas.drop_last());
        if x != 0 {
            assert(nonzero_deltas(deltas) == f.push(x));
            assert(f.push(x).drop_last() =~= f);
            assert(f.push(x).last() == x);
        } else {
            assert(nonzero_deltas(deltas) == f);
        }
    }
}

} // verus!
