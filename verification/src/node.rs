//! Node identity and the two simplest node kinds.
//!
//! A node's identity is assigned exactly once by the first initialization
//! message; a second one is refused, not fatal. The message-id allocator is
//! strictly increasing, so an id is never handed out twice for the life of
//! the node.

use vstd::prelude::*;
use vstd::string::StringExecFns;
use crate::msg::{InnerBodyView, InnerMessageBody, Message, MessageBody, strs_view};
use crate::strnum::{dec_str, lex_sorted, sort_strings, u64_to_dec};

verus! {

/// Why a message was refused.
#[derive(Clone, Copy, Debug, PartialEq, Eq, Structural)]
pub enum ProtocolError {
    /// A second initialization arrived after the identity was assigned.
    AlreadyInitialized,
    /// A kind this node never answers, or a reply-only kind arriving as a
    /// fresh request.
    UnexpectedMessage,
    /// An unrecoverable remote fault: an unreadable store value, an overflow
    /// of the stored counter, or a store error other than a
    /// compare-and-swap conflict.
    StoreFault,
}

/// Allocator for per-node message ids: strictly increasing, never reused.
pub struct MsgIdGen {
    pub next: u64,
}

impl MsgIdGen {
    /// A fresh allocator; ids start at 1, as the very first message a node
    /// sends must already carry an id.
    pub fn new() -> (r: MsgIdGen)
        ensures
            r.next == 1,
    {
        MsgIdGen { next: 1 }
    }

    /// Hand out the next id. Ids are unique for the life of the node.
    pub fn fresh(&mut self) -> (r: u64)
        requires
            old(self).next < u64::MAX,
        ensures
            r == old(self).next,
            final(self).next == old(self).next + 1,
    {
        let r = self.next;
        self.next = self.next + 1;
        r
    }
}

/// What every node owns: its identity, its id allocator, and the sorted
/// list of all node ids in the cluster.
pub struct NodeCore {
    pub id: Option<String>,
    pub gen: MsgIdGen,
    pub nodes: Vec<String>,
}

impl NodeCore {
    /// Has the identity been assigned?
    pub open spec fn initialized(self) -> bool {
        self.id is Some
    }

    /// This node's id.
    pub open spec fn my_id(self) -> Seq<char> {
        match self.id {
            Some(s) => s@,
            None => Seq::empty(),
        }
    }

    /// What a successful initialization does to the core: the identity is
    /// `node_id`, one message id was spent on the acknowledgment, and the
    /// node list holds exactly the announced ids, sorted.
    pub open spec fn init_transition(
        pre: NodeCore,
        post: NodeCore,
        node_id: Seq<char>,
        node_ids: Seq<Seq<char>>,
    ) -> bool {
        &&& post.initialized()
        &&& post.my_id() == node_id
        &&& post.gen.next == pre.gen.next + 1
        &&& strs_view(post.nodes@).to_multiset() == node_ids.to_multiset()
        &&& lex_sorted(strs_view(post.nodes@))
    }

    /// A node that has not yet been told who it is.
    pub fn new() -> (r: NodeCore)
        ensures
            !r.initialized(),
            r.gen.next == 1,
            r.nodes@.len() == 0,
    {
        NodeCore { id: None, gen: MsgIdGen::new(), nodes: Vec::new() }
    }

    /// Assign the identity, record the sorted node list, and acknowledge.
    /// A second initialization is refused and changes nothing.
    pub fn handle_init(
        &mut self,
        msg_src: String,
        msg_dst: String,
        req_id: Option<u64>,
        node_id: String,
        node_ids: Vec<String>,
    ) -> (r: Result<Message, ProtocolError>)
        requires
            old(self).gen.next < u64::MAX,
        ensures
            match r {
                Ok(reply) => {
                    &&& !old(self).initialized()
                    &&& NodeCore::init_transition(*old(self), *final(self), node_id@, strs_view(node_ids@))
                    &&& reply@.is_reply(
                        msg_dst@,
                        msg_src@,
                        old(self).gen.next,
                        req_id,
                        InnerBodyView::InitOk,
                    )
                },
                Err(e) => {
                    &&& e == ProtocolError::AlreadyInitialized
                    &&& old(self).initialized()
                    &&& *final(self) == *old(self)
                },
            },
    {
        if self.id.is_some() {
            return Err(ProtocolError::AlreadyInitialized);
        }
        self.id = Some(node_id);
        let mut sorted = node_ids;
        sort_strings(&mut sorted);
        self.nodes = sorted;
        let id = self.gen.fresh();
        Ok(Message {
            src: msg_dst,
            dst: msg_src,
            body: MessageBody { id: Some(id), in_reply_to: req_id, inner: InnerMessageBody::InitOk },
        })
    }
}

/// A node that answers every echo request with its own payload.
pub struct EchoNode {
    pub core: NodeCore,
}

impl EchoNode {
    pub fn new() -> (r: EchoNode)
        ensures
            !r.core.initialized(),
            r.core.gen.next == 1,
    {
        EchoNode { core: NodeCore::new() }
    }

    /// Answer one inbound message: initialization or an echo request.
    pub fn handle(&mut self, msg: Message) -> (r: Result<Message, ProtocolError>)
        requires
            old(self).core.gen.next < u64::MAX,
        ensures
            match msg@.body.inner {
                InnerBodyView::Init { node_id, node_ids } => match r {
                    Ok(reply) => {
                        &&& !old(self).core.initialized()
                        &&& NodeCore::init_transition(old(self).core, final(self).core, node_id, node_ids)
                        &&& reply@.is_reply(
                            msg@.dst,
                            msg@.src,
                            old(self).core.gen.next,
                            msg@.body.id,
                            InnerBodyView::InitOk,
                        )
                    },
                    Err(e) => e == ProtocolError::AlreadyInitialized && old(self).core.initialized()
                        && *final(self) == *old(self),
                },
                InnerBodyView::Echo { echo } => match r {
                    Ok(reply) => {
                        &&& reply@.is_reply(
                            msg@.dst,
                            msg@.src,
                            old(self).core.gen.next,
                            msg@.body.id,
                            InnerBodyView::EchoOk { echo },
                        )
                        &&& final(self).core.gen.next == old(self).core.gen.next + 1
                        &&& final(self).core.id == old(self).core.id
                        &&& final(self).core.nodes == old(self).core.nodes
                    },
                    Err(_) => false,
                },
                _ => r == Err::<Message, ProtocolError>(ProtocolError::UnexpectedMessage)
                    && *final(self) == *old(self),
            },
    {
        let Message { src, dst, body } = msg;
        match body.inner {
            InnerMessageBody::Init { node_id, node_ids } => self.core.handle_init(
                src,
                dst,
                body.id,
                node_id,
                node_ids,
            ),
            InnerMessageBody::Echo { echo } => {
                let id = self.core.gen.fresh();
                Ok(Message {
                    src: dst,
                    dst: src,
                    body: MessageBody {
                        id: Some(id),
                        in_reply_to: body.id,
                        inner: InnerMessageBody::EchoOk { echo },
                    },
                })
            },
            _ => Err(ProtocolError::UnexpectedMessage),
        }
    }
}

/// The globally unique id a node derives from its own id and a message id.
/// Unique as long as node ids are never reused across process lifetimes.
pub open spec fn guid_view(node: Seq<char>, mid: u64) -> Seq<char> {
    node + "-"@ + dec_str(mid as nat)
}

/// A node that hands out cluster-unique identifiers.
pub struct GuidNode {
    pub core: NodeCore,
}

impl GuidNode {
    pub fn new() -> (r: GuidNode)
        ensures
            !r.core.initialized(),
            r.core.gen.next == 1,
    {
        GuidNode { core: NodeCore::new() }
    }

    /// Answer one inbound message: initialization or an id request.
    pub fn handle(&mut self, msg: Message) -> (r: Result<Message, ProtocolError>)
        requires
            old(self).core.gen.next < u64::MAX,
            old(self).core.initialized() || msg@.body.inner is Init,
        ensures
            match msg@.body.inner {
                InnerBodyView::Init { node_id, node_ids } => match r {
                    Ok(reply) => {
                        &&& !old(self).core.initialized()
                        &&& NodeCore::init_transition(old(self).core, final(self).core, node_id, node_ids)
                        &&& reply@.is_reply(
                            msg@.dst,
                            msg@.src,
                            old(self).core.gen.next,
                            msg@.body.id,
                            InnerBodyView::InitOk,
                        )
                    },
                    Err(e) => e == ProtocolError::AlreadyInitialized && old(self).core.initialized()
                        && *final(self) == *old(self),
                },
                InnerBodyView::Generate => match r {
                    Ok(reply) => {
                        &&& reply@.is_reply(
                            msg@.dst,
                            msg@.src,
                            old(self).core.gen.next,
                            msg@.body.id,
                            (InnerBodyView::GenerateOk {
                                id: guid_view(old(self).core.my_id(), old(self).core.gen.next),
                            }),
                        )
                        &&& final(self).core.gen.next == old(self).core.gen.next + 1
                        &&& final(self).core.id == old(self).core.id
                        &&& final(self).core.nodes == old(self).core.nodes
                    },
                    Err(_) => false,
                },
                _ => r == Err::<Message, ProtocolError>(ProtocolError::UnexpectedMessage)
                    && *final(self) == *old(self),
            },
    {
        let Message { src, dst, body } = msg;
        match body.inner {
            InnerMessageBody::Init { node_id, node_ids } => self.core.handle_init(
                src,
                dst,
                body.id,
                node_id,
                node_ids,
            ),
            InnerMessageBody::Generate => {
                let mid = self.core.gen.fresh();
                let me = match &self.core.id {
                    Some(s) => s.clone(),
                    None => String::new(),
                };
                let mut guid = me;
                guid.append("-");
                let digits = u64_to_dec(mid);
                guid.append(digits.as_str());
                Ok(Message {
                    src: dst,
                    dst: src,
                    body: MessageBody {
                        id: Some(mid),
                        in_reply_to: body.id,
                        inner: InnerMessageBody::GenerateOk { id: guid },
                    },
                })
            },
            _ => Err(ProtocolError::UnexpectedMessage),
        }
    }
}

} // verus!
