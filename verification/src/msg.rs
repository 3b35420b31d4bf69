//! The wire-level data model: envelopes and the closed set of payload kinds.
//!
//! Maps that travel on the wire (poll offsets, committed offsets) are held as
//! vectors of key/value pairs; a well-formed request carries each key once.
//! Every type has a mathematical view so that contracts can speak of message
//! contents as sequences of characters and integers.

use vstd::prelude::*;

verus! {

/// An envelope: who sent it, who it is for, and the payload.
#[derive(Clone, Debug)]
pub struct Message {
    pub src: String,
    pub dst: String,
    pub body: MessageBody,
}

/// The body of an envelope: an optional message id, an optional correlation
/// id, and the payload variant.
#[derive(Clone, Debug)]
pub struct MessageBody {
    pub id: Option<u64>,
    pub in_reply_to: Option<u64>,
    pub inner: InnerMessageBody,
}

/// The three shapes a read acknowledgment can take: the broadcast engine
/// answers with all known values, the counter engine with one integer, and
/// the key-value store with a string.
#[derive(Clone, Debug)]
pub enum ReadOkVariants {
    Array { messages: Vec<u64> },
    Single { value: u64 },
    Kv { value: String },
}

/// The part of the message that is specific to each kind of message.
#[derive(Clone, Debug)]
pub enum InnerMessageBody {
    Init { node_id: String, node_ids: Vec<String> },
    InitOk,
    Error { code: u16, text: Option<String> },
    Echo { echo: String },
    EchoOk { echo: String },
    Generate,
    GenerateOk { id: String },
    Broadcast { message: u64 },
    BroadcastOk,
    Read,
    ReadOk(ReadOkVariants),
    Topology { topology: Vec<(String, Vec<String>)> },
    TopologyOk,
    BatchBroadcast { messages: Vec<u64> },
    Add { delta: u64 },
    AddOk,
    ReadKv { key: String },
    WriteKv { key: String, value: String },
    WriteKvOk,
    CasKv { key: String, from: String, to: String, create_if_not_exists: bool },
    CasKvOk,
    Send { key: String, msg: u64 },
    SendOk { offset: u64 },
    Poll { offsets: Vec<(String, u64)> },
    PollOk { msgs: Vec<(String, Vec<(u64, u64)>)> },
    CommitOffsets { offsets: Vec<(String, u64)> },
    CommitOffsetsOk,
    ListCommittedOffsets { keys: Vec<String> },
    ListCommittedOffsetsOk { offsets: Vec<(String, u64)> },
}

/// Mathematical view of an envelope.
pub ghost struct MessageView {
    pub src: Seq<char>,
    pub dst: Seq<char>,
    pub body: MessageBodyView,
}

/// Mathematical view of a body.
pub ghost struct MessageBodyView {
    pub id: Option<u64>,
    pub in_reply_to: Option<u64>,
    pub inner: InnerBodyView,
}

/// Mathematical view of a read acknowledgment payload.
pub ghost enum ReadOkView {
    Array { messages: Seq<u64> },
    Single { value: u64 },
    Kv { value: Seq<char> },
}

/// Mathematical view of a payload.
pub ghost enum InnerBodyView {
    Init { node_id: Seq<char>, node_ids: Seq<Seq<char>> },
    InitOk,
    Error { code: u16, text: Option<Seq<char>> },
    Echo { echo: Seq<char> },
    EchoOk { echo: Seq<char> },
    Generate,
    GenerateOk { id: Seq<char> },
    Broadcast { message: u64 },
    BroadcastOk,
    Read,
    ReadOk(ReadOkView),
    Topology { topology: Seq<(Seq<char>, Seq<Seq<char>>)> },
    TopologyOk,
    BatchBroadcast { messages: Seq<u64> },
    Add { delta: u64 },
    AddOk,
    ReadKv { key: Seq<char> },
    WriteKv { key: Seq<char>, value: Seq<char> },
    WriteKvOk,
    CasKv { key: Seq<char>, from: Seq<char>, to: Seq<char>, create_if_not_exists: bool },
    CasKvOk,
    Send { key: Seq<char>, msg: u64 },
    SendOk { offset: u64 },
    Poll { offsets: Seq<(Seq<char>, u64)> },
    PollOk { msgs: Seq<(Seq<char>, Seq<(u64, u64)>)> },
    CommitOffsets { offsets: Seq<(Seq<char>, u64)> },
    CommitOffsetsOk,
    ListCommittedOffsets { keys: Seq<Seq<char>> },
    ListCommittedOffsetsOk { offsets: Seq<(Seq<char>, u64)> },
}

/// View of a sequence of strings as a sequence of character sequences.
pub open spec fn strs_view(s: Seq<String>) -> Seq<Seq<char>> {
    s.map_values(|x: String| x@)
}

/// View of key/value pairs with string keys and integer values.
pub open spec fn kvu_view(s: Seq<(String, u64)>) -> Seq<(Seq<char>, u64)> {
    s.map_values(|p: (String, u64)| (p.0@, p.1))
}

/// View of key/entry-list pairs as returned by a poll.
pub open spec fn kventries_view(s: Seq<(String, Vec<(u64, u64)>)>) -> Seq<(Seq<char>, Seq<(u64, u64)>)> {
    s.map_values(|p: (String, Vec<(u64, u64)>)| (p.0@, p.1@))
}

/// View of the suggested-topology pairs.
pub open spec fn topo_view(s: Seq<(String, Vec<String>)>) -> Seq<(Seq<char>, Seq<Seq<char>>)> {
    s.map_values(|p: (String, Vec<String>)| (p.0@, strs_view(p.1@)))
}

impl View for ReadOkVariants {
    type V = ReadOkView;

    open spec fn view(&self) -> ReadOkView {
        match self {
            ReadOkVariants::Array { messages } => ReadOkView::Array { messages: messages@ },
            ReadOkVariants::Single { value } => ReadOkView::Single { value: *value },
            ReadOkVariants::Kv { value } => ReadOkView::Kv { value: value@ },
        }
    }
}

impl View for InnerMessageBody {
    type V = InnerBodyView;

    open spec fn view(&self) -> InnerBodyView {
        match self {
            InnerMessageBody::Init { node_id, node_ids } => (InnerBodyView::Init {
                node_id: node_id@,
                node_ids: strs_view(node_ids@),
            }),
            InnerMessageBody::InitOk => InnerBodyView::InitOk,
            InnerMessageBody::Error { code, text } => (InnerBodyView::Error {
                code: *code,
                text: match text {
                    Some(t) => Some(t@),
                    None => None,
                },
            }),
            InnerMessageBody::Echo { echo } => InnerBodyView::Echo { echo: echo@ },
            InnerMessageBody::EchoOk { echo } => InnerBodyView::EchoOk { echo: echo@ },
            InnerMessageBody::Generate => InnerBodyView::Generate,
            InnerMessageBody::GenerateOk { id } => InnerBodyView::GenerateOk { id: id@ },
            InnerMessageBody::Broadcast { message } => (InnerBodyView::Broadcast {
                message: *message,
            }),
            InnerMessageBody::BroadcastOk => InnerBodyView::BroadcastOk,
            InnerMessageBody::Read => InnerBodyView::Read,
            InnerMessageBody::ReadOk(v) => InnerBodyView::ReadOk(v@),
            InnerMessageBody::Topology { topology } => (InnerBodyView::Topology {
                topology: topo_view(topology@),
            }),
            InnerMessageBody::TopologyOk => InnerBodyView::TopologyOk,
            InnerMessageBody::BatchBroadcast { messages } => (InnerBodyView::BatchBroadcast {
                messages: messages@,
            }),
            InnerMessageBody::Add { delta } => InnerBodyView::Add { delta: *delta },
            InnerMessageBody::AddOk => InnerBodyView::AddOk,
            InnerMessageBody::ReadKv { key } => InnerBodyView::ReadKv { key: key@ },
            InnerMessageBody::WriteKv { key, value } => (InnerBodyView::WriteKv {
                key: key@,
                value: value@,
            }),
            InnerMessageBody::WriteKvOk => InnerBodyView::WriteKvOk,
            InnerMessageBody::CasKv { key, from, to, create_if_not_exists } => (InnerBodyView::CasKv {
                key: key@,
                from: from@,
                to: to@,
                create_if_not_exists: *create_if_not_exists,
            }),
            InnerMessageBody::CasKvOk => InnerBodyView::CasKvOk,
            InnerMessageBody::Send { key, msg } => InnerBodyView::Send { key: key@, msg: *msg },
            InnerMessageBody::SendOk { offset } => InnerBodyView::SendOk { offset: *offset },
            InnerMessageBody::Poll { offsets } => (InnerBodyView::Poll {
                offsets: kvu_view(offsets@),
            }),
            InnerMessageBody::PollOk { msgs } => (InnerBodyView::PollOk {
                msgs: kventries_view(msgs@),
            }),
            InnerMessageBody::CommitOffsets { offsets } => (InnerBodyView::CommitOffsets {
                offsets: kvu_view(offsets@),
            }),
            InnerMessageBody::CommitOffsetsOk => InnerBodyView::CommitOffsetsOk,
            InnerMessageBody::ListCommittedOffsets { keys } => (InnerBodyView::ListCommittedOffsets {
                keys: strs_view(keys@),
            }),
            InnerMessageBody::ListCommittedOffsetsOk { offsets } => (InnerBodyView::ListCommittedOffsetsOk {
                offsets: kvu_view(offsets@),
            }),
        }
    }
}

impl View for MessageBody {
    type V = MessageBodyView;

    open spec fn view(&self) -> MessageBodyView {
        MessageBodyView { id: self.id, in_reply_to: self.in_reply_to, inner: self.inner@ }
    }
}

impl View for Message {
    type V = MessageView;

    open spec fn view(&self) -> MessageView {
        MessageView { src: self.src@, dst: self.dst@, body: self.body@ }
    }
}

impl MessageView {
    /// The view of a reply envelope: addressed back to `to`, sent by `from`,
    /// carrying a fresh id, correlated to `req_id`.
    pub open spec fn is_reply(
        self,
        from: Seq<char>,
        to: Seq<char>,
        id: u64,
        req_id: Option<u64>,
        inner: InnerBodyView,
    ) -> bool {
        &&& self.src == from
        &&& self.dst == to
        &&& self.body.id == Some(id)
        &&& self.body.in_reply_to == req_id
        &&& self.body.inner == inner
    }

    /// The view of a locally originated request: carries a fresh id and no
    /// correlation id.
    pub open spec fn is_request(
        self,
        from: Seq<char>,
        to: Seq<char>,
        id: u64,
        inner: InnerBodyView,
    ) -> bool {
        &&& self.src == from
        &&& self.dst == to
        &&& self.body.id == Some(id)
        &&& self.body.in_reply_to == None::<u64>
        &&& self.body.inner == inner
    }
}

} // verus!
