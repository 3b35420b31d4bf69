//! The replicated counter: adds land exactly once through the
//! compare-and-swap retry loop, adds of zero never touch the store, and two
//! nodes converge on the same total.

use dist_sys_challenge::counter::CounterNode;
use dist_sys_challenge::msg::{InnerMessageBody, Message, MessageBody, ReadOkVariants};

/// A sequentially consistent key-value store, as the harness would run it.
struct Store {
    data: Vec<(String, String)>,
}

impl Store {
    fn new() -> Store {
        Store { data: Vec::new() }
    }

    fn get(&self, key: &str) -> Option<String> {
        self.data.iter().find(|(k, _)| k == key).map(|(_, v)| v.clone())
    }

    fn put(&mut self, key: &str, value: String) {
        for e in self.data.iter_mut() {
            if e.0 == key {
                e.1 = value;
                return;
            }
        }
        self.data.push((key.to_string(), value));
    }

    /// Answer one request addressed to the store.
    fn answer(&mut self, m: &Message) -> Message {
        assert_eq!(m.dst, "seq-kv");
        let inner = match &m.body.inner {
            InnerMessageBody::ReadKv { key } => match self.get(key) {
                Some(v) => InnerMessageBody::ReadOk(ReadOkVariants::Kv { value: v }),
                None => InnerMessageBody::Error {
                    code: 20,
                    text: Some("key does not exist".to_string()),
                },
            },
            InnerMessageBody::WriteKv { key, value } => {
                self.put(key, value.clone());
                InnerMessageBody::WriteKvOk
            },
            InnerMessageBody::CasKv { key, from, to, create_if_not_exists } => {
                match self.get(key) {
                    Some(cur) => {
                        if &cur == from {
                            self.put(key, to.clone());
                            InnerMessageBody::CasKvOk
                        } else {
                            InnerMessageBody::Error {
                                code: 22,
                                text: Some(format!(
                                    "current value {} is not {}",
                                    cur, from
                                )),
                            }
                        }
                    },
                    None => {
                        if *create_if_not_exists {
                            self.put(key, to.clone());
                            InnerMessageBody::CasKvOk
                        } else {
                            InnerMessageBody::Error {
                                code: 20,
                                text: Some("key does not exist".to_string()),
                            }
                        }
                    },
                }
            },
            other => panic!("store got unexpected request: {:?}", other),
        };
        Message {
            src: "seq-kv".to_string(),
            dst: m.src.clone(),
            body: MessageBody { id: None, in_reply_to: m.body.id, inner },
        }
    }
}

/// Feed messages through node and store until nothing is in flight; returns
/// every message addressed to anyone but the store (the client replies).
fn settle(node: &mut CounterNode, store: &mut Store, mut queue: Vec<Message>) -> Vec<Message> {
    let mut client_replies = Vec::new();
    let mut guard = 0;
    while let Some(m) = queue.pop() {
        guard += 1;
        assert!(guard < 1000, "message loop did not settle");
        if m.dst == "seq-kv" {
            let reply = store.answer(&m);
            let more = node.on_reply(reply).unwrap();
            queue.extend(more);
        } else {
            client_replies.push(m);
        }
    }
    client_replies
}

fn make_node(name: &str, all: &[&str], store: &mut Store) -> CounterNode {
    let mut node = CounterNode::new();
    let msgs = node
        .handle_init(
            "c0".to_string(),
            name.to_string(),
            Some(1),
            name.to_string(),
            all.iter().map(|s| s.to_string()).collect(),
        )
        .unwrap();
    // The seed swap and the initialization acknowledgment.
    assert_eq!(msgs.len(), 2);
    let replies = settle(&mut node, store, msgs);
    // Only the InitOk goes anywhere but the store.
    assert_eq!(replies.len(), 1);
    assert!(matches!(replies[0].body.inner, InnerMessageBody::InitOk));
    node
}

fn read_value(node: &mut CounterNode, store: &mut Store) -> u64 {
    let msgs = node.handle_read("c9".to_string(), "nX".to_string(), Some(77));
    let replies = settle(node, store, msgs);
    assert_eq!(replies.len(), 1);
    match &replies[0].body.inner {
        InnerMessageBody::ReadOk(ReadOkVariants::Single { value }) => *value,
        other => panic!("wrong read reply: {:?}", other),
    }
}

#[test]
fn add_zero_never_contacts_store() {
    let mut store = Store::new();
    let mut node = make_node("n0", &["n0"], &mut store);
    let outstanding = node.retry_messages().len();
    let msgs = node.handle_add("c1".to_string(), "n0".to_string(), Some(4), 0);
    // One message: the immediate acknowledgment to the client — no store
    // request, nothing new awaiting a reply.
    assert_eq!(msgs.len(), 1);
    assert_eq!(msgs[0].dst, "c1");
    assert!(matches!(msgs[0].body.inner, InnerMessageBody::AddOk));
    assert_eq!(msgs[0].body.in_reply_to, Some(4));
    assert_eq!(node.retry_messages().len(), outstanding);
    assert_eq!(read_value(&mut node, &mut store), 0);
}

#[test]
fn adds_sum_up() {
    let mut store = Store::new();
    let mut node = make_node("n0", &["n0"], &mut store);
    for delta in [3u64, 4, 0, 10] {
        let msgs = node.handle_add("c1".to_string(), "n0".to_string(), Some(8), delta);
        let replies = settle(&mut node, &mut store, msgs);
        assert_eq!(replies.len(), 1);
        assert!(matches!(replies[0].body.inner, InnerMessageBody::AddOk));
    }
    assert_eq!(read_value(&mut node, &mut store), 17);
}

#[test]
fn conflicting_swap_is_retried_with_the_embedded_value() {
    let mut store = Store::new();
    let mut node = make_node("n0", &["n0", "n1"], &mut store);
    // Ask for an add, but interfere after the node has read the old value.
    let msgs = node.handle_add("c1".to_string(), "n0".to_string(), Some(5), 4);
    assert_eq!(msgs.len(), 1);
    let read_req = &msgs[0];
    assert_eq!(read_req.dst, "seq-kv");
    let read_reply = store.answer(read_req);
    // Someone else moves the counter before the swap lands.
    store.put("counter", "3".to_string());
    let cas1 = node.on_reply(read_reply).unwrap();
    assert_eq!(cas1.len(), 1);
    let conflict = store.answer(&cas1[0]);
    match &conflict.body.inner {
        InnerMessageBody::Error { code: 22, .. } => {},
        other => panic!("expected a swap conflict, got {:?}", other),
    }
    // The conflict text names the current value; the node retries from it.
    let cas2 = node.on_reply(conflict).unwrap();
    assert_eq!(cas2.len(), 1);
    match &cas2[0].body.inner {
        InnerMessageBody::CasKv { from, to, .. } => {
            assert_eq!(from, "3");
            assert_eq!(to, "7");
        },
        other => panic!("expected a swap, got {:?}", other),
    }
    let ok = store.answer(&cas2[0]);
    let done = node.on_reply(ok).unwrap();
    assert_eq!(done.len(), 1);
    assert!(matches!(done[0].body.inner, InnerMessageBody::AddOk));
    assert_eq!(read_value(&mut node, &mut store), 7);
}

#[test]
fn two_nodes_converge_on_the_total() {
    let mut store = Store::new();
    let mut n0 = make_node("n0", &["n0", "n1"], &mut store);
    let mut n1 = make_node("n1", &["n0", "n1"], &mut store);
    let msgs = n0.handle_add("c1".to_string(), "n0".to_string(), Some(2), 3);
    settle(&mut n0, &mut store, msgs);
    let msgs = n0.handle_add("c1".to_string(), "n0".to_string(), Some(3), 4);
    settle(&mut n0, &mut store, msgs);
    assert_eq!(read_value(&mut n0, &mut store), 7);
    assert_eq!(read_value(&mut n1, &mut store), 7);
}

#[test]
fn late_reply_is_ignored() {
    let mut store = Store::new();
    let mut node = make_node("n0", &["n0"], &mut store);
    let before = node.retry_messages().len();
    let stray = Message {
        src: "seq-kv".to_string(),
        dst: "n0".to_string(),
        body: MessageBody {
            id: None,
            in_reply_to: Some(987),
            inner: InnerMessageBody::CasKvOk,
        },
    };
    let msgs = node.on_reply(stray).unwrap();
    assert!(msgs.is_empty());
    assert_eq!(node.retry_messages().len(), before);
}

#[test]
fn conflict_without_a_readable_value_is_fatal() {
    let mut store = Store::new();
    let mut node = make_node("n0", &["n0"], &mut store);
    let msgs = node.handle_add("c1".to_string(), "n0".to_string(), Some(5), 4);
    let read_reply = store.answer(&msgs[0]);
    let cas = node.on_reply(read_reply).unwrap();
    let conflict = Message {
        src: "seq-kv".to_string(),
        dst: "n0".to_string(),
        body: MessageBody {
            id: None,
            in_reply_to: cas[0].body.id,
            inner: InnerMessageBody::Error { code: 22, text: Some("no digits at all".to_string()) },
        },
    };
    let err = node.on_reply(conflict).unwrap_err();
    assert_eq!(err, dist_sys_challenge::node::ProtocolError::StoreFault);
}

#[test]
fn other_store_errors_are_fatal() {
    let mut store = Store::new();
    let mut node = make_node("n0", &["n0"], &mut store);
    let msgs = node.handle_add("c1".to_string(), "n0".to_string(), Some(5), 4);
    let stray = Message {
        src: "seq-kv".to_string(),
        dst: "n0".to_string(),
        body: MessageBody {
            id: None,
            in_reply_to: msgs[0].body.id,
            inner: InnerMessageBody::Error { code: 13, text: Some("crashed".to_string()) },
        },
    };
    let err = node.on_reply(stray).unwrap_err();
    assert_eq!(err, dist_sys_challenge::node::ProtocolError::UnexpectedMessage);
}

#[test]
fn unreadable_counter_value_is_fatal() {
    let mut store = Store::new();
    let mut node = make_node("n0", &["n0"], &mut store);
    store.put("counter", "not a number".to_string());
    let msgs = node.handle_add("c1".to_string(), "n0".to_string(), Some(5), 4);
    let read_reply = store.answer(&msgs[0]);
    let err = node.on_reply(read_reply).unwrap_err();
    assert_eq!(err, dist_sys_challenge::node::ProtocolError::StoreFault);
}
