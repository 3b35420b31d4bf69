//! Echo, identifier generation, initialization, and the numeral helpers.

use dist_sys_challenge::msg::{InnerMessageBody, Message, MessageBody};
use dist_sys_challenge::node::{EchoNode, GuidNode, ProtocolError};
use dist_sys_challenge::strnum::{extract_first_number, parse_u64, sort_strings, str_le, u64_to_dec};

fn init_msg(node_id: &str, all: &[&str]) -> Message {
    Message {
        src: "c1".to_string(),
        dst: node_id.to_string(),
        body: MessageBody {
            id: Some(1),
            in_reply_to: None,
            inner: InnerMessageBody::Init {
                node_id: node_id.to_string(),
                node_ids: all.iter().map(|s| s.to_string()).collect(),
            },
        },
    }
}

#[test]
fn echo_round_trip() {
    let mut node = EchoNode::new();
    let reply = node.handle(init_msg("n1", &["n1", "n0"])).unwrap();
    assert_eq!(reply.src, "n1");
    assert_eq!(reply.dst, "c1");
    assert_eq!(reply.body.in_reply_to, Some(1));
    assert!(matches!(reply.body.inner, InnerMessageBody::InitOk));

    let echo = Message {
        src: "c1".to_string(),
        dst: "n1".to_string(),
        body: MessageBody {
            id: Some(2),
            in_reply_to: None,
            inner: InnerMessageBody::Echo { echo: "hello there".to_string() },
        },
    };
    let reply = node.handle(echo).unwrap();
    assert_eq!(reply.src, "n1");
    assert_eq!(reply.dst, "c1");
    assert_eq!(reply.body.in_reply_to, Some(2));
    match reply.body.inner {
        InnerMessageBody::EchoOk { echo } => assert_eq!(echo, "hello there"),
        other => panic!("wrong reply payload: {:?}", other),
    }
}

#[test]
fn double_init_refused() {
    let mut node = EchoNode::new();
    node.handle(init_msg("n1", &["n1"])).unwrap();
    let err = node.handle(init_msg("n1", &["n1"])).unwrap_err();
    assert_eq!(err, ProtocolError::AlreadyInitialized);
}

#[test]
fn unexpected_kind_refused() {
    let mut node = EchoNode::new();
    node.handle(init_msg("n1", &["n1"])).unwrap();
    let msg = Message {
        src: "c1".to_string(),
        dst: "n1".to_string(),
        body: MessageBody { id: Some(9), in_reply_to: None, inner: InnerMessageBody::Generate },
    };
    let err = node.handle(msg).unwrap_err();
    assert_eq!(err, ProtocolError::UnexpectedMessage);
}

#[test]
fn guid_combines_node_id_and_message_id() {
    let mut node = GuidNode::new();
    node.handle(init_msg("n3", &["n3", "n0"])).unwrap();
    let gen = Message {
        src: "c2".to_string(),
        dst: "n3".to_string(),
        body: MessageBody { id: Some(5), in_reply_to: None, inner: InnerMessageBody::Generate },
    };
    let reply = node.handle(gen).unwrap();
    // The init acknowledgment spent id 1, so this one carries id 2.
    assert_eq!(reply.body.id, Some(2));
    assert_eq!(reply.body.in_reply_to, Some(5));
    match reply.body.inner {
        InnerMessageBody::GenerateOk { id } => assert_eq!(id, "n3-2"),
        other => panic!("wrong reply payload: {:?}", other),
    }
}

#[test]
fn numeral_round_trip() {
    assert_eq!(u64_to_dec(0), "0");
    assert_eq!(u64_to_dec(907), "907");
    assert_eq!(u64_to_dec(u64::MAX), "18446744073709551615");
    assert_eq!(parse_u64("0"), Some(0));
    assert_eq!(parse_u64("907"), Some(907));
    assert_eq!(parse_u64("18446744073709551615"), Some(u64::MAX));
    assert_eq!(parse_u64("18446744073709551616"), None);
    assert_eq!(parse_u64(""), None);
    assert_eq!(parse_u64("12a"), None);
    assert_eq!(parse_u64("-3"), None);
}

#[test]
fn first_number_extraction() {
    assert_eq!(extract_first_number("current value is 42, not 41"), Some(42));
    assert_eq!(extract_first_number("703"), Some(703));
    assert_eq!(extract_first_number("no digits here"), None);
    assert_eq!(extract_first_number(""), None);
    assert_eq!(extract_first_number("v=99999999999999999999999 overflow"), None);
}

#[test]
fn lexicographic_sort() {
    let mut v: Vec<String> = ["n9", "n10", "alpha", "n2", ""]
        .iter()
        .map(|s| s.to_string())
        .collect();
    sort_strings(&mut v);
    assert_eq!(v, vec!["", "alpha", "n10", "n2", "n9"]);
    assert!(str_le("abc", "abd"));
    assert!(str_le("ab", "abc"));
    assert!(!str_le("b", "abc"));
}
