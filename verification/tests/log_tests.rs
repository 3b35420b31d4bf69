//! The partitioned log: offsets count up from zero, polls answer from the
//! requested offset up to one page, commits are last-write-wins, and unknown
//! keys are omitted everywhere.

use dist_sys_challenge::log::LogNode;
use dist_sys_challenge::msg::InnerMessageBody;

fn make_node() -> LogNode {
    let mut node = LogNode::new();
    node.core
        .handle_init(
            "c0".to_string(),
            "n0".to_string(),
            Some(1),
            "n0".to_string(),
            vec!["n0".to_string()],
        )
        .unwrap();
    node
}

fn send(node: &mut LogNode, key: &str, value: u64) -> u64 {
    let reply = node
        .handle_send("c1".to_string(), "n0".to_string(), Some(2), key.to_string(), value)
        .unwrap();
    match reply.body.inner {
        InnerMessageBody::SendOk { offset } => offset,
        other => panic!("wrong send reply: {:?}", other),
    }
}

fn poll(node: &mut LogNode, wants: &[(&str, u64)]) -> Vec<(String, Vec<(u64, u64)>)> {
    let offsets = wants.iter().map(|(k, o)| (k.to_string(), *o)).collect();
    let reply = node.handle_poll("c1".to_string(), "n0".to_string(), Some(3), offsets);
    match reply.body.inner {
        InnerMessageBody::PollOk { msgs } => msgs,
        other => panic!("wrong poll reply: {:?}", other),
    }
}

#[test]
fn offsets_count_up_and_polls_page() {
    let mut node = make_node();
    assert_eq!(send(&mut node, "k", 100), 0);
    assert_eq!(send(&mut node, "k", 200), 1);
    // A second key has offsets of its own.
    assert_eq!(send(&mut node, "other", 900), 0);

    let msgs = poll(&mut node, &[("k", 0)]);
    assert_eq!(msgs, vec![("k".to_string(), vec![(0, 100), (1, 200)])]);

    // From a later offset: only what lies at or after it.
    let msgs = poll(&mut node, &[("k", 1)]);
    assert_eq!(msgs, vec![("k".to_string(), vec![(1, 200)])]);

    // From past the end: the key answers with nothing.
    let msgs = poll(&mut node, &[("k", 2)]);
    assert_eq!(msgs, vec![("k".to_string(), vec![])]);

    // A key never seen is omitted, not an error and not an empty entry.
    let msgs = poll(&mut node, &[("nobody", 0)]);
    assert!(msgs.is_empty());
}

#[test]
fn polls_are_cut_to_one_page() {
    let mut node = make_node();
    for v in 0..25u64 {
        assert_eq!(send(&mut node, "k", v * 10), v);
    }
    let msgs = poll(&mut node, &[("k", 0)]);
    assert_eq!(msgs.len(), 1);
    let entries = &msgs[0].1;
    assert_eq!(entries.len(), 20);
    assert_eq!(entries[0], (0, 0));
    assert_eq!(entries[19], (19, 190));
    // The next poll picks up where the page ended.
    let msgs = poll(&mut node, &[("k", 20)]);
    assert_eq!(msgs[0].1.len(), 5);
    assert_eq!(msgs[0].1[0], (20, 200));
}

#[test]
fn commit_and_list_committed() {
    let mut node = make_node();
    send(&mut node, "k", 1);
    send(&mut node, "k", 2);
    let reply = node.handle_commit_offsets(
        "c1".to_string(),
        "n0".to_string(),
        Some(4),
        vec![("k".to_string(), 1), ("unknown".to_string(), 5)],
    );
    assert!(matches!(reply.body.inner, InnerMessageBody::CommitOffsetsOk));

    let reply = node.handle_list_committed_offsets(
        "c1".to_string(),
        "n0".to_string(),
        Some(5),
        vec!["k".to_string(), "unknown".to_string()],
    );
    match reply.body.inner {
        InnerMessageBody::ListCommittedOffsetsOk { offsets } => {
            assert_eq!(offsets, vec![("k".to_string(), 1)]);
        },
        other => panic!("wrong list reply: {:?}", other),
    }
}

#[test]
fn commit_is_last_write_wins() {
    let mut node = make_node();
    send(&mut node, "k", 1);
    node.handle_commit_offsets(
        "c1".to_string(),
        "n0".to_string(),
        Some(4),
        vec![("k".to_string(), 7), ("k".to_string(), 2)],
    );
    // A later, smaller commit overwrites: no monotonicity is enforced.
    let reply = node.handle_list_committed_offsets(
        "c1".to_string(),
        "n0".to_string(),
        Some(5),
        vec!["k".to_string()],
    );
    match reply.body.inner {
        InnerMessageBody::ListCommittedOffsetsOk { offsets } => {
            assert_eq!(offsets, vec![("k".to_string(), 2)]);
        },
        other => panic!("wrong list reply: {:?}", other),
    }
}
