//! Gossip: deduplication, flushing, retry-until-ack, and full dissemination
//! over the tree when no message is lost.

use dist_sys_challenge::gossip::BroadcastNode;
use dist_sys_challenge::msg::{InnerMessageBody, Message, ReadOkVariants};

fn ids(n: usize) -> Vec<String> {
    (0..n).map(|i| format!("n{:03}", i)).collect()
}

/// Initialize a node and build its tree neighbors.
fn make_node(me: usize, n: usize) -> BroadcastNode {
    let nodes = ids(n);
    let mut node = BroadcastNode::new();
    node.core
        .handle_init(
            "c1".to_string(),
            nodes[me].clone(),
            Some(1),
            nodes[me].clone(),
            nodes.clone(),
        )
        .unwrap();
    node.handle_topology("c1".to_string(), nodes[me].clone(), Some(2)).unwrap();
    node
}

fn known_values(node: &mut BroadcastNode) -> Vec<u64> {
    let reply = node.handle_read("c9".to_string(), "nX".to_string(), Some(99));
    match reply.body.inner {
        InnerMessageBody::ReadOk(ReadOkVariants::Array { mut messages }) => {
            messages.sort();
            messages
        },
        other => panic!("wrong read reply: {:?}", other),
    }
}

#[test]
fn broadcast_acknowledges_and_records() {
    let mut node = make_node(0, 2);
    let reply = node.handle_broadcast("c1".to_string(), "n000".to_string(), Some(7), 42);
    assert!(matches!(reply.body.inner, InnerMessageBody::BroadcastOk));
    assert_eq!(reply.body.in_reply_to, Some(7));
    assert_eq!(known_values(&mut node), vec![42]);
}

#[test]
fn duplicate_gossip_changes_nothing() {
    let mut node = make_node(1, 3);
    let batch = vec![10u64, 20];
    node.handle_batch_broadcast("n000".to_string(), "n001".to_string(), Some(3), batch.clone());
    assert_eq!(known_values(&mut node), vec![10, 20]);
    // Flush what the first delivery owed onward, so the batches are empty.
    node.flush();
    let parked = node.retry_messages().len();
    // The same batch again: already known, so nothing new is owed.
    node.handle_batch_broadcast("n000".to_string(), "n001".to_string(), Some(4), batch);
    assert_eq!(known_values(&mut node), vec![10, 20]);
    node.flush();
    assert_eq!(node.retry_messages().len(), parked);
}

#[test]
fn retry_until_acknowledged() {
    // Root of a two-node tree: one neighbor (its child).
    let mut node = make_node(0, 2);
    node.handle_broadcast("c1".to_string(), "n000".to_string(), Some(5), 7);
    let start = node.flush();
    assert_eq!(start, 0);
    assert_eq!(node.retry_messages().len(), 1);
    let (id, gossip) = {
        let entries = node.retry_messages();
        (entries[0].0, entries[0].1.clone())
    };
    assert_eq!(gossip.dst, "n001");
    assert!(matches!(gossip.body.inner, InnerMessageBody::BatchBroadcast { .. }));
    // Every retry tick re-emits exactly the set: the entry is still there,
    // unchanged, as often as we look.
    for _ in 0..3 {
        let entries = node.retry_messages();
        assert_eq!(entries.len(), 1);
        assert_eq!(entries[0].0, id);
    }
    // A late or duplicate acknowledgment for some other id changes nothing.
    node.ack(id + 100);
    assert_eq!(node.retry_messages().len(), 1);
    // The acknowledgment withdraws it; afterwards it is never retried again.
    node.ack(id);
    assert_eq!(node.retry_messages().len(), 0);
    node.flush();
    assert_eq!(node.retry_messages().len(), 0);
}

/// A value broadcast at one node reaches every node through the tree when
/// nothing is lost, and re-broadcasting it grows no known set further.
#[test]
fn full_dissemination_without_loss() {
    let n = 13;
    let mut cluster: Vec<BroadcastNode> = (0..n).map(|me| make_node(me, n)).collect();
    let names = ids(n);
    let find = |name: &str| names.iter().position(|x| x == name).unwrap();

    // A client broadcasts at a mid-tree node.
    cluster[5].handle_broadcast("c1".to_string(), names[5].clone(), Some(1), 4242);

    // Rounds of: flush every node, deliver every newly flushed gossip
    // message, acknowledge it back, until nothing moves any more.
    for _ in 0..8 {
        let mut deliveries: Vec<Message> = Vec::new();
        for node in cluster.iter_mut() {
            let start = node.flush();
            let entries = node.retry_messages();
            for k in start..entries.len() {
                deliveries.push(entries[k].1.clone());
            }
        }
        for m in deliveries {
            let to = find(&m.dst);
            let from_name = m.src.clone();
            let req = m.body.id;
            let values = match m.body.inner {
                InnerMessageBody::BatchBroadcast { messages } => messages,
                other => panic!("unexpected gossip kind: {:?}", other),
            };
            let reply = cluster[to].handle_batch_broadcast(
                from_name.clone(),
                m.dst.clone(),
                req,
                values,
            );
            // Route the acknowledgment back to the sender.
            let sender = find(&from_name);
            cluster[sender].ack(reply.body.in_reply_to.unwrap());
        }
    }

    for me in 0..n {
        assert_eq!(known_values(&mut cluster[me]), vec![4242], "node {}", me);
        assert_eq!(cluster[me].retry_messages().len(), 0, "node {}", me);
    }

    // Idempotence: the same value delivered again anywhere grows nothing.
    let before: Vec<Vec<u64>> = (0..n).map(|me| known_values(&mut cluster[me])).collect();
    cluster[0].handle_batch_broadcast("n001".to_string(), names[0].clone(), Some(9), vec![4242]);
    cluster[5].handle_broadcast("c1".to_string(), names[5].clone(), Some(10), 4242);
    for me in 0..n {
        assert_eq!(known_values(&mut cluster[me]), before[me]);
    }
}

/// The tree is built from the sorted node list, whatever order the
/// initialization announced them in.
#[test]
fn topology_uses_the_sorted_node_list() {
    let mut node = BroadcastNode::new();
    // Announced out of order; this node is the root of the sorted list.
    node.core
        .handle_init(
            "c1".to_string(),
            "a0".to_string(),
            Some(1),
            "a0".to_string(),
            vec!["b1".to_string(), "a0".to_string(), "c2".to_string()],
        )
        .unwrap();
    node.handle_topology("c1".to_string(), "a0".to_string(), Some(2)).unwrap();
    // Index 0 of ["a0", "b1", "c2"]: no parent, children are the rest.
    node.handle_broadcast("c1".to_string(), "a0".to_string(), Some(3), 5);
    node.flush();
    let mut dsts: Vec<String> =
        node.retry_messages().iter().map(|(_, m)| m.dst.clone()).collect();
    dsts.sort();
    assert_eq!(dsts, vec!["b1".to_string(), "c2".to_string()]);
}

/// A topology request before initialization is a protocol violation.
#[test]
fn topology_before_init_refused() {
    let mut node = BroadcastNode::new();
    let err = node.handle_topology("c1".to_string(), "n0".to_string(), Some(1)).unwrap_err();
    assert_eq!(err, dist_sys_challenge::node::ProtocolError::UnexpectedMessage);
}
