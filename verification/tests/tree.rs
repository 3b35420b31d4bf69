//! The shape of the dissemination tree, checked for several cluster sizes.

use dist_sys_challenge::topology::{FANOUT, compute_neighbors};

/// Zero-padded ids sort the same way numerically and lexicographically.
fn ids(n: usize) -> Vec<String> {
    (0..n).map(|i| format!("n{:03}", i)).collect()
}

fn index_of(nodes: &[String], name: &str) -> usize {
    nodes.iter().position(|x| x == name).unwrap()
}

#[test]
fn tree_shape_for_several_sizes() {
    for &n in &[1usize, 5, 13, 100] {
        let nodes = ids(n);
        // parents[c] = how many nodes list c among their children.
        let mut parent_count = vec![0usize; n];
        for me in 0..n {
            let nbrs = compute_neighbors(&nodes, me, FANOUT);
            let mut children: Vec<usize> = nbrs.iter().map(|s| index_of(&nodes, s)).collect();
            if me != 0 {
                // The parent stands first and is the smaller index.
                let p = children.remove(0);
                assert_eq!(p, (me - 1) / FANOUT);
                assert!(p < me);
            }
            // No node has more than FANOUT children.
            assert!(children.len() <= FANOUT);
            // The children are exactly the indices the tree assigns.
            let lo = FANOUT * me + 1;
            let expect: Vec<usize> = (lo..(lo + FANOUT).min(n)).collect();
            assert_eq!(children, expect);
            for &c in &children {
                parent_count[c] += 1;
            }
        }
        // Exactly one root: index 0 is nobody's child; every other node is
        // the child of exactly one parent.
        assert_eq!(parent_count[0], 0);
        for c in 1..n {
            assert_eq!(parent_count[c], 1, "node {} of {} parents", c, n);
        }
    }
}
