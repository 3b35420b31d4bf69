//! The dissemination tree.
//!
//! A node ignores the topology suggested from outside and derives its own
//! neighbors from the sorted list of all node ids: with fanout `f`, the
//! children of the node at index `i` are the nodes at indices
//! `f*i + 1 .. min(f*i + 1 + f, n)`, and the parent of a node at index
//! `i > 0` is the node at index `(i - 1) / f`. Index 0 is the root.

use vstd::prelude::*;
use vstd::arithmetic::div_mod::lemma_fundamental_div_mod;
use vstd::arithmetic::div_mod::lemma_fundamental_div_mod_converse_div;
use vstd::arithmetic::div_mod::lemma_mod_bound;

verus! {

/// The fanout of the dissemination tree.
pub const FANOUT: usize = 4;

/// The parent of the node at index `i > 0`.
pub open spec fn parent_index(i: int, f: int) -> int {
    (i - 1) / f
}

/// Is the index `c` a child of the index `p`?
pub open spec fn is_child(c: int, p: int, f: int) -> bool {
    f * p + 1 <= c <= f * p + f
}

/// How many children the node at index `i` has, among `n` nodes.
pub open spec fn child_count(i: int, f: int, n: int) -> int {
    let lo = f * i + 1;
    if lo >= n {
        0
    } else if lo + f <= n {
        f
    } else {
        n - lo
    }
}

/// The indices a node at index `i` gossips to: its parent (when it is not
/// the root), then its children in order.
pub open spec fn neighbor_indices(i: int, f: int, n: int) -> Seq<int> {
    let children = Seq::new(child_count(i, f, n) as nat, |k: int| f * i + 1 + k);
    if i == 0 {
        children
    } else {
        seq![parent_index(i, f)] + children
    }
}

/// The parent index is what integer division says it is, and conversely.
proof fn lemma_parent_iff_child(c: int, p: int, f: int)
    requires
        1 <= f,
        1 <= c,
        0 <= p,
    ensures
        parent_index(c, f) == p <==> is_child(c, p, f),
{
    lemma_fundamental_div_mod(c - 1, f);
    lemma_mod_bound(c - 1, f);
    assert(f * p == p * f) by (nonlinear_arith);
    assert(f * ((c - 1) / f) == ((c - 1) / f) * f) by (nonlinear_arith);
    if is_child(c, p, f) {
        // `c - 1` lies in `[f*p, f*p + f)`, so its quotient by `f` is `p`.
        lemma_fundamental_div_mod_converse_div(c - 1, f, p, c - 1 - f * p);
    }
}

/// The shape of the dissemination tree over indices `0 .. n`: the root is
/// the one index without a parent; every other index has exactly one parent,
/// which is strictly smaller (so following parents always reaches the root);
/// `c` is a child of `p` exactly when `p` is the parent of `c`; and no index
/// has more than `f` children.
pub proof fn lemma_tree_shape(n: int, f: int)
    requires
        1 <= f,
        1 <= n,
    ensures
        forall|c: int| 1 <= c < n ==> 0 <= #[trigger] parent_index(c, f) < c,
        forall|p: int, c: int|
            0 <= p < n && 1 <= c < n ==> (parent_index(c, f) == p <==> #[trigger] is_child(c, p, f)),
        forall|p: int| 0 <= p < n ==> #[trigger] child_count(p, f, n) <= f,
{
    assert forall|c: int| 1 <= c < n implies 0 <= #[trigger] parent_index(c, f) < c by {
        lemma_fundamental_div_mod(c - 1, f);
        lemma_mod_bound(c - 1, f);
        let q = (c - 1) / f;
        assert(f * q <= c - 1);
        assert(q <= f * q) by (nonlinear_arith)
            requires 0 <= q && 1 <= f;
    }
    assert forall|p: int, c: int| 0 <= p < n && 1 <= c < n implies (parent_index(c, f) == p
        <==> #[trigger] is_child(c, p, f)) by {
        lemma_parent_iff_child(c, p, f);
    }
}

/// The neighbor list of the node at index `me`, out of the sorted node list:
/// the parent first (absent for the root), then the children in index order.
pub fn compute_neighbors(nodes: &Vec<String>, me: usize, fanout: usize) -> (r: Vec<String>)
    requires
        me < nodes@.len(),
        1 <= fanout,
    ensures
        r@.len() == neighbor_indices(me as int, fanout as int, nodes@.len() as int).len(),
        forall|k: int|
            0 <= k < r@.len() ==> #[trigger] r@[k]@ == nodes@[neighbor_indices(
                me as int,
                fanout as int,
                nodes@.len() as int,
            )[k]]@,
        r@.len() <= fanout + 1,
{
    let nlen = nodes.len();
    let ghost f = fanout as int;
    let ghost n = nlen as int;
    let ghost idxs = neighbor_indices(me as int, f, n);
    let mut r: Vec<String> = Vec::new();
    if me != 0 {
        let p = (me - 1) / fanout;
        proof {
            lemma_fundamental_div_mod(me - 1, f);
            lemma_mod_bound(me - 1, f);
            let q = (me - 1) as int / f;
            assert(f * q <= me - 1);
            assert(q <= f * q) by (nonlinear_arith)
                requires 0 <= q && 1 <= f;
            assert(idxs[0] == p);
        }
        r.push(nodes[p].clone());
    }
    let lo = match fanout.checked_mul(me) {
        Some(x) => match x.checked_add(1) {
            Some(lo) => lo,
            None => {
                proof { assert(child_count(me as int, f, n) == 0); }
                return r;
            },
        },
        None => {
            proof { assert(child_count(me as int, f, n) == 0); }
            return r;
        },
    };
    let hi = match lo.checked_add(fanout) {
        Some(x) => if x < nlen { x } else { nlen },
        None => nlen,
    };
    let ghost base = r@.len() as int;
    proof {
        assert(idxs.len() == base + child_count(me as int, f, n));
        if lo < nlen {
            assert(hi - lo == child_count(me as int, f, n));
        } else {
            assert(child_count(me as int, f, n) == 0);
            assert(hi <= lo);
        }
    }
    let mut c = lo;
    while c < hi
        invariant
            lo <= c,
            c <= hi || hi < lo,
            hi < lo ==> c == lo,
            hi <= nlen,
            n == nlen as int,
            nlen == nodes@.len(),
            lo == f * me + 1,
            lo < nlen ==> hi - lo == child_count(me as int, f, n),
            lo >= nlen ==> hi <= lo && child_count(me as int, f, n) == 0,
            base + child_count(me as int, f, n) == idxs.len(),
            r@.len() == base + (c - lo),
            forall|m: int| 0 <= m < r@.len() ==> #[trigger] r@[m]@ == nodes@[idxs[m]]@,
            forall|m: int| base <= m < idxs.len() ==> idxs[m] == lo + m - base,
        decreases hi - c,
    {
        r.push(nodes[c].clone());
        c = c + 1;
    }
    r
}


/// The index reached from `c` after following `k` parent steps.
pub open spec fn ancestor(c: int, f: int, k: nat) -> int
    decreases k,
{
    if k == 0 {
        c
    } else {
        parent_index(ancestor(c, f, (k - 1) as nat), f)
    }
}

/// Following one parent first and `k` more is following `k + 1`.
proof fn lemma_ancestor_shift(c: int, f: int, k: nat)
    ensures
        ancestor(c, f, k + 1) == ancestor(parent_index(c, f), f, k),
    decreases k,
{
    if k == 0 {
        assert(ancestor(c, f, 1) == parent_index(ancestor(c, f, 0), f));
        assert(ancestor(c, f, 0) == c);
        assert(ancestor(parent_index(c, f), f, 0) == parent_index(c, f));
    } else {
        lemma_ancestor_shift(c, f, (k - 1) as nat);
        assert(ancestor(c, f, k + 1) == parent_index(ancestor(c, f, k), f));
        assert(ancestor(parent_index(c, f), f, k) == parent_index(
            ancestor(parent_index(c, f), f, (k - 1) as nat),
            f,
        ));
    }
}

/// The tree is spanning: from every index, following parents reaches the
/// root — so a value at the root's position can reach every node down the
/// child edges, and every node's gossip has a path up to the root.
pub proof fn lemma_parents_reach_root(c: int, f: int, n: int)
    requires
        1 <= f,
        0 <= c < n,
    ensures
        exists|k: nat| ancestor(c, f, k) == 0,
    decreases c,
{
    if c == 0 {
        assert(ancestor(0, f, 0) == 0);
    } else {
        lemma_fundamental_div_mod(c - 1, f);
        lemma_mod_bound(c - 1, f);
        let p = parent_index(c, f);
        assert(f * p <= c - 1);
        assert(p <= f * p) by (nonlinear_arith)
            requires 0 <= p && 1 <= f;
        lemma_parents_reach_root(p, f, n);
        let k = choose|k: nat| ancestor(p, f, k) == 0;
        lemma_ancestor_shift(c, f, k);
        assert(ancestor(c, f, k + 1) == 0);
    }
}

} // verus!
