//! The shape of the node arena: parent edges, depths, ancestor chains.
//!
//! Every node carries its depth — the length of its parent chain — and the
//! well-formedness predicate ties each node's depth to its parent's. The
//! depth field is what makes the arena demonstrably acyclic: a parent chain
//! strictly decreases it, so every walk up the tree terminates.

use vstd::prelude::*;

use crate::config_data::ConfigInput;

verus! {

/// A node's source handle: either the client layer (which never sits in the
/// tree) or the configuration file it was created for.
#[derive(Clone, Copy, Debug, PartialEq, Eq, Structural)]
pub enum ConfigSource {
    ClientConfig,
    RaToml(u32),
}

/// The tree payload of one arena entry.
#[derive(Clone, Copy, Debug)]
pub struct ConfigNode {
    /// What this node stands for.
    pub src: ConfigSource,
    /// The node's own parsed input, if any.
    pub input: Option<ConfigInput>,
    /// The parent edge; `None` for a root.
    pub parent: Option<usize>,
    /// Length of the parent chain above this node.
    pub depth: usize,
    /// Key of this node's slot in the computed slot table.
    pub computed: usize,
}

/// One node's local well-formedness: a root has depth zero, any other node
/// sits exactly one level below its parent.
pub open spec fn node_shape_wf(nodes: Seq<ConfigNode>, i: int) -> bool {
    match nodes[i].parent {
        None => nodes[i].depth == 0,
        Some(p) => 0 <= p < nodes.len() && nodes[p as int].depth + 1 == nodes[i].depth,
    }
}

/// Arena-wide shape well-formedness.
pub open spec fn shape_wf(nodes: Seq<ConfigNode>) -> bool {
    forall|i: int| 0 <= i < nodes.len() ==> #[trigger] node_shape_wf(nodes, i)
}

/// Whether `anc` lies on the parent chain of `i` (including `i` itself).
pub open spec fn in_chain(nodes: Seq<ConfigNode>, anc: int, i: int) -> bool
    decreases nodes[i].depth,
        when shape_wf(nodes) && 0 <= i < nodes.len()
{
    if i == anc {
        true
    } else {
        proof {
            assert(node_shape_wf(nodes, i));
        }
        match nodes[i].parent {
            Some(p) => in_chain(nodes, anc, p as int),
            None => false,
        }
    }
}

/// The parent chain of `i`, starting at `i` and ending at its root.
pub open spec fn chain_seq(nodes: Seq<ConfigNode>, i: int) -> Seq<int>
    decreases nodes[i].depth,
        when shape_wf(nodes) && 0 <= i < nodes.len()
{
    proof {
        assert(node_shape_wf(nodes, i));
    }
    match nodes[i].parent {
        Some(p) => seq![i] + chain_seq(nodes, p as int),
        None => seq![i],
    }
}

/// How many parent edges separate `i` from its ancestor `anc`.
pub open spec fn steps_to(nodes: Seq<ConfigNode>, anc: int, i: int) -> int
    decreases nodes[i].depth,
        when shape_wf(nodes) && 0 <= i < nodes.len()
{
    if i == anc {
        0
    } else {
        proof {
            assert(node_shape_wf(nodes, i));
        }
        match nodes[i].parent {
            Some(p) => 1 + steps_to(nodes, anc, p as int),
            None => 0,
        }
    }
}

/// The chain of a node lists exactly its ancestors, with strictly
/// decreasing depths, one depth per position.
pub proof fn lemma_chain_props(nodes: Seq<ConfigNode>, i: int)
    requires
        shape_wf(nodes),
        0 <= i < nodes.len(),
    ensures
        chain_seq(nodes, i).len() == nodes[i].depth + 1,
        chain_seq(nodes, i)[0] == i,
        forall|k: int| 0 <= k < chain_seq(nodes, i).len() ==> {
            &&& 0 <= #[trigger] chain_seq(nodes, i)[k] < nodes.len()
            &&& nodes[chain_seq(nodes, i)[k]].depth == nodes[i].depth - k
        },
        forall|x: int| in_chain(nodes, x, i) <==> chain_seq(nodes, i).contains(x),
        chain_seq(nodes, i).no_duplicates(),
    decreases nodes[i].depth,
{
    assert(node_shape_wf(nodes, i));
    match nodes[i].parent {
        Some(p) => {
            lemma_chain_props(nodes, p as int);
            let c = chain_seq(nodes, i);
            let cp = chain_seq(nodes, p as int);
            assert(c == seq![i] + cp);
            assert forall|k: int| 0 <= k < c.len() implies {
                &&& 0 <= #[trigger] c[k] < nodes.len()
                &&& nodes[c[k]].depth == nodes[i].depth - k
            } by {
                if k > 0 {
                    assert(c[k] == cp[k - 1]);
                }
            }
            assert forall|x: int| in_chain(nodes, x, i) <==> c.contains(x) by {
                if x == i {
                    assert(in_chain(nodes, x, i));
                    assert(c[0] == x);
                    assert(c.contains(x));
                } else {
                    assert(in_chain(nodes, x, i) == in_chain(nodes, x, p as int));
                    if cp.contains(x) {
                        let k = choose|k: int| 0 <= k < cp.len() && cp[k] == x;
                        assert(c[k + 1] == x);
                        assert(c.contains(x));
                    }
                    if c.contains(x) {
                        let k = choose|k: int| 0 <= k < c.len() && c[k] == x;
                        assert(k != 0);
                        assert(cp[k - 1] == x);
                        assert(cp.contains(x));
                    }
                }
            }
            assert(c.no_duplicates()) by {
                assert forall|k1: int, k2: int|
                    0 <= k1 < c.len() && 0 <= k2 < c.len() && k1 != k2 implies c[k1] != c[k2] by {
                    assert(nodes[c[k1]].depth == nodes[i].depth - k1);
                    assert(nodes[c[k2]].depth == nodes[i].depth - k2);
                }
            }
        },
        None => {
            let c = chain_seq(nodes, i);
            assert(c == seq![i]);
            assert forall|x: int| in_chain(nodes, x, i) <==> c.contains(x) by {
                if x == i {
                    assert(in_chain(nodes, x, i));
                    assert(c[0] == x);
                    assert(c.contains(x));
                } else {
                    assert(!in_chain(nodes, x, i));
                    if c.contains(x) {
                        let k = choose|k: int| 0 <= k < c.len() && c[k] == x;
                        assert(k == 0);
                    }
                }
            }
        },
    }
}

/// An ancestor is a valid index and sits no deeper than its descendant.
pub proof fn lemma_in_chain_bounds(nodes: Seq<ConfigNode>, anc: int, i: int)
    requires
        shape_wf(nodes),
        0 <= i < nodes.len(),
        in_chain(nodes, anc, i),
    ensures
        0 <= anc < nodes.len(),
        nodes[anc].depth <= nodes[i].depth,
        nodes[anc].depth + steps_to(nodes, anc, i) == nodes[i].depth,
    decreases nodes[i].depth,
{
    assert(node_shape_wf(nodes, i));
    if i != anc {
        match nodes[i].parent {
            Some(p) => lemma_in_chain_bounds(nodes, anc, p as int),
            None => {},
        }
    }
}

/// Ancestry is transitive.
pub proof fn lemma_in_chain_trans(nodes: Seq<ConfigNode>, x: int, y: int, z: int)
    requires
        shape_wf(nodes),
        0 <= z < nodes.len(),
        in_chain(nodes, y, z),
        in_chain(nodes, x, y),
    ensures
        in_chain(nodes, x, z),
    decreases nodes[z].depth,
{
    assert(node_shape_wf(nodes, z));
    if z != y {
        match nodes[z].parent {
            Some(p) => lemma_in_chain_trans(nodes, x, y, p as int),
            None => {},
        }
    }
}

/// Every node's depth is bounded by the arena size: its chain lists
/// `depth + 1` distinct indices.
pub proof fn lemma_depth_bound(nodes: Seq<ConfigNode>, i: int)
    requires
        shape_wf(nodes),
        0 <= i < nodes.len(),
    ensures
        nodes[i].depth < nodes.len(),
{
    lemma_chain_props(nodes, i);
    let c = chain_seq(nodes, i);
    c.unique_seq_to_set();
    let range = vstd::set_lib::set_int_range(0, nodes.len() as int);
    assert(c.to_set().subset_of(range)) by {
        assert forall|x: int| c.to_set().contains(x) implies range.contains(x) by {
            assert(c.contains(x));
            let k = choose|k: int| 0 <= k < c.len() && c[k] == x;
            assert(0 <= c[k] < nodes.len());
        }
    }
    vstd::set_lib::lemma_int_range(0, nodes.len() as int);
    vstd::set_lib::lemma_len_subset(c.to_set(), range);
}

} // verus!

verus! {

/// The stretch of `i`'s parent chain from `i` down to its ancestor `anc`,
/// both inclusive.
pub open spec fn path_to(nodes: Seq<ConfigNode>, anc: int, i: int) -> Seq<int>
    decreases nodes[i].depth,
        when shape_wf(nodes) && 0 <= i < nodes.len()
{
    if i == anc {
        seq![i]
    } else {
        proof {
            assert(node_shape_wf(nodes, i));
        }
        match nodes[i].parent {
            Some(p) => seq![i] + path_to(nodes, anc, p as int),
            None => seq![i],
        }
    }
}

/// The stretch from a node down to an ancestor lists one node per depth,
/// each of them having that same ancestor on its own chain.
pub proof fn lemma_path_props(nodes: Seq<ConfigNode>, anc: int, i: int)
    requires
        shape_wf(nodes),
        0 <= i < nodes.len(),
        in_chain(nodes, anc, i),
    ensures
        path_to(nodes, anc, i).len() == nodes[i].depth - nodes[anc].depth + 1,
        forall|k: int| 0 <= k < path_to(nodes, anc, i).len() ==> {
            &&& 0 <= #[trigger] path_to(nodes, anc, i)[k] < nodes.len()
            &&& nodes[path_to(nodes, anc, i)[k]].depth == nodes[i].depth - k
            &&& in_chain(nodes, anc, path_to(nodes, anc, i)[k])
        },
        path_to(nodes, anc, i).no_duplicates(),
    decreases nodes[i].depth,
{
    lemma_in_chain_bounds(nodes, anc, i);
    assert(node_shape_wf(nodes, i));
    let c = path_to(nodes, anc, i);
    if i == anc {
        assert(c == seq![i]);
    } else {
        match nodes[i].parent {
            Some(p) => {
                lemma_path_props(nodes, anc, p as int);
                let cp = path_to(nodes, anc, p as int);
                assert(c == seq![i] + cp);
                lemma_in_chain_bounds(nodes, anc, p as int);
                assert forall|k: int| 0 <= k < c.len() implies {
                    &&& 0 <= #[trigger] c[k] < nodes.len()
                    &&& nodes[c[k]].depth == nodes[i].depth - k
                    &&& in_chain(nodes, anc, c[k])
                } by {
                    if k > 0 {
                        assert(c[k] == cp[k - 1]);
                    }
                }
                assert(c.no_duplicates()) by {
                    assert forall|k1: int, k2: int|
                        0 <= k1 < c.len() && 0 <= k2 < c.len() && k1 != k2 implies c[k1]
                        != c[k2] by {
                        assert(nodes[c[k1]].depth == nodes[i].depth - k1);
                        assert(nodes[c[k2]].depth == nodes[i].depth - k2);
                    }
                }
            },
            None => {
                assert(false);
            },
        }
    }
}

/// Re-rooting bound: if `c` is not on `p`'s chain, the stretch from any
/// descendant `j` of `c` down to `c`, together with `p`'s whole chain, fits
/// inside the arena without repetition. So the depth `j` would get from
/// hanging `c` under `p` stays below the arena size.
pub proof fn lemma_reparent_depth_bound(nodes: Seq<ConfigNode>, c: int, p: int, j: int)
    requires
        shape_wf(nodes),
        0 <= c < nodes.len(),
        0 <= p < nodes.len(),
        0 <= j < nodes.len(),
        in_chain(nodes, c, j),
        !in_chain(nodes, c, p),
    ensures
        nodes[j].depth - nodes[c].depth + nodes[p].depth + 1 < nodes.len(),
{
    broadcast use vstd::seq_lib::seq_to_set_is_finite;

    lemma_in_chain_bounds(nodes, c, j);
    lemma_path_props(nodes, c, j);
    lemma_chain_props(nodes, p);
    let s1 = path_to(nodes, c, j);
    let s2 = chain_seq(nodes, p);
    s1.unique_seq_to_set();
    s2.unique_seq_to_set();
    assert(s1.to_set().disjoint(s2.to_set())) by {
        assert forall|y: int| s1.to_set().contains(y) implies !s2.to_set().contains(y) by {
            assert(s1.contains(y));
            let k = choose|k: int| 0 <= k < s1.len() && s1[k] == y;
            assert(in_chain(nodes, c, s1[k]));
            if s2.to_set().contains(y) {
                assert(s2.contains(y));
                assert(in_chain(nodes, y, p));
                lemma_in_chain_bounds(nodes, y, p);
                lemma_in_chain_trans(nodes, c, y, p);
            }
        }
    }
    let range = vstd::set_lib::set_int_range(0, nodes.len() as int);
    vstd::set_lib::lemma_int_range(0, nodes.len() as int);
    assert((s1.to_set() + s2.to_set()).subset_of(range)) by {
        assert forall|y: int| (s1.to_set() + s2.to_set()).contains(y) implies range.contains(
            y,
        ) by {
            if s1.to_set().contains(y) {
                assert(s1.contains(y));
                let k = choose|k: int| 0 <= k < s1.len() && s1[k] == y;
                assert(0 <= s1[k] < nodes.len());
            } else {
                assert(s2.contains(y));
                let k = choose|k: int| 0 <= k < s2.len() && s2[k] == y;
                assert(0 <= s2[k] < nodes.len());
            }
        }
    }
    vstd::set_lib::lemma_set_disjoint_lens(s1.to_set(), s2.to_set());
    vstd::set_lib::lemma_len_subset(s1.to_set() + s2.to_set(), range);
}

} // verus!

verus! {

/// The configuration a node inherits and contributes: the root layer is its
/// own input over the defaults; every other node overlays its input (if
/// any) onto its parent's effective value. The client layer is not part of
/// this; it is overlaid at the read boundary only.
pub open spec fn effective(nodes: Seq<ConfigNode>, i: int) -> crate::config_data::LocalConfigData
    decreases nodes[i].depth,
        when shape_wf(nodes) && 0 <= i < nodes.len()
{
    proof {
        assert(node_shape_wf(nodes, i));
    }
    match nodes[i].parent {
        None => match nodes[i].input {
            Some(inp) => crate::config_data::RootLocalConfigData::from_root_input_spec(
                inp.local,
            ).0,
            None => crate::config_data::LocalConfigData::default_spec(),
        },
        Some(p) => {
            let base = effective(nodes, p as int);
            match nodes[i].input {
                Some(inp) => base.overlaid(inp.local),
                None => base,
            }
        },
    }
}

/// Two arenas with the same parent edges and depths have the same shape and
/// the same ancestor chains.
pub proof fn lemma_same_shape(n1: Seq<ConfigNode>, n2: Seq<ConfigNode>)
    requires
        shape_wf(n1),
        n2.len() == n1.len(),
        forall|k: int| 0 <= k < n1.len() ==> #[trigger] n2[k].parent == n1[k].parent
            && n2[k].depth == n1[k].depth,
    ensures
        shape_wf(n2),
        forall|a: int, i: int| 0 <= i < n1.len() ==> #[trigger] in_chain(n2, a, i) == in_chain(
            n1,
            a,
            i,
        ),
{
    assert forall|i: int| 0 <= i < n2.len() implies #[trigger] node_shape_wf(n2, i) by {
        assert(node_shape_wf(n1, i));
        assert(n2[i].parent == n1[i].parent && n2[i].depth == n1[i].depth);
        match n1[i].parent {
            Some(p) => {
                assert(n2[p as int].parent == n1[p as int].parent && n2[p as int].depth == n1[
                    p as int
                ].depth);
            },
            None => {},
        }
    }
    assert forall|a: int, i: int| 0 <= i < n1.len() implies #[trigger] in_chain(n2, a, i)
        == in_chain(n1, a, i) by {
        lemma_same_shape_chain(n1, n2, a, i);
    }
}

proof fn lemma_same_shape_chain(n1: Seq<ConfigNode>, n2: Seq<ConfigNode>, a: int, i: int)
    requires
        shape_wf(n1),
        shape_wf(n2),
        n2.len() == n1.len(),
        forall|k: int| 0 <= k < n1.len() ==> #[trigger] n2[k].parent == n1[k].parent
            && n2[k].depth == n1[k].depth,
        0 <= i < n1.len(),
    ensures
        in_chain(n2, a, i) == in_chain(n1, a, i),
    decreases n1[i].depth,
{
    assert(node_shape_wf(n1, i));
    if i != a {
        match n1[i].parent {
            Some(p) => lemma_same_shape_chain(n1, n2, a, p as int),
            None => {},
        }
    }
}

/// Changing one node's input leaves the effective value of every node that
/// does not have it on its chain unchanged.
pub proof fn lemma_effective_input_change(n1: Seq<ConfigNode>, n2: Seq<ConfigNode>, x: int, j: int)
    requires
        shape_wf(n1),
        shape_wf(n2),
        n2.len() == n1.len(),
        forall|k: int| 0 <= k < n1.len() ==> #[trigger] n2[k].parent == n1[k].parent
            && n2[k].depth == n1[k].depth,
        forall|k: int| 0 <= k < n1.len() && k != x ==> #[trigger] n2[k].input == n1[k].input,
        0 <= j < n1.len(),
        !in_chain(n1, x, j),
    ensures
        effective(n2, j) == effective(n1, j),
    decreases n1[j].depth,
{
    assert(node_shape_wf(n1, j));
    assert(j != x);
    match n1[j].parent {
        Some(p) => {
            assert(!in_chain(n1, x, p as int));
            lemma_effective_input_change(n1, n2, x, p as int);
        },
        None => {},
    }
}

/// Appending a fresh root node changes no existing node's chain or
/// effective value.
pub proof fn lemma_push_preserves(nodes: Seq<ConfigNode>, node: ConfigNode)
    requires
        shape_wf(nodes),
        node.parent is None,
        node.depth == 0,
    ensures
        shape_wf(nodes.push(node)),
        forall|a: int, j: int| 0 <= j < nodes.len() ==> #[trigger] in_chain(nodes.push(node), a, j)
            == in_chain(nodes, a, j),
        forall|j: int| 0 <= j < nodes.len() ==> #[trigger] effective(nodes.push(node), j)
            == effective(nodes, j),
        forall|a: int| in_chain(nodes.push(node), a, nodes.len() as int) <==> a == nodes.len(),
        effective(nodes.push(node), nodes.len() as int) == match node.input {
            Some(inp) => crate::config_data::RootLocalConfigData::from_root_input_spec(
                inp.local,
            ).0,
            None => crate::config_data::LocalConfigData::default_spec(),
        },
{
    let n2 = nodes.push(node);
    assert forall|i: int| 0 <= i < n2.len() implies #[trigger] node_shape_wf(n2, i) by {
        lemma_push_shape_one(nodes, node, i);
    }
    assert forall|a: int, j: int| 0 <= j < nodes.len() implies #[trigger] in_chain(n2, a, j)
        == in_chain(nodes, a, j) by {
        lemma_push_chain(nodes, node, a, j);
    }
    assert forall|j: int| 0 <= j < nodes.len() implies #[trigger] effective(n2, j) == effective(
        nodes,
        j,
    ) by {
        lemma_push_effective(nodes, node, j);
    }
}

proof fn lemma_push_shape_one(nodes: Seq<ConfigNode>, node: ConfigNode, i: int)
    requires
        shape_wf(nodes),
        node.parent is None,
        node.depth == 0,
        0 <= i < nodes.len() + 1,
    ensures
        node_shape_wf(nodes.push(node), i),
{
    let n2 = nodes.push(node);
    if i < nodes.len() {
        assert(node_shape_wf(nodes, i));
        assert(n2[i] == nodes[i]);
        match n2[i].parent {
            Some(p) => {
                assert(0 <= p < nodes.len());
                assert(n2[p as int] == nodes[p as int]);
                assert(n2[p as int].depth + 1 == n2[i].depth);
            },
            None => {
                assert(n2[i].depth == 0);
            },
        }
    } else {
        assert(i == nodes.len());
        assert(n2[i] == node);
        assert(n2[i].parent is None);
        assert(n2[i].depth == 0);
    }
}

proof fn lemma_push_chain(nodes: Seq<ConfigNode>, node: ConfigNode, a: int, j: int)
    requires
        shape_wf(nodes),
        shape_wf(nodes.push(node)),
        node.parent is None,
        node.depth == 0,
        0 <= j < nodes.len(),
    ensures
        in_chain(nodes.push(node), a, j) == in_chain(nodes, a, j),
    decreases nodes[j].depth,
{
    assert(node_shape_wf(nodes, j));
    if j != a {
        match nodes[j].parent {
            Some(p) => lemma_push_chain(nodes, node, a, p as int),
            None => {},
        }
    }
}

proof fn lemma_push_effective(nodes: Seq<ConfigNode>, node: ConfigNode, j: int)
    requires
        shape_wf(nodes),
        shape_wf(nodes.push(node)),
        node.parent is None,
        node.depth == 0,
        0 <= j < nodes.len(),
    ensures
        effective(nodes.push(node), j) == effective(nodes, j),
    decreases nodes[j].depth,
{
    assert(node_shape_wf(nodes, j));
    match nodes[j].parent {
        Some(p) => lemma_push_effective(nodes, node, p as int),
        None => {},
    }
}

} // verus!

verus! {

/// The arena after hanging `c` (with its whole subtree) under `p`: `c`'s
/// parent edge moves, and every node having `c` on its chain is re-levelled
/// by the difference between `c`'s old and new depth.
pub open spec fn reparent_nodes(nodes: Seq<ConfigNode>, c: int, p: int) -> Seq<ConfigNode> {
    Seq::new(
        nodes.len(),
        |i: int| ConfigNode {
            src: nodes[i].src,
            input: nodes[i].input,
            computed: nodes[i].computed,
            parent: if i == c {
                Some(p as usize)
            } else {
                nodes[i].parent
            },
            depth: if in_chain(nodes, c, i) {
                (nodes[i].depth - nodes[c].depth + nodes[p].depth + 1) as usize
            } else {
                nodes[i].depth
            },
        },
    )
}

proof fn lemma_reparent_shape_one(nodes: Seq<ConfigNode>, c: int, p: int, i: int)
    requires
        shape_wf(nodes),
        nodes.len() <= usize::MAX,
        0 <= c < nodes.len(),
        0 <= p < nodes.len(),
        !in_chain(nodes, c, p),
        0 <= i < nodes.len(),
    ensures
        node_shape_wf(reparent_nodes(nodes, c, p), i),
{
    let n2 = reparent_nodes(nodes, c, p);
    assert(node_shape_wf(nodes, i));
    lemma_depth_bound(nodes, p);
    if in_chain(nodes, c, i) {
        lemma_in_chain_bounds(nodes, c, i);
        lemma_reparent_depth_bound(nodes, c, p, i);
        if i == c {
            assert(n2[i].parent == Some(p as usize));
            assert(!in_chain(nodes, c, p));
            assert(n2[p].depth == nodes[p].depth);
            assert(n2[i].depth == nodes[p].depth + 1);
        } else {
            match nodes[i].parent {
                Some(q) => {
                    assert(in_chain(nodes, c, q as int));
                    lemma_in_chain_bounds(nodes, c, q as int);
                    lemma_reparent_depth_bound(nodes, c, p, q as int);
                    assert(n2[i].parent == Some(q));
                    assert(n2[q as int].depth == nodes[q as int].depth - nodes[c].depth + nodes[
                        p
                    ].depth + 1);
                    assert(n2[i].depth == nodes[i].depth - nodes[c].depth + nodes[p].depth + 1);
                },
                None => {
                    assert(false);
                },
            }
        }
    } else {
        assert(i != c);
        assert(n2[i].parent == nodes[i].parent);
        assert(n2[i].depth == nodes[i].depth);
        match nodes[i].parent {
            Some(q) => {
                assert(!in_chain(nodes, c, q as int));
                assert(n2[q as int].depth == nodes[q as int].depth);
            },
            None => {},
        }
    }
}

proof fn lemma_reparent_chain_fwd(nodes: Seq<ConfigNode>, c: int, p: int, j: int)
    requires
        shape_wf(nodes),
        shape_wf(reparent_nodes(nodes, c, p)),
        0 <= c < nodes.len(),
        0 <= p < nodes.len(),
        !in_chain(nodes, c, p),
        0 <= j < nodes.len(),
        in_chain(nodes, c, j),
    ensures
        in_chain(reparent_nodes(nodes, c, p), c, j),
    decreases nodes[j].depth,
{
    let n2 = reparent_nodes(nodes, c, p);
    assert(node_shape_wf(nodes, j));
    if j != c {
        match nodes[j].parent {
            Some(q) => {
                lemma_reparent_chain_fwd(nodes, c, p, q as int);
                assert(n2[j].parent == Some(q));
            },
            None => {
                assert(false);
            },
        }
    }
}

proof fn lemma_reparent_chain_bwd(nodes: Seq<ConfigNode>, c: int, p: int, j: int)
    requires
        shape_wf(nodes),
        shape_wf(reparent_nodes(nodes, c, p)),
        0 <= c < nodes.len(),
        0 <= p < nodes.len(),
        !in_chain(nodes, c, p),
        0 <= j < nodes.len(),
        in_chain(reparent_nodes(nodes, c, p), c, j),
    ensures
        in_chain(nodes, c, j),
    decreases reparent_nodes(nodes, c, p)[j].depth,
{
    let n2 = reparent_nodes(nodes, c, p);
    assert(node_shape_wf(n2, j));
    if j != c {
        match n2[j].parent {
            Some(q) => {
                assert(nodes[j].parent == Some(q));
                assert(in_chain(n2, c, q as int));
                lemma_reparent_chain_bwd(nodes, c, p, q as int);
            },
            None => {
                assert(false);
            },
        }
    }
}

proof fn lemma_reparent_effective_one(nodes: Seq<ConfigNode>, c: int, p: int, j: int)
    requires
        shape_wf(nodes),
        shape_wf(reparent_nodes(nodes, c, p)),
        0 <= c < nodes.len(),
        0 <= p < nodes.len(),
        !in_chain(nodes, c, p),
        0 <= j < nodes.len(),
        !in_chain(nodes, c, j),
    ensures
        effective(reparent_nodes(nodes, c, p), j) == effective(nodes, j),
    decreases nodes[j].depth,
{
    let n2 = reparent_nodes(nodes, c, p);
    assert(node_shape_wf(nodes, j));
    assert(j != c);
    assert(n2[j] == nodes[j]);
    match nodes[j].parent {
        Some(q) => {
            assert(!in_chain(nodes, c, q as int));
            lemma_reparent_effective_one(nodes, c, p, q as int);
        },
        None => {},
    }
}

/// Hanging `c` under a node outside `c`'s own subtree keeps the arena well
/// shaped, leaves every node outside that subtree untouched — chains,
/// depths and effective values included — and moves the whole subtree as
/// one piece: the set of nodes having `c` on their chain is unchanged.
pub proof fn lemma_reparent_all(nodes: Seq<ConfigNode>, c: int, p: int)
    requires
        shape_wf(nodes),
        nodes.len() <= usize::MAX,
        0 <= c < nodes.len(),
        0 <= p < nodes.len(),
        !in_chain(nodes, c, p),
    ensures
        shape_wf(reparent_nodes(nodes, c, p)),
        forall|i: int| 0 <= i < nodes.len() && !in_chain(nodes, c, i)
            ==> #[trigger] reparent_nodes(nodes, c, p)[i] == nodes[i],
        forall|j: int| 0 <= j < nodes.len() ==> #[trigger] in_chain(
            reparent_nodes(nodes, c, p),
            c,
            j,
        ) == in_chain(nodes, c, j),
        forall|j: int| 0 <= j < nodes.len() && !in_chain(nodes, c, j) ==> #[trigger] effective(
            reparent_nodes(nodes, c, p),
            j,
        ) == effective(nodes, j),
{
    let n2 = reparent_nodes(nodes, c, p);
    assert forall|i: int| 0 <= i < n2.len() implies #[trigger] node_shape_wf(n2, i) by {
        lemma_reparent_shape_one(nodes, c, p, i);
    }
    assert forall|j: int| 0 <= j < nodes.len() implies #[trigger] in_chain(n2, c, j) == in_chain(
        nodes,
        c,
        j,
    ) by {
        if in_chain(nodes, c, j) {
            lemma_reparent_chain_fwd(nodes, c, p, j);
        }
        if in_chain(n2, c, j) {
            lemma_reparent_chain_bwd(nodes, c, p, j);
        }
    }
    assert forall|j: int| 0 <= j < nodes.len() && !in_chain(nodes, c, j) implies #[trigger] effective(
        n2,
        j,
    ) == effective(nodes, j) by {
        lemma_reparent_effective_one(nodes, c, p, j);
    }
}

} // verus!
