//! The configuration tree: an arena of nodes, a computed slot table kept
//! beside it, the client overlay, and the file-handle map.
//!
//! The whole state is mirrored by a mathematical model ([`TreeModel`]); the
//! invariant [`tree_wf`] ties every cached slot to the recomputation result
//! of its node's inherited chain, so a warm read can simply hand the cached
//! value out.

use std::collections::HashMap;
use std::sync::Arc;
use vstd::prelude::*;

use crate::config_data::ConfigInput;
use crate::config_data::LocalConfigData;
use crate::errors::ErrorV;
use crate::store::FileStore;
use crate::shape::ConfigNode;
use crate::shape::ConfigSource;
use crate::shape::effective;
use crate::shape::in_chain;
use crate::shape::node_shape_wf;
use crate::shape::reparent_nodes;
use crate::shape::shape_wf;
use crate::shape::lemma_depth_bound;
use crate::shape::lemma_effective_input_change;
use crate::shape::lemma_in_chain_bounds;
use crate::shape::lemma_push_preserves;
use crate::shape::lemma_reparent_all;
use crate::shape::lemma_reparent_depth_bound;
use crate::shape::lemma_same_shape;

verus! {

broadcast use vstd::std_specs::hash::group_hash_axioms;

/// The mathematical image of a [`ConfigTree`].
#[verifier::ext_equal]
pub struct TreeModel {
    /// The arena entries.
    pub nodes: Seq<ConfigNode>,
    /// The computed slot table, one slot per node.
    pub slots: Seq<Option<Arc<LocalConfigData>>>,
    /// The client overlay, not part of the tree.
    pub client: Option<ConfigInput>,
    /// Which arena entry each file handle maps to.
    pub file_map: Map<u32, int>,
    /// The distinguished user-global default node.
    pub xdg: int,
}

/// The tree's invariant. Besides shape well-formedness it states: slots and
/// nodes correspond one to one; every mapped file handle points at a live
/// node tagged with that handle; and every non-empty slot holds exactly the
/// recomputation result of its node's inherited chain.
pub open spec fn tree_wf(m: TreeModel) -> bool {
    &&& shape_wf(m.nodes)
    &&& m.nodes.len() <= usize::MAX
    &&& m.slots.len() == m.nodes.len()
    &&& forall|i: int| 0 <= i < m.nodes.len() ==> #[trigger] m.nodes[i].computed == i
    &&& 0 <= m.xdg < m.nodes.len()
    &&& forall|f: u32| #[trigger] m.file_map.contains_key(f) ==> 0 <= m.file_map[f]
        < m.nodes.len() && m.nodes[m.file_map[f]].src == ConfigSource::RaToml(f)
    &&& forall|i: int| 0 <= i < m.slots.len() ==> (#[trigger] m.slots[i] matches Some(v) ==> v@
        == effective(m.nodes, i))
}

/// The model after allocating a slot and an unparented node for a fresh
/// file handle.
pub open spec fn spec_insert(m: TreeModel, file_id: u32, input: Option<ConfigInput>) -> TreeModel {
    TreeModel {
        nodes: m.nodes.push(
            ConfigNode {
                src: ConfigSource::RaToml(file_id),
                input,
                parent: None,
                depth: 0,
                computed: m.nodes.len() as usize,
            },
        ),
        slots: m.slots.push(None),
        file_map: m.file_map.insert(file_id, m.nodes.len() as int),
        ..m
    }
}

/// The model after emptying the slot of `x` and of every node below it.
pub open spec fn spec_invalidate(m: TreeModel, x: int) -> TreeModel {
    TreeModel {
        slots: Seq::new(
            m.slots.len(),
            |j: int|
                if in_chain(m.nodes, x, j) {
                    None
                } else {
                    m.slots[j]
                },
        ),
        ..m
    }
}

/// The model after replacing the input of the node for `file_id` — creating
/// the node if the handle is fresh — and invalidating its subtree.
pub open spec fn spec_update(m: TreeModel, file_id: u32, input: Option<ConfigInput>) -> TreeModel {
    if !m.file_map.contains_key(file_id) {
        spec_insert(m, file_id, input)
    } else {
        let n = m.file_map[file_id];
        let m1 = TreeModel { nodes: m.nodes.update(n, ConfigNode { input, ..m.nodes[n] }), ..m };
        spec_invalidate(m1, n)
    }
}

/// The model after clearing the input of the node for `file_id`, if it has
/// one; the node stays addressable.
pub open spec fn spec_remove(m: TreeModel, file_id: u32) -> TreeModel {
    if m.file_map.contains_key(file_id) {
        spec_update(m, file_id, None)
    } else {
        m
    }
}

/// The model and node index after making sure a node exists for the handle.
pub open spec fn spec_ensure(m: TreeModel, file_id: u32) -> (TreeModel, int) {
    if m.file_map.contains_key(file_id) {
        (m, m.file_map[file_id])
    } else {
        (spec_insert(m, file_id, None), m.nodes.len() as int)
    }
}

/// The model after hanging `node` under `parent` and invalidating the
/// subtree of `node`, whose inherited chain has changed.
pub open spec fn spec_reparent(m: TreeModel, node: int, parent: int) -> TreeModel {
    TreeModel {
        nodes: reparent_nodes(m.nodes, node, parent),
        slots: Seq::new(
            m.slots.len(),
            |j: int|
                if in_chain(m.nodes, node, j) {
                    None
                } else {
                    m.slots[j]
                },
        ),
        ..m
    }
}

/// Inserting a fresh node preserves the invariant; no existing node's
/// effective value moves.
pub proof fn lemma_insert_preserves(m: TreeModel, file_id: u32, input: Option<ConfigInput>)
    requires
        tree_wf(m),
        !m.file_map.contains_key(file_id),
        m.nodes.len() < usize::MAX,
    ensures
        tree_wf(spec_insert(m, file_id, input)),
{
    let node = ConfigNode {
        src: ConfigSource::RaToml(file_id),
        input,
        parent: None,
        depth: 0,
        computed: m.nodes.len() as usize,
    };
    lemma_push_preserves(m.nodes, node);
    let m2 = spec_insert(m, file_id, input);
    assert forall|i: int| 0 <= i < m2.slots.len() implies (#[trigger] m2.slots[i] matches Some(v)
        ==> v@ == effective(m2.nodes, i)) by {
        if i < m.slots.len() {
            assert(m2.slots[i] == m.slots[i]);
            assert(effective(m2.nodes, i) == effective(m.nodes, i));
        } else {
            assert(m2.slots[i] is None);
        }
    }
}

/// Replacing the input of a mapped node and invalidating its subtree
/// preserves the invariant: every slot kept belongs to a node whose
/// inherited chain avoids the changed node, so its cached value is still
/// the recomputation result.
pub proof fn lemma_update_preserves(m: TreeModel, file_id: u32, input: Option<ConfigInput>)
    requires
        tree_wf(m),
        m.file_map.contains_key(file_id),
    ensures
        tree_wf(spec_update(m, file_id, input)),
        spec_update(m, file_id, input).nodes.len() == m.nodes.len(),
{
    let n = m.file_map[file_id];
    let n1 = m.nodes.update(n, ConfigNode { input, ..m.nodes[n] });
    assert(forall|k: int| 0 <= k < m.nodes.len() ==> #[trigger] n1[k].parent == m.nodes[k].parent
        && n1[k].depth == m.nodes[k].depth);
    lemma_same_shape(m.nodes, n1);
    let m2 = spec_update(m, file_id, input);
    assert(m2.nodes == n1);
    assert forall|i: int| 0 <= i < m2.slots.len() implies (#[trigger] m2.slots[i] matches Some(v)
        ==> v@ == effective(m2.nodes, i)) by {
        if m2.slots[i] matches Some(v) {
            assert(!in_chain(n1, n, i));
            assert(!in_chain(m.nodes, n, i));
            assert(m2.slots[i] == m.slots[i]);
            assert(forall|k: int| 0 <= k < m.nodes.len() && k != n ==> #[trigger] n1[k].input
                == m.nodes[k].input);
            lemma_effective_input_change(m.nodes, n1, n, i);
        }
    }
    assert forall|f: u32| #[trigger] m2.file_map.contains_key(f) implies 0 <= m2.file_map[f]
        < m2.nodes.len() && m2.nodes[m2.file_map[f]].src == ConfigSource::RaToml(f) by {
        assert(m.file_map.contains_key(f));
        if m.file_map[f] == n {
            assert(m.nodes[n].src == ConfigSource::RaToml(f));
        }
    }
}

/// Hanging a node under a parent outside its own subtree preserves the
/// invariant.
pub proof fn lemma_reparent_preserves(m: TreeModel, node: int, parent: int)
    requires
        tree_wf(m),
        0 <= node < m.nodes.len(),
        0 <= parent < m.nodes.len(),
        !in_chain(m.nodes, node, parent),
    ensures
        tree_wf(spec_reparent(m, node, parent)),
{
    lemma_reparent_all(m.nodes, node, parent);
    let m2 = spec_reparent(m, node, parent);
    assert forall|i: int| 0 <= i < m2.slots.len() implies (#[trigger] m2.slots[i] matches Some(v)
        ==> v@ == effective(m2.nodes, i)) by {
        if m2.slots[i] matches Some(v) {
            assert(!in_chain(m.nodes, node, i));
            assert(effective(m2.nodes, i) == effective(m.nodes, i));
        }
    }
    assert forall|i: int| 0 <= i < m2.nodes.len() implies #[trigger] m2.nodes[i].computed == i by {
        if !in_chain(m.nodes, node, i) {
            assert(m2.nodes[i] == m.nodes[i]);
        }
    }
    assert forall|f: u32| #[trigger] m2.file_map.contains_key(f) implies 0 <= m2.file_map[f]
        < m2.nodes.len() && m2.nodes[m2.file_map[f]].src == ConfigSource::RaToml(f) by {
        let k = m2.file_map[f];
        assert(m.file_map.contains_key(f));
        if !in_chain(m.nodes, node, k) {
            assert(m2.nodes[k] == m.nodes[k]);
        }
    }
}

} // verus!

verus! {

/// The configuration tree. All reads and edits go through
/// [`ConfigTree::read_only`], [`ConfigTree::compute`] and
/// [`ConfigTree::apply_changes`].
#[derive(Debug)]
pub struct ConfigTree {
    nodes: Vec<ConfigNode>,
    slots: Vec<Option<Arc<LocalConfigData>>>,
    client_config: Option<ConfigInput>,
    xdg_config_node_id: usize,
    ra_file_id_map: HashMap<u32, usize>,
}

impl View for ConfigTree {
    type V = TreeModel;

    closed spec fn view(&self) -> TreeModel {
        TreeModel {
            nodes: self.nodes@,
            slots: self.slots@,
            client: self.client_config,
            file_map: Map::new(
                |f: u32| self.ra_file_id_map@.contains_key(f),
                |f: u32| self.ra_file_id_map@[f] as int,
            ),
            xdg: self.xdg_config_node_id as int,
        }
    }
}

/// Whether `anc` lies on the parent chain of `i`, by walking the chain.
fn chain_contains(nodes: &Vec<ConfigNode>, anc: usize, i: usize) -> (r: bool)
    requires
        shape_wf(nodes@),
        i < nodes@.len(),
    ensures
        r == in_chain(nodes@, anc as int, i as int),
{
    let mut cur = i;
    loop
        invariant
            shape_wf(nodes@),
            cur < nodes@.len(),
            in_chain(nodes@, anc as int, i as int) == in_chain(nodes@, anc as int, cur as int),
        decreases nodes@[cur as int].depth,
    {
        if cur == anc {
            return true;
        }
        proof {
            assert(node_shape_wf(nodes@, cur as int));
        }
        match nodes[cur].parent {
            Some(p) => {
                cur = p;
            },
            None => {
                return false;
            },
        }
    }
}

impl ConfigTree {
    /// The tree's invariant; holds of every value this module hands out.
    pub open spec fn wf(self) -> bool {
        tree_wf(self@)
    }

    /// Builds a tree holding only the distinguished user-global default
    /// node, registered under the given handle, with an empty slot and no
    /// client overlay.
    pub fn new(xdg_config_file_id: u32) -> (r: Self)
        ensures
            r.wf(),
            r@.nodes.len() == 1,
            r@.xdg == 0,
            r@.client is None,
            r@.slots[0] is None,
            r@.nodes[0].input is None,
            r@.nodes[0].parent is None,
            r@.file_map == Map::empty().insert(xdg_config_file_id, 0int),
    {
        let mut nodes: Vec<ConfigNode> = Vec::new();
        let mut slots: Vec<Option<Arc<LocalConfigData>>> = Vec::new();
        let mut ra_file_id_map: HashMap<u32, usize> = HashMap::new();
        slots.push(None);
        nodes.push(
            ConfigNode {
                src: ConfigSource::RaToml(xdg_config_file_id),
                input: None,
                parent: None,
                depth: 0,
                computed: 0,
            },
        );
        ra_file_id_map.insert(xdg_config_file_id, 0);
        let r = ConfigTree {
            nodes,
            slots,
            client_config: None,
            xdg_config_node_id: 0,
            ra_file_id_map,
        };
        proof {
            assert(r@.file_map =~= Map::empty().insert(xdg_config_file_id, 0int));
            assert(forall|i: int| 0 <= i < r@.nodes.len() ==> #[trigger] node_shape_wf(
                r@.nodes,
                i,
            ));
        }
        r
    }

    /// Empties the slot of `node_id` and of every node below it. Touches
    /// nothing else.
    fn invalidate_subtree(&mut self, node_id: usize)
        requires
            shape_wf(old(self)@.nodes),
            old(self)@.slots.len() == old(self)@.nodes.len(),
            node_id < old(self)@.nodes.len(),
        ensures
            final(self)@ == spec_invalidate(old(self)@, node_id as int),
    {
        let ghost m0 = self@;
        let n = self.nodes.len();
        let mut j: usize = 0;
        while j < n
            invariant
                self@.nodes == m0.nodes,
                self@.client == m0.client,
                self@.file_map == m0.file_map,
                self@.xdg == m0.xdg,
                n == m0.nodes.len(),
                shape_wf(m0.nodes),
                node_id < n,
                m0.slots.len() == m0.nodes.len(),
                self@.slots.len() == m0.slots.len(),
                j <= n,
                forall|k: int| 0 <= k < j ==> #[trigger] self@.slots[k] == (if in_chain(
                    m0.nodes,
                    node_id as int,
                    k,
                ) {
                    None
                } else {
                    m0.slots[k]
                }),
                forall|k: int| j <= k < n ==> #[trigger] self@.slots[k] == m0.slots[k],
            decreases n - j,
        {
            if chain_contains(&self.nodes, node_id, j) {
                self.slots[j] = None;
            }
            j += 1;
        }
        proof {
            assert(final(self)@.slots =~= spec_invalidate(m0, node_id as int).slots);
            assert(final(self)@ =~= spec_invalidate(m0, node_id as int));
        }
    }

    /// Allocates an empty slot, creates an unparented node for the handle,
    /// and installs the mapping. The handle must be fresh.
    fn insert_toml(&mut self, file_id: u32, input: Option<ConfigInput>) -> (node_id: usize)
        requires
            old(self).wf(),
            !old(self)@.file_map.contains_key(file_id),
        ensures
            final(self).wf(),
            final(self)@ == spec_insert(old(self)@, file_id, input),
            node_id as int == old(self)@.nodes.len(),
    {
        let ghost m0 = self@;
        let node_id = self.nodes.len();
        self.slots.push(None);
        self.nodes.push(
            ConfigNode {
                src: ConfigSource::RaToml(file_id),
                input,
                parent: None,
                depth: 0,
                computed: node_id,
            },
        );
        self.ra_file_id_map.insert(file_id, node_id);
        let len_after = self.nodes.len();
        proof {
            assert(len_after as int == m0.nodes.len() + 1);
            assert(m0.nodes.len() < usize::MAX);
            assert(self@.file_map =~= m0.file_map.insert(file_id, m0.nodes.len() as int));
            assert(self@ =~= spec_insert(m0, file_id, input));
            lemma_insert_preserves(m0, file_id, input);
        }
        node_id
    }

    /// Returns the node for the handle, creating an empty placeholder node
    /// if none exists yet.
    fn ensure_node(&mut self, file_id: u32) -> (node_id: usize)
        requires
            old(self).wf(),
        ensures
            final(self).wf(),
            final(self)@ == spec_ensure(old(self)@, file_id).0,
            node_id as int == spec_ensure(old(self)@, file_id).1,
            final(self)@.file_map.contains_key(file_id),
            node_id as int == final(self)@.file_map[file_id],
            node_id < final(self)@.nodes.len(),
    {
        let existing = match self.ra_file_id_map.get(&file_id) {
            Some(n) => Some(*n),
            None => None,
        };
        match existing {
            Some(n) => n,
            None => self.insert_toml(file_id, None),
        }
    }
}

} // verus!

verus! {

impl ConfigTree {
    /// Replaces the input of the node for the handle — creating the node if
    /// the handle is fresh — and invalidates the subtree rooted at it.
    /// Nodes are never tombstoned, so the edit always succeeds; a storage
    /// layer that tombstoned nodes would surface `Removed` here.
    fn update_toml(&mut self, file_id: u32, input: Option<ConfigInput>) -> (node_id: usize)
        requires
            old(self).wf(),
        ensures
            final(self).wf(),
            final(self)@ == spec_update(old(self)@, file_id, input),
            final(self)@.file_map.contains_key(file_id),
            node_id as int == final(self)@.file_map[file_id],
    {
        let ghost m0 = self@;
        let existing = match self.ra_file_id_map.get(&file_id) {
            Some(n) => Some(*n),
            None => None,
        };
        match existing {
            None => self.insert_toml(file_id, input),
            Some(n) => {
                self.nodes[n].input = input;
                proof {
                    let n1 = self@.nodes;
                    assert(n1 == m0.nodes.update(
                        n as int,
                        ConfigNode { input, ..m0.nodes[n as int] },
                    ));
                    assert(forall|k: int| 0 <= k < m0.nodes.len() ==> #[trigger] n1[k].parent
                        == m0.nodes[k].parent && n1[k].depth == m0.nodes[k].depth);
                    lemma_same_shape(m0.nodes, n1);
                }
                self.invalidate_subtree(n);
                proof {
                    lemma_update_preserves(m0, file_id, input);
                    assert(final(self)@ =~= spec_update(m0, file_id, input));
                }
                n
            },
        }
    }

    /// Clears the node's input and invalidates its subtree; the node itself
    /// stays addressable, and subsequent computation treats it as having no
    /// local overrides. Returns `None` if the handle was never introduced.
    fn remove_toml(&mut self, file_id: u32) -> (r: Option<()>)
        requires
            old(self).wf(),
        ensures
            final(self).wf(),
            final(self)@ == spec_remove(old(self)@, file_id),
            r is Some <==> old(self)@.file_map.contains_key(file_id),
    {
        let present = self.ra_file_id_map.contains_key(&file_id);
        if !present {
            return None;
        }
        self.update_toml(file_id, None);
        Some(())
    }

    /// Hangs `node_id` (with its whole subtree) under `parent_id`, after
    /// checking that this introduces no cycle; on success the subtree of
    /// `node_id` is invalidated, its inherited chain having changed. When
    /// `parent_id` is `node_id` itself or one of its descendants the edit
    /// is refused and the tree is left untouched.
    fn try_reparent(&mut self, node_id: usize, parent_id: usize) -> (ok: bool)
        requires
            old(self).wf(),
            node_id < old(self)@.nodes.len(),
            parent_id < old(self)@.nodes.len(),
        ensures
            final(self).wf(),
            ok == !in_chain(old(self)@.nodes, node_id as int, parent_id as int),
            !ok ==> final(self)@ == old(self)@,
            ok ==> final(self)@ == spec_reparent(old(self)@, node_id as int, parent_id as int),
    {
        let ghost m0 = self@;
        if chain_contains(&self.nodes, node_id, parent_id) {
            return false;
        }
        let n = self.nodes.len();
        let mut marks: Vec<bool> = Vec::new();
        let mut j: usize = 0;
        while j < n
            invariant
                self@ == m0,
                shape_wf(m0.nodes),
                n == m0.nodes.len(),
                j <= n,
                marks@.len() == j as int,
                forall|k: int| 0 <= k < j ==> #[trigger] marks@[k] == in_chain(
                    m0.nodes,
                    node_id as int,
                    k,
                ),
            decreases n - j,
        {
            let m = chain_contains(&self.nodes, node_id, j);
            marks.push(m);
            j += 1;
        }
        let old_dc = self.nodes[node_id].depth;
        proof {
            lemma_depth_bound(m0.nodes, parent_id as int);
        }
        let new_dc = self.nodes[parent_id].depth + 1;
        self.nodes[node_id].parent = Some(parent_id);
        let ghost mid = self@.nodes;
        let ghost target = reparent_nodes(m0.nodes, node_id as int, parent_id as int);
        proof {
            lemma_reparent_all(m0.nodes, node_id as int, parent_id as int);
        }
        let mut j: usize = 0;
        while j < n
            invariant
                shape_wf(m0.nodes),
                tree_wf(m0),
                node_id < n,
                parent_id < n,
                !in_chain(m0.nodes, node_id as int, parent_id as int),
                n == m0.nodes.len(),
                n == m0.slots.len(),
                j <= n,
                marks@.len() == n as int,
                forall|k: int| 0 <= k < n ==> #[trigger] marks@[k] == in_chain(
                    m0.nodes,
                    node_id as int,
                    k,
                ),
                old_dc == m0.nodes[node_id as int].depth,
                new_dc == m0.nodes[parent_id as int].depth + 1,
                target == reparent_nodes(m0.nodes, node_id as int, parent_id as int),
                mid == m0.nodes.update(
                    node_id as int,
                    ConfigNode { parent: Some(parent_id), ..m0.nodes[node_id as int] },
                ),
                self@.client == m0.client,
                self@.file_map == m0.file_map,
                self@.xdg == m0.xdg,
                self@.nodes.len() == n as int,
                self@.slots.len() == n as int,
                forall|k: int| 0 <= k < j ==> #[trigger] self@.nodes[k] == target[k],
                forall|k: int| j <= k < n ==> #[trigger] self@.nodes[k] == mid[k],
                forall|k: int| 0 <= k < j ==> #[trigger] self@.slots[k] == (if in_chain(
                    m0.nodes,
                    node_id as int,
                    k,
                ) {
                    None
                } else {
                    m0.slots[k]
                }),
                forall|k: int| j <= k < n ==> #[trigger] self@.slots[k] == m0.slots[k],
            decreases n - j,
        {
            if marks[j] {
                proof {
                    assert(in_chain(m0.nodes, node_id as int, j as int));
                    lemma_in_chain_bounds(m0.nodes, node_id as int, j as int);
                    lemma_reparent_depth_bound(
                        m0.nodes,
                        node_id as int,
                        parent_id as int,
                        j as int,
                    );
                    assert(self@.nodes[j as int] == mid[j as int]);
                    assert(self@.nodes[j as int].depth == m0.nodes[j as int].depth);
                }
                let d = self.nodes[j].depth;
                self.nodes[j].depth = d - old_dc + new_dc;
                self.slots[j] = None;
                proof {
                    assert(self@.nodes[j as int] == target[j as int]);
                }
            } else {
                proof {
                    assert(self@.nodes[j as int] == mid[j as int]);
                    assert(j as int != node_id as int);
                    assert(mid[j as int] == m0.nodes[j as int]);
                    assert(self@.nodes[j as int] == target[j as int]);
                }
            }
            j += 1;
        }
        proof {
            assert(self@.nodes =~= target);
            assert(self@.slots =~= spec_reparent(m0, node_id as int, parent_id as int).slots);
            assert(self@ =~= spec_reparent(m0, node_id as int, parent_id as int));
            lemma_reparent_preserves(m0, node_id as int, parent_id as int);
        }
        true
    }
}

} // verus!

verus! {

impl ConfigTree {
    /// Computes (and memoises) the tree-only effective value of a node: on
    /// a warm slot, hands the cached value back and touches nothing; on a
    /// miss, computes along the ancestor chain, filling the slots it
    /// passes. No slot of any node outside that chain changes. The client
    /// overlay is not applied here.
    fn compute_inner(&mut self, node_id: usize) -> (r: Arc<LocalConfigData>)
        requires
            old(self).wf(),
            node_id < old(self)@.nodes.len(),
        ensures
            final(self).wf(),
            final(self)@.nodes == old(self)@.nodes,
            final(self)@.client == old(self)@.client,
            final(self)@.file_map == old(self)@.file_map,
            final(self)@.xdg == old(self)@.xdg,
            forall|k: int| 0 <= k < old(self)@.slots.len() ==> #[trigger] final(self)@.slots[k]
                == old(self)@.slots[k] || (old(self)@.slots[k] is None
                && (final(self)@.slots[k] matches Some(v) && v@ == effective(old(self)@.nodes, k))),
            forall|k: int|
                #![trigger final(self)@.slots[k]]
                0 <= k < old(self)@.slots.len() && final(self)@.slots[k] != old(self)@.slots[k]
                    ==> in_chain(old(self)@.nodes, k, node_id as int),
            (forall|k: int|
                0 <= k < old(self)@.slots.len() && #[trigger] in_chain(
                    old(self)@.nodes,
                    k,
                    node_id as int,
                ) ==> old(self)@.slots[k] is None) ==> (forall|k: int|
                0 <= k < old(self)@.slots.len() && #[trigger] in_chain(
                    old(self)@.nodes,
                    k,
                    node_id as int,
                ) ==> final(self)@.slots[k] is Some),
            final(self)@.slots[node_id as int] == Some(r),
            r@ == effective(old(self)@.nodes, node_id as int),
            old(self)@.slots[node_id as int] matches Some(v) ==> (final(self)@.slots == old(
                self)@.slots && r == v),
        decreases old(self)@.nodes[node_id as int].depth,
    {
        let ghost m0 = self@;
        let warm = match &self.slots[node_id] {
            Some(v) => Some(v.clone()),
            None => None,
        };
        if let Some(v) = warm {
            proof {
                assert(in_chain(m0.nodes, node_id as int, node_id as int));
            }
            return v;
        }
        let parent_opt = self.nodes[node_id].parent;
        let input_opt = self.nodes[node_id].input;
        proof {
            assert(node_shape_wf(m0.nodes, node_id as int));
        }
        let value: Arc<LocalConfigData> = match parent_opt {
            Some(p) => {
                let base = self.compute_inner(p);
                proof {
                    assert forall|k: int|
                        0 <= k < m0.slots.len() && self@.slots[k] != m0.slots[k] implies in_chain(
                        m0.nodes,
                        k,
                        node_id as int,
                    ) by {
                        assert(in_chain(m0.nodes, k, p as int));
                    }
                    if forall|k: int|
                        0 <= k < m0.slots.len() && #[trigger] in_chain(
                            m0.nodes,
                            k,
                            node_id as int,
                        ) ==> m0.slots[k] is None {
                        assert forall|k: int|
                            0 <= k < m0.slots.len() && #[trigger] in_chain(
                                m0.nodes,
                                k,
                                p as int,
                            ) implies m0.slots[k] is None by {
                            lemma_in_chain_bounds(m0.nodes, k, p as int);
                            assert(in_chain(m0.nodes, k, node_id as int));
                        }
                        assert forall|k: int|
                            0 <= k < m0.slots.len() && #[trigger] in_chain(
                                m0.nodes,
                                k,
                                node_id as int,
                            ) && k != node_id as int implies self@.slots[k] is Some by {
                            assert(in_chain(m0.nodes, k, p as int));
                        }
                    }
                }
                match input_opt {
                    Some(inp) => Arc::new((*base).clone_with_overrides(inp.local)),
                    None => base,
                }
            },
            None => match input_opt {
                Some(inp) => Arc::new(
                    crate::config_data::RootLocalConfigData::from_root_input(inp.local).0,
                ),
                None => Arc::new(LocalConfigData::default_data()),
            },
        };
        proof {
            assert(value@ == effective(m0.nodes, node_id as int));
            assert(in_chain(m0.nodes, node_id as int, node_id as int));
        }
        self.slots[node_id] = Some(value.clone());
        value
    }

    /// Computes the effective configuration seen by the file: the memoised
    /// tree value of its node with the client overlay applied last; slots
    /// change at most on that node's ancestor chain, and only by filling.
    /// Fails exactly when the handle was never introduced.
    pub fn compute(&mut self, file_id: u32) -> (r: Result<
        Arc<LocalConfigData>,
        crate::errors::ConfigTreeError,
    >)
        requires
            old(self).wf(),
        ensures
            final(self).wf(),
            final(self)@.nodes == old(self)@.nodes,
            final(self)@.client == old(self)@.client,
            final(self)@.file_map == old(self)@.file_map,
            final(self)@.xdg == old(self)@.xdg,
            forall|k: int| 0 <= k < old(self)@.slots.len() ==> #[trigger] final(self)@.slots[k]
                == old(self)@.slots[k] || (old(self)@.slots[k] is None
                && (final(self)@.slots[k] matches Some(v) && v@ == effective(old(self)@.nodes, k))),
            match r {
                Err(e) => !old(self)@.file_map.contains_key(file_id) && e@ is NonExistent
                    && final(self)@ == old(self)@,
                Ok(v) => {
                    &&& old(self)@.file_map.contains_key(file_id)
                    &&& {
                        let n = old(self)@.file_map[file_id];
                        let tree_value = effective(old(self)@.nodes, n);
                        &&& forall|k: int|
                            #![trigger final(self)@.slots[k]]
                            0 <= k < old(self)@.slots.len() && final(self)@.slots[k] != old(
                                self)@.slots[k] ==> in_chain(old(self)@.nodes, k, n)
                        &&& (forall|k: int|
                            0 <= k < old(self)@.slots.len() && #[trigger] in_chain(
                                old(self)@.nodes,
                                k,
                                n,
                            ) ==> old(self)@.slots[k] is None) ==> (forall|k: int|
                            0 <= k < old(self)@.slots.len() && #[trigger] in_chain(
                                old(self)@.nodes,
                                k,
                                n,
                            ) ==> final(self)@.slots[k] is Some)
                        &&& final(self)@.slots[n] matches Some(cached) && cached@ == tree_value
                        &&& v@ == match old(self)@.client {
                            Some(c) => tree_value.overlaid(c.local),
                            None => tree_value,
                        }
                        &&& old(self)@.slots[n] matches Some(c0) ==> (final(self)@.slots == old(
                            self)@.slots && (old(self)@.client is None ==> v == c0))
                    }
                },
            },
    {
        let node = match self.ra_file_id_map.get(&file_id) {
            Some(n) => *n,
            None => {
                return Err(crate::errors::ConfigTreeError::NonExistent);
            },
        };
        proof {
            assert(self@.file_map.contains_key(file_id));
            assert(self@.file_map[file_id] == node as int);
        }
        let tree_value = self.compute_inner(node);
        match &self.client_config {
            Some(c) => Ok(Arc::new((*tree_value).clone_with_overrides(c.local))),
            None => Ok(tree_value),
        }
    }

    /// The read-only half of a read: on a warm slot, the cached value with
    /// the client overlay applied; `Ok(None)` on a cold slot; an error
    /// exactly when the handle was never introduced. Never changes the
    /// tree.
    pub fn read_only(&self, file_id: u32) -> (r: Result<
        Option<Arc<LocalConfigData>>,
        crate::errors::ConfigTreeError,
    >)
        requires
            self.wf(),
        ensures
            match r {
                Err(e) => !self@.file_map.contains_key(file_id) && e@ is NonExistent,
                Ok(opt) => {
                    &&& self@.file_map.contains_key(file_id)
                    &&& {
                        let n = self@.file_map[file_id];
                        match opt {
                            None => self@.slots[n] is None,
                            Some(v) => {
                                &&& self@.slots[n] matches Some(cached) && v@ == (match self@.client {
                                    Some(c) => cached@.overlaid(c.local),
                                    None => cached@,
                                })
                                &&& self@.client is None ==> (self@.slots[n] matches Some(cached)
                                    && v == cached)
                            },
                        }
                    }
                },
            },
    {
        let node = match self.ra_file_id_map.get(&file_id) {
            Some(n) => *n,
            None => {
                return Err(crate::errors::ConfigTreeError::NonExistent);
            },
        };
        proof {
            assert(self@.file_map.contains_key(file_id));
            assert(self@.file_map[file_id] == node as int);
        }
        let cached = match &self.slots[node] {
            Some(v) => v.clone(),
            None => {
                return Ok(None);
            },
        };
        match &self.client_config {
            Some(c) => Ok(Some(Arc::new((*cached).clone_with_overrides(c.local)))),
            None => Ok(Some(cached)),
        }
    }
}

} // verus!

verus! {

/// One file-content change, as delivered by the caller.
#[derive(Clone, Copy, Debug, PartialEq, Eq, Structural)]
pub struct ChangedFile {
    pub file_id: u32,
    pub change_kind: ChangeKind,
}

/// What happened to the file.
#[derive(Clone, Copy, Debug, PartialEq, Eq, Structural)]
pub enum ChangeKind {
    Create,
    Modify,
    Delete,
}

/// Where a node is reattached.
#[derive(Clone, Copy, Debug, PartialEq, Eq, Structural)]
pub enum ConfigParent {
    /// The node becomes a root in its own right, inheriting only from the
    /// user-global default node.
    UserDefault,
    /// The node becomes a child of the node for this file, which is created
    /// as an empty placeholder if it does not exist yet.
    Parent(u32),
}

/// One reattachment.
#[derive(Clone, Copy, Debug, PartialEq, Eq, Structural)]
pub struct ConfigParentChange {
    /// The config node in question.
    pub file_id: u32,
    pub parent: ConfigParent,
}

/// A batch of changes: configuration files changed on disk, and/or the
/// client sent a new overlay.
pub struct ConfigChanges {
    pub ra_toml_changes: Vec<ChangedFile>,
    /// `None`: no change. `Some(None)`: the client overlay was removed.
    /// `Some(Some(input))`: the client overlay was replaced.
    pub client_change: Option<Option<ConfigInput>>,
    pub parent_changes: Vec<ConfigParentChange>,
}

/// The model after the client layer's part of a batch.
pub open spec fn spec_client_step(m: TreeModel, change: Option<Option<ConfigInput>>) -> TreeModel {
    match change {
        None => m,
        Some(c) => TreeModel { client: c, ..m },
    }
}

/// The model and errors after one reattachment: both endpoints are
/// materialised, then the edit is refused — with the tree untouched — if it
/// would make the node an ancestor of itself, else the node is hung under
/// its new parent and its subtree invalidated.
pub open spec fn spec_parent_step(m: TreeModel, pc: ConfigParentChange) -> (TreeModel, Seq<ErrorV>) {
    let r1 = spec_ensure(m, pc.file_id);
    let r2 = match pc.parent {
        ConfigParent::UserDefault => (r1.0, r1.0.xdg),
        ConfigParent::Parent(pf) => spec_ensure(r1.0, pf),
    };
    if in_chain(r2.0.nodes, r1.1, r2.1) {
        (r2.0, seq![ErrorV::Cycle { file_id: pc.file_id }])
    } else {
        (spec_reparent(r2.0, r1.1, r2.1), Seq::empty())
    }
}

/// The reattachments of a batch, folded in order.
pub open spec fn spec_parent_steps(m: TreeModel, pcs: Seq<ConfigParentChange>) -> (
    TreeModel,
    Seq<ErrorV>,
)
    decreases pcs.len(),
{
    if pcs.len() == 0 {
        (m, Seq::empty())
    } else {
        let prev = spec_parent_steps(m, pcs.drop_last());
        let step = spec_parent_step(prev.0, pcs.last());
        (step.0, prev.1 + step.1)
    }
}

/// The model and errors after one file change: created or modified files
/// are parsed and their node updated — parse failures still update the node
/// (with no input) — and deleted files have their input cleared.
pub open spec fn spec_file_step(m: TreeModel, vfs: FileStore, ch: ChangedFile) -> (
    TreeModel,
    Seq<ErrorV>,
) {
    match ch.change_kind {
        ChangeKind::Create => {
            let pr = crate::toml_input::parse_file_spec(
                vfs.spec_path(ch.file_id),
                vfs.spec_contents(ch.file_id),
            );
            (spec_update(m, ch.file_id, pr.0), pr.1)
        },
        ChangeKind::Modify => {
            let pr = crate::toml_input::parse_file_spec(
                vfs.spec_path(ch.file_id),
                vfs.spec_contents(ch.file_id),
            );
            (spec_update(m, ch.file_id, pr.0), pr.1)
        },
        ChangeKind::Delete => (spec_remove(m, ch.file_id), Seq::empty()),
    }
}

/// The file changes of a batch, folded in order.
pub open spec fn spec_file_steps(m: TreeModel, vfs: FileStore, fcs: Seq<ChangedFile>) -> (
    TreeModel,
    Seq<ErrorV>,
)
    decreases fcs.len(),
{
    if fcs.len() == 0 {
        (m, Seq::empty())
    } else {
        let prev = spec_file_steps(m, vfs, fcs.drop_last());
        let step = spec_file_step(prev.0, vfs, fcs.last());
        (step.0, prev.1 + step.1)
    }
}

/// A whole batch: the client change first, then reattachments, then file
/// changes, with all errors accumulated in that order.
pub open spec fn spec_apply_changes(
    m: TreeModel,
    client_change: Option<Option<ConfigInput>>,
    pcs: Seq<ConfigParentChange>,
    fcs: Seq<ChangedFile>,
    vfs: FileStore,
) -> (TreeModel, Seq<ErrorV>) {
    let m0 = spec_client_step(m, client_change);
    let p = spec_parent_steps(m0, pcs);
    let f = spec_file_steps(p.0, vfs, fcs);
    (f.0, p.1 + f.1)
}

} // verus!

verus! {

impl ConfigTree {
    /// Applies a whole batch of changes under exclusive access: the client
    /// change first, then reattachments, then file changes. Every error met
    /// on the way — cycle refusals and parse diagnostics — is appended to
    /// `errors`; none of them aborts the batch. An empty batch changes
    /// nothing and reports nothing.
    pub fn apply_changes(
        &mut self,
        changes: ConfigChanges,
        vfs: &FileStore,
        errors: &mut Vec<crate::errors::ConfigTreeError>,
    )
        requires
            old(self).wf(),
            forall|k: int| 0 <= k < changes.ra_toml_changes@.len()
                && !(#[trigger] changes.ra_toml_changes@[k].change_kind is Delete)
                ==> vfs.spec_contains(changes.ra_toml_changes@[k].file_id),
        ensures
            final(self).wf(),
            ({
                let s = spec_apply_changes(
                    old(self)@,
                    changes.client_change,
                    changes.parent_changes@,
                    changes.ra_toml_changes@,
                    *vfs,
                );
                final(self)@ == s.0 && crate::errors::errors_view(final(errors)@)
                    == crate::errors::errors_view(old(errors)@) + s.1
            }),
            (changes.client_change is None && changes.parent_changes@.len() == 0
                && changes.ra_toml_changes@.len() == 0) ==> (final(self)@ == old(self)@
                && crate::errors::errors_view(final(errors)@) == crate::errors::errors_view(
                old(errors)@,
            )),
    {
        let ghost m_init = self@;
        let ghost e_init = crate::errors::errors_view(errors@);
        let ConfigChanges { ra_toml_changes, client_change, parent_changes } = changes;
        if let Some(change) = client_change {
            self.client_config = change;
        }
        let ghost m0 = self@;
        proof {
            assert(m0 =~= spec_client_step(m_init, client_change));
            assert(tree_wf(m0));
        }
        let np = parent_changes.len();
        let mut i: usize = 0;
        while i < np
            invariant
                i <= np,
                np == parent_changes@.len(),
                tree_wf(m0),
                self.wf(),
                self@ == spec_parent_steps(m0, parent_changes@.take(i as int)).0,
                crate::errors::errors_view(errors@) == e_init + spec_parent_steps(
                    m0,
                    parent_changes@.take(i as int),
                ).1,
            decreases np - i,
        {
            let ghost prefix = parent_changes@.take(i as int);
            let ghost mprev = self@;
            let ghost eprev = crate::errors::errors_view(errors@);
            let pc = parent_changes[i];
            let node = self.ensure_node(pc.file_id);
            let ghost m1 = self@;
            let parent_node = match pc.parent {
                ConfigParent::UserDefault => self.xdg_config_node_id,
                ConfigParent::Parent(pf) => self.ensure_node(pf),
            };
            let ghost m2 = self@;
            proof {
                assert(m2 == (match pc.parent {
                    ConfigParent::UserDefault => (m1, m1.xdg),
                    ConfigParent::Parent(pf) => spec_ensure(m1, pf),
                }).0);
                assert(node < m1.nodes.len());
                assert(m2.nodes.len() >= m1.nodes.len());
                assert(node < m2.nodes.len());
                assert(parent_node < m2.nodes.len());
            }
            let ok = self.try_reparent(node, parent_node);
            if !ok {
                let e = crate::errors::ConfigTreeError::Cycle { file_id: pc.file_id };
                errors.push(e);
            }
            proof {
                let step = spec_parent_step(mprev, pc);
                if !ok {
                    assert(self@ == step.0);
                    assert(crate::errors::errors_view(errors@) =~= eprev.push(
                        ErrorV::Cycle { file_id: pc.file_id },
                    ));
                    assert(step.1 =~= seq![ErrorV::Cycle { file_id: pc.file_id }]);
                    assert(crate::errors::errors_view(errors@) =~= eprev + step.1);
                } else {
                    assert(self@ == step.0);
                    assert(crate::errors::errors_view(errors@) =~= eprev + step.1);
                }
                assert(parent_changes@.take(i + 1int).drop_last() =~= prefix);
                assert(parent_changes@.take(i + 1int).last() == pc);
                assert(spec_parent_steps(m0, parent_changes@.take(i + 1int)).0 == step.0);
                assert(crate::errors::errors_view(errors@) =~= e_init + spec_parent_steps(
                    m0,
                    parent_changes@.take(i + 1int),
                ).1);
            }
            i += 1;
        }
        let ghost mp = self@;
        let ghost ep = crate::errors::errors_view(errors@);
        proof {
            assert(parent_changes@.take(np as int) =~= parent_changes@);
            assert(mp == spec_parent_steps(m0, parent_changes@).0);
            assert(ep == e_init + spec_parent_steps(m0, parent_changes@).1);
        }
        let nf = ra_toml_changes.len();
        let mut j: usize = 0;
        while j < nf
            invariant
                j <= nf,
                nf == ra_toml_changes@.len(),
                tree_wf(mp),
                self.wf(),
                forall|k: int| 0 <= k < ra_toml_changes@.len()
                    && !(#[trigger] ra_toml_changes@[k].change_kind is Delete)
                    ==> vfs.spec_contains(ra_toml_changes@[k].file_id),
                self@ == spec_file_steps(mp, *vfs, ra_toml_changes@.take(j as int)).0,
                crate::errors::errors_view(errors@) == ep + spec_file_steps(
                    mp,
                    *vfs,
                    ra_toml_changes@.take(j as int),
                ).1,
            decreases nf - j,
        {
            let ghost prefix = ra_toml_changes@.take(j as int);
            let ghost mprev = self@;
            let ghost eprev = crate::errors::errors_view(errors@);
            let ch = ra_toml_changes[j];
            match ch.change_kind {
                ChangeKind::Create => {
                    let input = crate::toml_input::parse_toml(ch.file_id, vfs, errors);
                    self.update_toml(ch.file_id, input);
                },
                ChangeKind::Modify => {
                    let input = crate::toml_input::parse_toml(ch.file_id, vfs, errors);
                    self.update_toml(ch.file_id, input);
                },
                ChangeKind::Delete => {
                    self.remove_toml(ch.file_id);
                },
            }
            proof {
                let step = spec_file_step(mprev, *vfs, ch);
                assert(self@ == step.0);
                assert(crate::errors::errors_view(errors@) =~= eprev + step.1);
                assert(ra_toml_changes@.take(j + 1int).drop_last() =~= prefix);
                assert(ra_toml_changes@.take(j + 1int).last() == ch);
                assert(spec_file_steps(mp, *vfs, ra_toml_changes@.take(j + 1int)).0 == step.0);
                assert(crate::errors::errors_view(errors@) =~= ep + spec_file_steps(
                    mp,
                    *vfs,
                    ra_toml_changes@.take(j + 1int),
                ).1);
            }
            j += 1;
        }
        proof {
            assert(ra_toml_changes@.take(nf as int) =~= ra_toml_changes@);
            let s = spec_apply_changes(
                m_init,
                client_change,
                parent_changes@,
                ra_toml_changes@,
                *vfs,
            );
            assert(final(self)@ == s.0);
            assert(crate::errors::errors_view(final(errors)@) =~= e_init + (spec_parent_steps(
                m0,
                parent_changes@,
            ).1 + spec_file_steps(mp, *vfs, ra_toml_changes@).1));
            if client_change is None && parent_changes@.len() == 0 && ra_toml_changes@.len()
                == 0 {
                assert(m0 == m_init);
                assert(parent_changes@ =~= Seq::<ConfigParentChange>::empty());
                assert(ra_toml_changes@ =~= Seq::<ChangedFile>::empty());
                assert(final(self)@ == m_init);
                assert(crate::errors::errors_view(final(errors)@) =~= e_init);
            }
        }
    }
}

} // verus!
