//! The library's stated laws, each proved once and for all over the tree
//! model. The per-function contracts in [`crate::tree`] say what each
//! operation does; the lemmas here state the properties that hold across
//! operations.

use vstd::prelude::*;

use crate::config_data::ConfigInput;
use crate::errors::ErrorV;
use crate::shape::ConfigNode;
use crate::shape::effective;
use crate::shape::in_chain;
use crate::shape::lemma_same_shape;
use crate::shape::shape_wf;
use crate::store::FileStore;
use crate::tree::ChangedFile;
use crate::tree::ConfigParent;
use crate::tree::ConfigParentChange;
use crate::tree::TreeModel;
use crate::tree::spec_apply_changes;
use crate::tree::spec_client_step;
use crate::tree::spec_ensure;
use crate::tree::spec_file_steps;
use crate::tree::spec_parent_step;
use crate::tree::spec_parent_steps;
use crate::tree::spec_update;
use crate::tree::tree_wf;

verus! {

/// The value computed at a child is its parent's computed value with the
/// child's own input (if any) overlaid; unset keys pass through.
pub proof fn law_inherited_value(nodes: Seq<ConfigNode>, i: int, p: usize)
    requires
        shape_wf(nodes),
        0 <= i < nodes.len(),
        nodes[i].parent == Some(p),
    ensures
        effective(nodes, i) == match nodes[i].input {
            Some(inp) => effective(nodes, p as int).overlaid(inp.local),
            None => effective(nodes, p as int),
        },
{
    assert(crate::shape::node_shape_wf(nodes, i));
    reveal_with_fuel(effective, 2);
}

/// A batch that only changes the client layer leaves every computed slot —
/// and the whole arena — exactly as it was, and reports no error. Client
/// changes cost nothing but the swapped overlay.
pub proof fn law_client_change_keeps_slots(
    m: TreeModel,
    c: Option<ConfigInput>,
    vfs: FileStore,
)
    ensures
        spec_apply_changes(m, Some(c), Seq::empty(), Seq::empty(), vfs).0.slots == m.slots,
        spec_apply_changes(m, Some(c), Seq::empty(), Seq::empty(), vfs).0.nodes == m.nodes,
        spec_apply_changes(m, Some(c), Seq::empty(), Seq::empty(), vfs).0.client == c,
        spec_apply_changes(m, Some(c), Seq::empty(), Seq::empty(), vfs).1 == Seq::<ErrorV>::empty(),
{
    let s = spec_apply_changes(m, Some(c), Seq::empty(), Seq::empty(), vfs);
    assert(s.1 =~= Seq::<ErrorV>::empty());
}

/// An empty batch is a no-op: no slot changes, no arena changes, no errors.
pub proof fn law_empty_batch(m: TreeModel, vfs: FileStore)
    ensures
        spec_apply_changes(m, None, Seq::empty(), Seq::empty(), vfs).0 == m,
        spec_apply_changes(m, None, Seq::empty(), Seq::empty(), vfs).1 == Seq::<ErrorV>::empty(),
{
    let s = spec_apply_changes(m, None, Seq::empty(), Seq::empty(), vfs);
    assert(s.1 =~= Seq::<ErrorV>::empty());
}

/// No cycle can be introduced: a reattachment whose new parent is the node
/// itself or one of its descendants reports an error and moves no edge —
/// beyond materialising placeholder nodes for fresh handles, every existing
/// node, every slot and the client layer are untouched.
pub proof fn law_cycle_rejected(m: TreeModel, pc: ConfigParentChange)
    requires
        ({
            let r1 = spec_ensure(m, pc.file_id);
            let r2 = match pc.parent {
                ConfigParent::UserDefault => (r1.0, r1.0.xdg),
                ConfigParent::Parent(pf) => spec_ensure(r1.0, pf),
            };
            in_chain(r2.0.nodes, r1.1, r2.1)
        }),
    ensures
        ({
            let r1 = spec_ensure(m, pc.file_id);
            let r2 = match pc.parent {
                ConfigParent::UserDefault => (r1.0, r1.0.xdg),
                ConfigParent::Parent(pf) => spec_ensure(r1.0, pf),
            };
            &&& spec_parent_step(m, pc).0 == r2.0
            &&& spec_parent_step(m, pc).1 == seq![ErrorV::Cycle { file_id: pc.file_id }]
            &&& forall|k: int| 0 <= k < m.nodes.len() ==> #[trigger] spec_parent_step(
                m,
                pc,
            ).0.nodes[k] == m.nodes[k]
            &&& forall|k: int| 0 <= k < m.slots.len() ==> #[trigger] spec_parent_step(
                m,
                pc,
            ).0.slots[k] == m.slots[k]
            &&& spec_parent_step(m, pc).0.client == m.client
        }),
{
}

/// A subtree-invalidating update empties the slot of the changed node and
/// of every node that inherits from it: no stale cached value survives
/// below the change.
pub proof fn law_update_invalidates_subtree(
    m: TreeModel,
    file_id: u32,
    input: Option<ConfigInput>,
    j: int,
)
    requires
        tree_wf(m),
        m.file_map.contains_key(file_id),
        0 <= j < m.slots.len(),
        in_chain(m.nodes, m.file_map[file_id], j),
    ensures
        spec_update(m, file_id, input).slots[j] is None,
{
    let n = m.file_map[file_id];
    let n1 = m.nodes.update(n, ConfigNode { input, ..m.nodes[n] });
    assert(forall|k: int| 0 <= k < m.nodes.len() ==> #[trigger] n1[k].parent == m.nodes[k].parent
        && n1[k].depth == m.nodes[k].depth);
    lemma_same_shape(m.nodes, n1);
}

/// A file handle, once introduced, stays introduced: no batch ever removes
/// a mapping, so a read of any previously mapped handle keeps succeeding
/// (deletion only clears the node's input).
pub proof fn law_mappings_persist(
    m: TreeModel,
    client_change: Option<Option<ConfigInput>>,
    pcs: Seq<ConfigParentChange>,
    fcs: Seq<ChangedFile>,
    vfs: FileStore,
    f: u32,
)
    requires
        m.file_map.contains_key(f),
    ensures
        spec_apply_changes(m, client_change, pcs, fcs, vfs).0.file_map.contains_key(f),
{
    let m0 = spec_client_step(m, client_change);
    lemma_parent_steps_keep_mapping(m0, pcs, f);
    lemma_file_steps_keep_mapping(spec_parent_steps(m0, pcs).0, vfs, fcs, f);
}

proof fn lemma_parent_steps_keep_mapping(m: TreeModel, pcs: Seq<ConfigParentChange>, f: u32)
    requires
        m.file_map.contains_key(f),
    ensures
        spec_parent_steps(m, pcs).0.file_map.contains_key(f),
    decreases pcs.len(),
{
    if pcs.len() > 0 {
        lemma_parent_steps_keep_mapping(m, pcs.drop_last(), f);
    }
}

proof fn lemma_file_steps_keep_mapping(m: TreeModel, vfs: FileStore, fcs: Seq<ChangedFile>, f: u32)
    requires
        m.file_map.contains_key(f),
    ensures
        spec_file_steps(m, vfs, fcs).0.file_map.contains_key(f),
    decreases fcs.len(),
{
    if fcs.len() > 0 {
        lemma_file_steps_keep_mapping(m, vfs, fcs.drop_last(), f);
    }
}

} // verus!
