//! The concurrent facade: one reader-writer lock around the whole tree.
//!
//! Readers share the lock while caches are warm; a cache miss retires the
//! shared handle and recomputes under the exclusive one. The lock's
//! predicate carries the tree invariant, so every thread that acquires it
//! gets a well-formed tree, and what each operation then does is stated on
//! [`ConfigTree`] itself.

use std::sync::Arc;
use vstd::prelude::*;
use vstd::rwlock::RwLock;
use vstd::rwlock::RwLockPredicate;

use crate::config_data::LocalConfigData;
use crate::errors::ConfigTreeError;
use crate::store::FileStore;
use crate::tree::ConfigChanges;
use crate::tree::ConfigTree;

verus! {

/// The predicate the lock maintains: the tree inside is well formed.
pub struct TreeInv;

impl RwLockPredicate<ConfigTree> for TreeInv {
    open spec fn inv(self, v: ConfigTree) -> bool {
        v.wf()
    }
}

/// A configuration tree behind a single reader-writer lock. One lock on
/// the whole thing keeps the contract simple: exactly one writer at a
/// time, readers never block each other while caches are warm.
pub struct ConcurrentConfigTree {
    rwlock: RwLock<ConfigTree, TreeInv>,
}

impl ConcurrentConfigTree {
    /// Wraps a well-formed tree.
    pub fn new(config_tree: ConfigTree) -> Self
        requires
            config_tree.wf(),
    {
        ConcurrentConfigTree { rwlock: RwLock::new(config_tree, Ghost(TreeInv)) }
    }

    /// Applies a whole batch under exclusive access and returns every error
    /// accumulated during parsing and application; an empty batch reports
    /// none. What the batch does to the tree in the lock is stated on
    /// [`ConfigTree::apply_changes`].
    pub fn apply_changes(&self, changes: ConfigChanges, vfs: &FileStore) -> (errors: Vec<
        ConfigTreeError,
    >)
        requires
            forall|k: int| 0 <= k < changes.ra_toml_changes@.len()
                && !(#[trigger] changes.ra_toml_changes@[k].change_kind is Delete)
                ==> vfs.spec_contains(changes.ra_toml_changes@[k].file_id),
        ensures
            (changes.client_change is None && changes.parent_changes@.len() == 0
                && changes.ra_toml_changes@.len() == 0) ==> errors@.len() == 0,
    {
        let ghost batch_empty = changes.client_change is None && changes.parent_changes@.len()
            == 0 && changes.ra_toml_changes@.len() == 0;
        let mut errors: Vec<ConfigTreeError> = Vec::new();
        let (mut tree, write_handle) = self.rwlock.acquire_write();
        tree.apply_changes(changes, vfs, &mut errors);
        write_handle.release_write(tree);
        proof {
            if batch_empty {
                assert(crate::errors::errors_view(errors@).len() == 0);
            }
        }
        errors
    }

    /// Reads the effective configuration seen by the file: under shared
    /// access on a warm cache, else recomputing under exclusive access. The
    /// only error it can return is `NonExistent`, for a handle never
    /// introduced; how the result relates to the tree in the lock is stated
    /// on [`ConfigTree::read_only`] and [`ConfigTree::compute`].
    pub fn read_config(&self, file_id: u32) -> (r: Result<Arc<LocalConfigData>, ConfigTreeError>)
        ensures
            r matches Err(e) ==> e@ is NonExistent,
    {
        let read_handle = self.rwlock.acquire_read();
        let warm = read_handle.borrow().read_only(file_id);
        match warm {
            Err(e) => {
                read_handle.release_read();
                Err(e)
            },
            Ok(Some(v)) => {
                read_handle.release_read();
                Ok(v)
            },
            Ok(None) => {
                read_handle.release_read();
                let (mut tree, write_handle) = self.rwlock.acquire_write();
                let r = tree.compute(file_id);
                write_handle.release_write(tree);
                r
            },
        }
    }
}

} // verus!
