//! The file store the tree reads from.
//!
//! The tree never watches the file system itself; callers deliver file
//! contents here and then drive the tree with change batches. A file is an
//! opaque numeric handle mapped to a path (used only for diagnostics) and
//! raw bytes.

use std::collections::HashMap;
use vstd::prelude::*;

verus! {

broadcast use vstd::std_specs::hash::group_hash_axioms;

/// One file's path and contents.
#[derive(Debug, Clone)]
pub struct FileEntry {
    pub path: String,
    pub contents: Vec<u8>,
}

/// Maps file handles to paths and byte contents. Read-only from the tree's
/// perspective.
#[derive(Debug)]
pub struct FileStore {
    files: HashMap<u32, FileEntry>,
}

impl FileStore {
    /// Whether a file with this handle is present.
    pub closed spec fn spec_contains(self, file_id: u32) -> bool {
        self.files@.contains_key(file_id)
    }

    /// The path registered for the handle.
    pub closed spec fn spec_path(self, file_id: u32) -> Seq<char> {
        self.files@[file_id].path@
    }

    /// The bytes registered for the handle.
    pub closed spec fn spec_contents(self, file_id: u32) -> Seq<u8> {
        self.files@[file_id].contents@
    }

    /// Builds an empty store.
    pub fn new() -> (r: Self)
        ensures
            forall|f: u32| !r.spec_contains(f),
    {
        FileStore { files: HashMap::new() }
    }

    /// Registers (or replaces) a file's path and contents.
    pub fn set_file(&mut self, file_id: u32, path: String, contents: Vec<u8>)
        ensures
            final(self).spec_contains(file_id),
            final(self).spec_path(file_id) == path@,
            final(self).spec_contents(file_id) == contents@,
            forall|g: u32| g != file_id ==> {
                &&& final(self).spec_contains(g) == old(self).spec_contains(g)
                &&& final(self).spec_path(g) == old(self).spec_path(g)
                &&& final(self).spec_contents(g) == old(self).spec_contents(g)
            },
    {
        self.files.insert(file_id, FileEntry { path, contents });
    }

    /// Looks a file up by its handle.
    pub fn get(&self, file_id: u32) -> (r: Option<&FileEntry>)
        ensures
            match r {
                Some(e) => self.spec_contains(file_id) && e.path@ == self.spec_path(file_id)
                    && e.contents@ == self.spec_contents(file_id),
                None => !self.spec_contains(file_id),
            },
    {
        self.files.get(&file_id)
    }
}

} // verus!
