//! A hierarchical, lazily computed configuration tree.
//!
//! The tree resolves the effective configuration seen by a file from three
//! layers: a tree of per-directory configuration files, a user-global
//! default node, and a client-supplied override applied last on every read.

use vstd::prelude::*;

mod assist;
mod cli;
mod config_data;
mod errors;
mod facade;
mod laws;
mod shape;
mod store;
mod toml_input;
mod tree;

pub use assist::SourceField;
pub use assist::expand_struct_field;
pub use assist::expanded_decls;
pub use assist::field_decl;
pub use cli::Oguz;
pub use cli::canon_path;
pub use cli::canon_segments;
pub use cli::joined_path;
pub use config_data::DiscriminantHintsDef;
pub use config_data::LocalConfigData;
pub use config_data::LocalConfigInput;
pub use config_data::ConfigInput;
pub use config_data::RootLocalConfigData;
pub use errors::ConfigTreeError;
pub use errors::ErrorV;
pub use errors::errors_view;
pub use facade::ConcurrentConfigTree;
pub use laws::law_client_change_keeps_slots;
pub use laws::law_cycle_rejected;
pub use laws::law_empty_batch;
pub use laws::law_inherited_value;
pub use laws::law_mappings_persist;
pub use laws::law_update_invalidates_subtree;
pub use shape::ConfigNode;
pub use shape::ConfigSource;
pub use shape::effective;
pub use shape::in_chain;
pub use shape::shape_wf;
pub use store::FileEntry;
pub use store::FileStore;
pub use toml_input::parse_toml;
pub use toml_input::parse_file_spec;
pub use tree::ChangeKind;
pub use tree::ChangedFile;
pub use tree::ConfigChanges;
pub use tree::ConfigParent;
pub use tree::ConfigParentChange;
pub use tree::ConfigTree;
pub use tree::TreeModel;
pub use tree::spec_apply_changes;
pub use tree::tree_wf;

verus! {

} // verus!
