use std::sync::Arc;

use config_tree::ChangeKind;
use config_tree::ChangedFile;
use config_tree::ConcurrentConfigTree;
use config_tree::ConfigChanges;
use config_tree::ConfigInput;
use config_tree::ConfigParent;
use config_tree::ConfigParentChange;
use config_tree::ConfigTree;
use config_tree::ConfigTreeError;
use config_tree::DiscriminantHintsDef;
use config_tree::FileStore;
use config_tree::LocalConfigInput;

const XDG: u32 = 0;
const ROOT: u32 = 1;
const CRATE_A: u32 = 2;

fn store_with_xdg() -> FileStore {
    let mut vfs = FileStore::new();
    vfs.set_file(
        XDG,
        "/home/.config/rust-analyzer/rust-analyzer.toml".to_string(),
        Vec::new(),
    );
    vfs
}

fn set_text(vfs: &mut FileStore, file_id: u32, path: &str, text: &str) {
    vfs.set_file(file_id, path.to_string(), text.as_bytes().to_vec());
}

fn create(file_id: u32) -> ChangedFile {
    ChangedFile { file_id, change_kind: ChangeKind::Create }
}

fn modify(file_id: u32) -> ChangedFile {
    ChangedFile { file_id, change_kind: ChangeKind::Modify }
}

fn delete(file_id: u32) -> ChangedFile {
    ChangedFile { file_id, change_kind: ChangeKind::Delete }
}

fn no_changes() -> ConfigChanges {
    ConfigChanges { ra_toml_changes: vec![], client_change: None, parent_changes: vec![] }
}

/// The two-level workspace most tests start from: `ROOT` under the XDG
/// node, `CRATE_A` under `ROOT`, with a client overlay.
fn basic_setup(vfs: &mut FileStore, client: Option<Option<ConfigInput>>) -> ConcurrentConfigTree {
    let tree = ConcurrentConfigTree::new(ConfigTree::new(XDG));
    set_text(
        vfs,
        ROOT,
        "/root/rust-analyzer.toml",
        "\n[completion.autoself]\nenable = false\n",
    );
    set_text(
        vfs,
        CRATE_A,
        "/root/crate_a/rust-analyzer.toml",
        "\n[completion.autoimport]\nenable = false\n# will be overridden by client\n[semanticHighlighting.strings]\nenable = true\n",
    );
    let changes = ConfigChanges {
        ra_toml_changes: vec![create(ROOT), create(CRATE_A)],
        parent_changes: vec![
            ConfigParentChange { file_id: ROOT, parent: ConfigParent::UserDefault },
            ConfigParentChange { file_id: CRATE_A, parent: ConfigParent::Parent(ROOT) },
        ],
        client_change: client,
    };
    let errors = tree.apply_changes(changes, vfs);
    assert!(errors.is_empty(), "unexpected errors: {errors:?}");
    tree
}

#[test]
fn basic() {
    let mut vfs = store_with_xdg();
    let client = Some(Some(ConfigInput {
        local: LocalConfigInput {
            semantic_highlighting_strings_enable: Some(false),
            ..LocalConfigInput::empty()
        },
    }));
    let config_tree = basic_setup(&mut vfs, client);

    let local = config_tree.read_config(CRATE_A).unwrap();
    // from root
    assert_eq!(local.completion_autoself_enable, false);
    // from crate_a
    assert_eq!(local.completion_autoimport_enable, false);
    // from client
    assert_eq!(local.semantic_highlighting_strings_enable, false);

    set_text(
        &mut vfs,
        XDG,
        "/home/.config/rust-analyzer/rust-analyzer.toml",
        "\n# default is \"never\"\n[inlayHints.discriminantHints]\nenable = \"always\"\n",
    );
    let changes = ConfigChanges {
        ra_toml_changes: vec![modify(XDG)],
        parent_changes: vec![],
        client_change: None,
    };
    let errors = config_tree.apply_changes(changes, &vfs);
    assert!(errors.is_empty(), "unexpected errors: {errors:?}");

    let local2 = config_tree.read_config(CRATE_A).unwrap();
    // should have recomputed
    assert!(!Arc::ptr_eq(&local, &local2));
    assert_eq!(
        local2.inlay_hints_discriminant_hints_enable,
        DiscriminantHintsDef::Always
    );
}

#[test]
fn single_root_with_client_override() {
    let mut vfs = store_with_xdg();
    let tree = ConcurrentConfigTree::new(ConfigTree::new(XDG));
    set_text(&mut vfs, ROOT, "/root/rust-analyzer.toml", "[completion.autoself]\nenable = false\n");
    let changes = ConfigChanges {
        ra_toml_changes: vec![create(ROOT)],
        parent_changes: vec![ConfigParentChange { file_id: ROOT, parent: ConfigParent::UserDefault }],
        client_change: Some(Some(ConfigInput {
            local: LocalConfigInput {
                semantic_highlighting_strings_enable: Some(false),
                ..LocalConfigInput::empty()
            },
        })),
    };
    assert!(tree.apply_changes(changes, &vfs).is_empty());
    let local = tree.read_config(ROOT).unwrap();
    assert_eq!(local.completion_autoself_enable, false);
    assert_eq!(local.semantic_highlighting_strings_enable, false);
    // everything else at its default
    assert_eq!(local.completion_autoimport_enable, true);
    assert_eq!(local.inlay_hints_discriminant_hints_enable, DiscriminantHintsDef::Never);
}

#[test]
fn inheritance_combines_both_levels() {
    let mut vfs = store_with_xdg();
    let tree = basic_setup(&mut vfs, None);
    let local = tree.read_config(CRATE_A).unwrap();
    assert_eq!(local.completion_autoself_enable, false);
    assert_eq!(local.completion_autoimport_enable, false);
    // crate_a's own file set this to true, no client overlay here
    assert_eq!(local.semantic_highlighting_strings_enable, true);
}

#[test]
fn client_overrides_file() {
    let mut vfs = store_with_xdg();
    let client = Some(Some(ConfigInput {
        local: LocalConfigInput {
            semantic_highlighting_strings_enable: Some(false),
            ..LocalConfigInput::empty()
        },
    }));
    let tree = basic_setup(&mut vfs, client);
    // crate_a's file sets the key to true; the client layer wins
    let local = tree.read_config(CRATE_A).unwrap();
    assert_eq!(local.semantic_highlighting_strings_enable, false);
}

#[test]
fn read_of_unknown_file_fails() {
    let vfs = store_with_xdg();
    let tree = ConcurrentConfigTree::new(ConfigTree::new(XDG));
    let _ = &vfs;
    let err = tree.read_config(77).unwrap_err();
    assert!(matches!(err, ConfigTreeError::NonExistent));
}

#[test]
fn warm_reads_are_pointer_equal() {
    let mut vfs = store_with_xdg();
    let tree = basic_setup(&mut vfs, None);
    let v1 = tree.read_config(CRATE_A).unwrap();
    let v2 = tree.read_config(CRATE_A).unwrap();
    assert!(Arc::ptr_eq(&v1, &v2));
}

#[test]
fn invalidation_on_modify() {
    let mut vfs = store_with_xdg();
    let tree = basic_setup(&mut vfs, None);
    let v1 = tree.read_config(CRATE_A).unwrap();
    assert_eq!(v1.completion_autoself_enable, false);
    set_text(&mut vfs, ROOT, "/root/rust-analyzer.toml", "[completion.autoself]\nenable = true\n");
    let changes = ConfigChanges {
        ra_toml_changes: vec![modify(ROOT)],
        parent_changes: vec![],
        client_change: None,
    };
    assert!(tree.apply_changes(changes, &vfs).is_empty());
    let v2 = tree.read_config(CRATE_A).unwrap();
    assert!(!Arc::ptr_eq(&v1, &v2));
    assert_eq!(v2.completion_autoself_enable, true);
    assert_eq!(v2.completion_autoimport_enable, false);
}

#[test]
fn client_change_alone_keeps_cache() {
    let mut vfs = store_with_xdg();
    let tree = basic_setup(&mut vfs, None);
    let v1 = tree.read_config(CRATE_A).unwrap();
    // a client-only batch: the overlay is installed and removed again
    let set = ConfigChanges {
        ra_toml_changes: vec![],
        parent_changes: vec![],
        client_change: Some(Some(ConfigInput {
            local: LocalConfigInput {
                completion_autoself_enable: Some(true),
                ..LocalConfigInput::empty()
            },
        })),
    };
    assert!(tree.apply_changes(set, &vfs).is_empty());
    let overlaid = tree.read_config(CRATE_A).unwrap();
    assert_eq!(overlaid.completion_autoself_enable, true);
    let unset = ConfigChanges {
        ra_toml_changes: vec![],
        parent_changes: vec![],
        client_change: Some(None),
    };
    assert!(tree.apply_changes(unset, &vfs).is_empty());
    // the cached slot survived both batches untouched
    let v2 = tree.read_config(CRATE_A).unwrap();
    assert!(Arc::ptr_eq(&v1, &v2));
}

#[test]
fn empty_changes_are_a_no_op() {
    let mut vfs = store_with_xdg();
    let tree = basic_setup(&mut vfs, None);
    let v1 = tree.read_config(CRATE_A).unwrap();
    let errors = tree.apply_changes(no_changes(), &vfs);
    assert!(errors.is_empty());
    let v2 = tree.read_config(CRATE_A).unwrap();
    assert!(Arc::ptr_eq(&v1, &v2));
}

#[test]
fn reparent_cycle_is_rejected() {
    let mut vfs = store_with_xdg();
    let tree = basic_setup(&mut vfs, None);
    // crate_a sits below root; hanging root under crate_a would be a cycle
    let changes = ConfigChanges {
        ra_toml_changes: vec![],
        parent_changes: vec![ConfigParentChange {
            file_id: ROOT,
            parent: ConfigParent::Parent(CRATE_A),
        }],
        client_change: None,
    };
    let errors = tree.apply_changes(changes, &vfs);
    assert_eq!(errors.len(), 1);
    assert!(matches!(errors[0], ConfigTreeError::Cycle { file_id: ROOT }));
    // the tree is untouched and still answers
    let local = tree.read_config(CRATE_A).unwrap();
    assert_eq!(local.completion_autoself_enable, false);
}

#[test]
fn reparent_to_itself_is_rejected() {
    let mut vfs = store_with_xdg();
    let tree = basic_setup(&mut vfs, None);
    let changes = ConfigChanges {
        ra_toml_changes: vec![],
        parent_changes: vec![ConfigParentChange {
            file_id: ROOT,
            parent: ConfigParent::Parent(ROOT),
        }],
        client_change: None,
    };
    let errors = tree.apply_changes(changes, &vfs);
    assert_eq!(errors.len(), 1);
    assert!(matches!(errors[0], ConfigTreeError::Cycle { file_id: ROOT }));
}

#[test]
fn delete_clears_overrides_but_keeps_node() {
    let mut vfs = store_with_xdg();
    let tree = basic_setup(&mut vfs, None);
    let before = tree.read_config(CRATE_A).unwrap();
    assert_eq!(before.completion_autoimport_enable, false);
    let changes = ConfigChanges {
        ra_toml_changes: vec![delete(CRATE_A)],
        parent_changes: vec![],
        client_change: None,
    };
    assert!(tree.apply_changes(changes, &vfs).is_empty());
    // still readable; its own override is gone, the inherited one stays
    let after = tree.read_config(CRATE_A).unwrap();
    assert_eq!(after.completion_autoimport_enable, true);
    assert_eq!(after.completion_autoself_enable, false);
}
