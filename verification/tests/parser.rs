use config_tree::ChangeKind;
use config_tree::ChangedFile;
use config_tree::ConcurrentConfigTree;
use config_tree::ConfigChanges;
use config_tree::ConfigParent;
use config_tree::ConfigParentChange;
use config_tree::ConfigTree;
use config_tree::ConfigTreeError;
use config_tree::DiscriminantHintsDef;
use config_tree::FileStore;
use config_tree::Oguz;
use config_tree::canon_path;

const XDG: u32 = 0;
const FILE: u32 = 5;

fn tree_with_file(bytes: &[u8]) -> (ConcurrentConfigTree, FileStore, Vec<ConfigTreeError>) {
    let mut vfs = FileStore::new();
    vfs.set_file(XDG, "/home/.config/rust-analyzer/rust-analyzer.toml".to_string(), Vec::new());
    vfs.set_file(FILE, "/w/rust-analyzer.toml".to_string(), bytes.to_vec());
    let tree = ConcurrentConfigTree::new(ConfigTree::new(XDG));
    let changes = ConfigChanges {
        ra_toml_changes: vec![ChangedFile { file_id: FILE, change_kind: ChangeKind::Create }],
        parent_changes: vec![ConfigParentChange { file_id: FILE, parent: ConfigParent::UserDefault }],
        client_change: None,
    };
    let errors = tree.apply_changes(changes, &vfs);
    (tree, vfs, errors)
}

#[test]
fn empty_file_gives_no_input_and_no_error() {
    let (tree, _vfs, errors) = tree_with_file(b"");
    assert!(errors.is_empty());
    let local = tree.read_config(FILE).unwrap();
    // everything at its default
    assert_eq!(local.completion_autoself_enable, true);
    assert_eq!(local.completion_autoimport_enable, true);
    assert_eq!(local.semantic_highlighting_strings_enable, true);
    assert_eq!(local.inlay_hints_discriminant_hints_enable, DiscriminantHintsDef::Never);
}

#[test]
fn non_utf8_file_degrades_gracefully() {
    let (tree, _vfs, errors) = tree_with_file(&[0xff, 0xfe, 0x00, 0x41]);
    assert_eq!(errors.len(), 1);
    match &errors[0] {
        ConfigTreeError::Utf8 { path, .. } => assert_eq!(path, "/w/rust-analyzer.toml"),
        other => panic!("expected a Utf8 error, got {other:?}"),
    }
    // the node behaves as though it had no overrides
    let local = tree.read_config(FILE).unwrap();
    assert_eq!(local.completion_autoself_enable, true);
}

#[test]
fn malformed_toml_degrades_gracefully() {
    let (tree, _vfs, errors) = tree_with_file(b"= not toml");
    assert_eq!(errors.len(), 1);
    match &errors[0] {
        ConfigTreeError::TomlParse { path, .. } => assert_eq!(path, "/w/rust-analyzer.toml"),
        other => panic!("expected a TomlParse error, got {other:?}"),
    }
    let local = tree.read_config(FILE).unwrap();
    assert_eq!(local.completion_autoself_enable, true);
}

#[test]
fn single_invalid_field_reports_once_and_keeps_the_rest() {
    let (tree, _vfs, errors) =
        tree_with_file(b"[completion.autoself]\nenable = false\n[completion.autoimport]\nenable = 3\n");
    assert_eq!(errors.len(), 1);
    match &errors[0] {
        ConfigTreeError::TomlDeserialize { field, path, .. } => {
            assert_eq!(field, "completion.autoimport.enable");
            assert_eq!(path, "/w/rust-analyzer.toml");
        },
        other => panic!("expected a TomlDeserialize error, got {other:?}"),
    }
    // the well-formed key still applies; the failed one falls back
    let local = tree.read_config(FILE).unwrap();
    assert_eq!(local.completion_autoself_enable, false);
    assert_eq!(local.completion_autoimport_enable, true);
}

#[test]
fn unknown_keys_are_ignored() {
    let (tree, _vfs, errors) =
        tree_with_file(b"[completion]\nsomething_else = 1\n[unknown.table]\nx = \"y\"\n");
    assert!(errors.is_empty());
    let local = tree.read_config(FILE).unwrap();
    assert_eq!(local.completion_autoself_enable, true);
}

#[test]
fn discriminant_hint_variants_parse() {
    let (tree, _vfs, errors) =
        tree_with_file(b"[inlayHints.discriminantHints]\nenable = \"fieldless\"\n");
    assert!(errors.is_empty());
    let local = tree.read_config(FILE).unwrap();
    assert_eq!(local.inlay_hints_discriminant_hints_enable, DiscriminantHintsDef::Fieldless);
}

#[test]
fn unknown_discriminant_variant_is_an_error() {
    let (tree, _vfs, errors) =
        tree_with_file(b"[inlayHints.discriminantHints]\nenable = \"sometimes\"\n");
    assert_eq!(errors.len(), 1);
    match &errors[0] {
        ConfigTreeError::TomlDeserialize { field, .. } => {
            assert_eq!(field, "inlayHints.discriminantHints.enable");
        },
        other => panic!("expected a TomlDeserialize error, got {other:?}"),
    }
    let local = tree.read_config(FILE).unwrap();
    assert_eq!(local.inlay_hints_discriminant_hints_enable, DiscriminantHintsDef::Never);
}

#[test]
fn canon_path_joins_segments() {
    let path = canon_path(
        Some("my_crate".to_string()),
        vec!["inner".to_string(), "deep".to_string()],
        Some("Thing".to_string()),
    );
    assert_eq!(path, "my_crate::inner::deep::Thing");
    let bare = canon_path(None, vec![], Some("Alone".to_string()));
    assert_eq!(bare, "Alone");
    let empty = canon_path(None, vec![], None);
    assert_eq!(empty, "");
}

#[test]
fn oguz_run_reports_success() {
    let cmd = Oguz {};
    assert!(cmd.run().is_ok());
}
