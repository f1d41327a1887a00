//! Errors surfaced by the configuration tree.

use vstd::prelude::*;

verus! {

/// An error raised while reading or rebuilding the tree.
///
/// Batch application accumulates every error it meets; a single read returns
/// at most one, the first structural failure on its path.
#[derive(Debug, Clone)]
pub enum ConfigTreeError {
    /// The operation addressed a file handle that was never introduced.
    NonExistent,
    /// The operation addressed a node whose storage has been tombstoned.
    /// Nodes are currently never tombstoned, so no operation produces it;
    /// it is kept so callers can match the full taxonomy.
    Removed,
    /// A reattachment would have made the node an ancestor of itself.
    Cycle { file_id: u32 },
    /// The file's bytes are not valid UTF-8.
    Utf8 { path: String, detail: String },
    /// The file's text is not syntactically valid TOML.
    TomlParse { path: String, detail: String },
    /// One field of an otherwise well-formed file failed type validation.
    TomlDeserialize { path: String, field: String, detail: String },
}

/// The mathematical image of a [`ConfigTreeError`].
pub enum ErrorV {
    NonExistent,
    Removed,
    Cycle { file_id: u32 },
    Utf8 { path: Seq<char>, detail: Seq<char> },
    TomlParse { path: Seq<char>, detail: Seq<char> },
    TomlDeserialize { path: Seq<char>, field: Seq<char>, detail: Seq<char> },
}

impl View for ConfigTreeError {
    type V = ErrorV;

    open spec fn view(&self) -> ErrorV {
        match self {
            ConfigTreeError::NonExistent => ErrorV::NonExistent,
            ConfigTreeError::Removed => ErrorV::Removed,
            ConfigTreeError::Cycle { file_id } => ErrorV::Cycle { file_id: *file_id },
            ConfigTreeError::Utf8 { path, detail } => ErrorV::Utf8 {
                path: path@,
                detail: detail@,
            },
            ConfigTreeError::TomlParse { path, detail } => ErrorV::TomlParse {
                path: path@,
                detail: detail@,
            },
            ConfigTreeError::TomlDeserialize { path, field, detail } => ErrorV::TomlDeserialize {
                path: path@,
                field: field@,
                detail: detail@,
            },
        }
    }
}

impl ConfigTreeError {
    /// A short human-readable rendering, for callers that log errors.
    pub fn describe(&self) -> String {
        match self {
            ConfigTreeError::NonExistent => "file was never introduced".to_owned(),
            ConfigTreeError::Removed => "node has been removed".to_owned(),
            ConfigTreeError::Cycle { .. } => "reattachment would create a cycle".to_owned(),
            ConfigTreeError::Utf8 { .. } => "file is not valid UTF-8".to_owned(),
            ConfigTreeError::TomlParse { .. } => "file is not valid TOML".to_owned(),
            ConfigTreeError::TomlDeserialize { .. } => "a field failed validation".to_owned(),
        }
    }
}

/// The views of a vector of errors, in order.
pub open spec fn errors_view(errs: Seq<ConfigTreeError>) -> Seq<ErrorV> {
    errs.map(|i: int, e: ConfigTreeError| e@)
}

} // verus!
