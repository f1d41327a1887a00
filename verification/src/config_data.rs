//! The layered configuration record.
//!
//! The tree treats the configuration schema as an opaque layered record with
//! two operations: building the dense default record, and overlaying a sparse
//! layer onto a dense one. The concrete keys here are a small schema that
//! exercises every value shape the tree cares about: plain booleans and one
//! enumerated setting.

use vstd::prelude::*;

verus! {

/// How discriminant inlay hints are rendered.
#[derive(Clone, Copy, Debug, PartialEq, Eq, Structural)]
pub enum DiscriminantHintsDef {
    Always,
    Never,
    Fieldless,
}

/// One file's parsed settings: a sparse record in which "unset" is a
/// first-class state distinct from "set to the default".
#[derive(Clone, Copy, Debug, PartialEq, Eq, Structural)]
pub struct LocalConfigInput {
    pub completion_autoself_enable: Option<bool>,
    pub completion_autoimport_enable: Option<bool>,
    pub semantic_highlighting_strings_enable: Option<bool>,
    pub inlay_hints_discriminant_hints_enable: Option<DiscriminantHintsDef>,
}

impl LocalConfigInput {
    /// The sparse record with every key unset.
    pub open spec fn empty_spec() -> Self {
        LocalConfigInput {
            completion_autoself_enable: None,
            completion_autoimport_enable: None,
            semantic_highlighting_strings_enable: None,
            inlay_hints_discriminant_hints_enable: None,
        }
    }

    /// Builds the sparse record with every key unset.
    pub fn empty() -> (r: Self)
        ensures
            r == Self::empty_spec(),
    {
        LocalConfigInput {
            completion_autoself_enable: None,
            completion_autoimport_enable: None,
            semantic_highlighting_strings_enable: None,
            inlay_hints_discriminant_hints_enable: None,
        }
    }
}

/// A whole parsed configuration file. The tree only layers the `local`
/// sub-record through inheritance.
#[derive(Clone, Copy, Debug, PartialEq, Eq, Structural)]
pub struct ConfigInput {
    pub local: LocalConfigInput,
}

impl View for ConfigInput {
    type V = ConfigInput;

    open spec fn view(&self) -> ConfigInput {
        *self
    }
}

/// The effective configuration at a node: a dense record in which every key
/// has a resolved value.
#[derive(Clone, Copy, Debug, PartialEq, Eq, Structural)]
pub struct LocalConfigData {
    pub completion_autoself_enable: bool,
    pub completion_autoimport_enable: bool,
    pub semantic_highlighting_strings_enable: bool,
    pub inlay_hints_discriminant_hints_enable: DiscriminantHintsDef,
}

impl View for LocalConfigData {
    type V = LocalConfigData;

    open spec fn view(&self) -> LocalConfigData {
        *self
    }
}

impl LocalConfigData {
    /// Every key at its built-in default.
    pub open spec fn default_spec() -> Self {
        LocalConfigData {
            completion_autoself_enable: true,
            completion_autoimport_enable: true,
            semantic_highlighting_strings_enable: true,
            inlay_hints_discriminant_hints_enable: DiscriminantHintsDef::Never,
        }
    }

    /// Builds the dense record with every key at its built-in default.
    pub fn default_data() -> (r: Self)
        ensures
            r == Self::default_spec(),
    {
        LocalConfigData {
            completion_autoself_enable: true,
            completion_autoimport_enable: true,
            semantic_highlighting_strings_enable: true,
            inlay_hints_discriminant_hints_enable: DiscriminantHintsDef::Never,
        }
    }

    /// The dense record produced by overlaying the set keys of `overlay`
    /// onto `self`; unset keys pass through unchanged.
    pub open spec fn overlaid(self, overlay: LocalConfigInput) -> Self {
        LocalConfigData {
            completion_autoself_enable: match overlay.completion_autoself_enable {
                Some(b) => b,
                None => self.completion_autoself_enable,
            },
            completion_autoimport_enable: match overlay.completion_autoimport_enable {
                Some(b) => b,
                None => self.completion_autoimport_enable,
            },
            semantic_highlighting_strings_enable: match overlay
                .semantic_highlighting_strings_enable {
                Some(b) => b,
                None => self.semantic_highlighting_strings_enable,
            },
            inlay_hints_discriminant_hints_enable: match overlay
                .inlay_hints_discriminant_hints_enable {
                Some(d) => d,
                None => self.inlay_hints_discriminant_hints_enable,
            },
        }
    }

    /// Produces a fresh dense record by overlaying any set keys from the
    /// sparse layer onto this one. Pure: `self` is unchanged.
    pub fn clone_with_overrides(&self, overlay: LocalConfigInput) -> (r: Self)
        ensures
            r == self.overlaid(overlay),
    {
        LocalConfigData {
            completion_autoself_enable: match overlay.completion_autoself_enable {
                Some(b) => b,
                None => self.completion_autoself_enable,
            },
            completion_autoimport_enable: match overlay.completion_autoimport_enable {
                Some(b) => b,
                None => self.completion_autoimport_enable,
            },
            semantic_highlighting_strings_enable: match overlay
                .semantic_highlighting_strings_enable {
                Some(b) => b,
                None => self.semantic_highlighting_strings_enable,
            },
            inlay_hints_discriminant_hints_enable: match overlay
                .inlay_hints_discriminant_hints_enable {
                Some(d) => d,
                None => self.inlay_hints_discriminant_hints_enable,
            },
        }
    }
}

/// The root-layer interpretation of a sparse input. With the present schema
/// it coincides with overlaying the input onto the defaults, but it is kept
/// as its own type so that a schema with root-only keys can diverge without
/// touching the tree.
#[derive(Clone, Copy, Debug, PartialEq, Eq, Structural)]
pub struct RootLocalConfigData(pub LocalConfigData);

impl RootLocalConfigData {
    /// The dense record a root node derives from its own sparse input.
    pub open spec fn from_root_input_spec(local: LocalConfigInput) -> Self {
        RootLocalConfigData(LocalConfigData::default_spec().overlaid(local))
    }

    /// Interprets a sparse input as the configuration of a root node.
    pub fn from_root_input(local: LocalConfigInput) -> (r: Self)
        ensures
            r == Self::from_root_input_spec(local),
    {
        let defaults = LocalConfigData::default_data();
        RootLocalConfigData(defaults.clone_with_overrides(local))
    }
}

} // verus!
