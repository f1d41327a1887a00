//! Parsing one configuration file into a sparse input record.
//!
//! The TOML grammar itself is handled by the `toml` crate behind two trusted
//! functions; everything they return is reduced to plain scalar leaves under
//! dotted keys. Field extraction — which keys the schema knows, which value
//! shapes they take, and the per-field error reporting — is verified code.

use vstd::prelude::*;

use crate::config_data::ConfigInput;
use crate::config_data::DiscriminantHintsDef;
use crate::config_data::LocalConfigInput;
use crate::errors::ConfigTreeError;
use crate::errors::ErrorV;
use crate::errors::errors_view;
use crate::store::FileStore;

verus! {

/// One scalar leaf of a parsed document.
#[derive(Debug, Clone)]
pub enum TomlScalar {
    Bool(bool),
    Int(i64),
    Str(String),
    /// A value of some other shape; carries the document type's name, for
    /// diagnostics.
    Other(String),
}

/// A scalar leaf under its dotted key.
#[derive(Debug, Clone)]
pub struct TomlEntry {
    pub key: String,
    pub value: TomlScalar,
}

/// The mathematical image of a [`TomlScalar`].
pub enum ScalarV {
    Bool(bool),
    Int(i64),
    Str(Seq<char>),
    Other(Seq<char>),
}

/// The mathematical image of a [`TomlEntry`].
pub struct EntryV {
    pub key: Seq<char>,
    pub value: ScalarV,
}

impl View for TomlScalar {
    type V = ScalarV;

    open spec fn view(&self) -> ScalarV {
        match self {
            TomlScalar::Bool(b) => ScalarV::Bool(*b),
            TomlScalar::Int(i) => ScalarV::Int(*i),
            TomlScalar::Str(s) => ScalarV::Str(s@),
            TomlScalar::Other(t) => ScalarV::Other(t@),
        }
    }
}

impl View for TomlEntry {
    type V = EntryV;

    open spec fn view(&self) -> EntryV {
        EntryV { key: self.key@, value: self.value@ }
    }
}

/// The views of a sequence of entries, in order.
pub open spec fn entries_view(s: Seq<TomlEntry>) -> Seq<EntryV> {
    s.map(|i: int, e: TomlEntry| e@)
}

/// What decoding a byte sequence as UTF-8 yields: the characters, or the
/// failure message.
pub uninterp spec fn utf8_decode(bytes: Seq<u8>) -> Result<Seq<char>, Seq<char>>;

/// What scanning a text as a TOML document yields: its scalar leaves under
/// dotted keys, in sorted key order, or the parse failure message.
pub uninterp spec fn toml_scan(text: Seq<char>) -> Result<Seq<EntryV>, Seq<char>>;

/// Relies on std::str::from_utf8: succeeds exactly on valid UTF-8 input and
/// yields the decoded characters; the outcome depends on the bytes alone.
#[verifier::external_body]
fn decode_utf8(bytes: &[u8]) -> (r: Result<String, String>)
    ensures
        match r {
            Ok(s) => utf8_decode(bytes@) matches Ok(cs) && s@ == cs,
            Err(e) => utf8_decode(bytes@) matches Err(d) && e@ == d,
        },
{
    match std::str::from_utf8(bytes) {
        Ok(s) => Ok(s.to_owned()),
        Err(e) => Err(format!("{e}")),
    }
}

#[verifier::external_type_specification]
#[verifier::external_body]
#[verifier::reject_recursive_types(K)]
#[verifier::reject_recursive_types(V)]
pub struct ExTomlMap<K, V>(toml::map::Map<K, V>);

#[verifier::external_type_specification]
#[verifier::external_body]
pub struct ExTomlValue(toml::Value);

/// Relies on toml::from_str: parses the text as a TOML document, whose
/// shape — and hence this scan of its scalar leaves — depends on the text
/// alone.
#[verifier::external_body]
fn scan_toml(text: &str) -> (r: Result<Vec<TomlEntry>, String>)
    ensures
        match r {
            Ok(es) => toml_scan(text@) matches Ok(l) && entries_view(es@) == l,
            Err(e) => toml_scan(text@) matches Err(d) && e@ == d,
        },
{
    match toml::from_str::<toml::Table>(text) {
        Ok(table) => Ok(flatten_table(&table, "")),
        Err(e) => Err(e.to_string()),
    }
}

/// Relies on toml::Value: walks nested tables and lists their scalar
/// leaves under dotted keys. The crate's map keeps its keys sorted, so the
/// leaves come in sorted key order, not the document's.
#[verifier::external_body]
fn flatten_table(table: &toml::Table, prefix: &str) -> Vec<TomlEntry> {
    let mut out = Vec::new();
    for (k, v) in table.iter() {
        let key = if prefix.is_empty() { k.clone() } else { format!("{prefix}.{k}") };
        match v {
            toml::Value::Table(t) => out.append(&mut flatten_table(t, &key)),
            toml::Value::Boolean(b) => out.push(TomlEntry { key, value: TomlScalar::Bool(*b) }),
            toml::Value::Integer(i) => out.push(TomlEntry { key, value: TomlScalar::Int(*i) }),
            toml::Value::String(s) => out.push(TomlEntry { key, value: TomlScalar::Str(s.clone()) }),
            other => out.push(TomlEntry { key, value: TomlScalar::Other(other.type_str().to_owned()) }),
        }
    }
    out
}

} // verus!

verus! {

/// The dotted key enabling self-completions.
pub open spec fn key_autoself() -> Seq<char> {
    "completion.autoself.enable"@
}

/// The dotted key enabling auto-import completions.
pub open spec fn key_autoimport() -> Seq<char> {
    "completion.autoimport.enable"@
}

/// The dotted key enabling semantic highlighting of strings.
pub open spec fn key_strings() -> Seq<char> {
    "semanticHighlighting.strings.enable"@
}

/// The dotted key choosing how discriminant hints are rendered.
pub open spec fn key_discriminant() -> Seq<char> {
    "inlayHints.discriminantHints.enable"@
}

/// Diagnostic detail for a key whose value should have been a boolean.
pub open spec fn msg_expected_bool() -> Seq<char> {
    "expected a boolean"@
}

/// Diagnostic detail for a key whose value should have been a string.
pub open spec fn msg_expected_string() -> Seq<char> {
    "expected a string"@
}

/// Diagnostic detail for an enumerated key set to an unknown name.
pub open spec fn msg_unknown_variant() -> Seq<char> {
    "unknown variant"@
}

/// How one scalar leaf lands in the sparse record: a known key with a value
/// of the right shape sets its field; a known key with the wrong shape
/// leaves the field as it was and appends one deserialization error; an
/// unknown key is ignored.
pub open spec fn apply_entry(
    acc: LocalConfigInput,
    errs: Seq<ErrorV>,
    e: EntryV,
    path: Seq<char>,
) -> (LocalConfigInput, Seq<ErrorV>) {
    if e.key == key_autoself() {
        match e.value {
            ScalarV::Bool(b) => (
                LocalConfigInput { completion_autoself_enable: Some(b), ..acc },
                errs,
            ),
            _ => (
                acc,
                errs.push(
                    ErrorV::TomlDeserialize { path, field: e.key, detail: msg_expected_bool() },
                ),
            ),
        }
    } else if e.key == key_autoimport() {
        match e.value {
            ScalarV::Bool(b) => (
                LocalConfigInput { completion_autoimport_enable: Some(b), ..acc },
                errs,
            ),
            _ => (
                acc,
                errs.push(
                    ErrorV::TomlDeserialize { path, field: e.key, detail: msg_expected_bool() },
                ),
            ),
        }
    } else if e.key == key_strings() {
        match e.value {
            ScalarV::Bool(b) => (
                LocalConfigInput { semantic_highlighting_strings_enable: Some(b), ..acc },
                errs,
            ),
            _ => (
                acc,
                errs.push(
                    ErrorV::TomlDeserialize { path, field: e.key, detail: msg_expected_bool() },
                ),
            ),
        }
    } else if e.key == key_discriminant() {
        match e.value {
            ScalarV::Str(s) => {
                if s == "always"@ {
                    (
                        LocalConfigInput {
                            inlay_hints_discriminant_hints_enable: Some(
                                DiscriminantHintsDef::Always,
                            ),
                            ..acc
                        },
                        errs,
                    )
                } else if s == "never"@ {
                    (
                        LocalConfigInput {
                            inlay_hints_discriminant_hints_enable: Some(
                                DiscriminantHintsDef::Never,
                            ),
                            ..acc
                        },
                        errs,
                    )
                } else if s == "fieldless"@ {
                    (
                        LocalConfigInput {
                            inlay_hints_discriminant_hints_enable: Some(
                                DiscriminantHintsDef::Fieldless,
                            ),
                            ..acc
                        },
                        errs,
                    )
                } else {
                    (
                        acc,
                        errs.push(
                            ErrorV::TomlDeserialize {
                                path,
                                field: e.key,
                                detail: msg_unknown_variant(),
                            },
                        ),
                    )
                }
            },
            _ => (
                acc,
                errs.push(
                    ErrorV::TomlDeserialize { path, field: e.key, detail: msg_expected_string() },
                ),
            ),
        }
    } else {
        (acc, errs)
    }
}

/// The sparse record and errors produced by folding the scan's leaves in
/// the scan's (sorted key) order over the all-unset record.
pub open spec fn scan_fold(entries: Seq<EntryV>, path: Seq<char>) -> (LocalConfigInput, Seq<ErrorV>)
    decreases entries.len(),
{
    if entries.len() == 0 {
        (LocalConfigInput::empty_spec(), Seq::empty())
    } else {
        let prev = scan_fold(entries.drop_last(), path);
        apply_entry(prev.0, prev.1, entries.last(), path)
    }
}

/// What parsing one file yields. Empty bytes give no input and no error;
/// bytes that are not UTF-8, or text that is not TOML, give no input and
/// one error; a parsed document gives a sparse input plus one error per
/// field that failed validation.
pub open spec fn parse_file_spec(path: Seq<char>, bytes: Seq<u8>) -> (
    Option<ConfigInput>,
    Seq<ErrorV>,
) {
    if bytes.len() == 0 {
        (None, Seq::empty())
    } else {
        match utf8_decode(bytes) {
            Err(d) => (None, seq![ErrorV::Utf8 { path, detail: d }]),
            Ok(text) => match toml_scan(text) {
                Err(d) => (None, seq![ErrorV::TomlParse { path, detail: d }]),
                Ok(entries) => {
                    let fe = scan_fold(entries, path);
                    (Some(ConfigInput { local: fe.0 }), fe.1)
                },
            },
        }
    }
}

/// Appending onto a longer error list changes nothing but the prefix.
proof fn lemma_apply_entry_prefix(
    acc: LocalConfigInput,
    e1: Seq<ErrorV>,
    e2: Seq<ErrorV>,
    e: EntryV,
    path: Seq<char>,
)
    ensures
        apply_entry(acc, e1 + e2, e, path).0 == apply_entry(acc, e2, e, path).0,
        apply_entry(acc, e1 + e2, e, path).1 == e1 + apply_entry(acc, e2, e, path).1,
{
    assert forall|x: ErrorV| (e1 + e2).push(x) == e1 + e2.push(x) by {
        assert((e1 + e2).push(x) =~= e1 + e2.push(x));
    }
}

fn apply_entry_exec(
    acc: LocalConfigInput,
    errors: &mut Vec<ConfigTreeError>,
    entry: &TomlEntry,
    path: &String,
) -> (r: LocalConfigInput)
    ensures
        ({
            let s = apply_entry(acc, errors_view(old(errors)@), entry@, path@);
            r == s.0 && errors_view(final(errors)@) == s.1
        }),
{
    proof {
        assert(errors_view(old(errors)@) == old(errors)@.map(|i: int, e: ConfigTreeError| e@));
    }
    let k_autoself: String = "completion.autoself.enable".to_owned();
    let k_autoimport: String = "completion.autoimport.enable".to_owned();
    let k_strings: String = "semanticHighlighting.strings.enable".to_owned();
    let k_discriminant: String = "inlayHints.discriminantHints.enable".to_owned();
    if entry.key == k_autoself {
        match &entry.value {
            TomlScalar::Bool(b) => {
                return LocalConfigInput { completion_autoself_enable: Some(*b), ..acc };
            },
            _ => {
                push_field_error(errors, path, &entry.key, "expected a boolean");
                return acc;
            },
        }
    }
    if entry.key == k_autoimport {
        match &entry.value {
            TomlScalar::Bool(b) => {
                return LocalConfigInput { completion_autoimport_enable: Some(*b), ..acc };
            },
            _ => {
                push_field_error(errors, path, &entry.key, "expected a boolean");
                return acc;
            },
        }
    }
    if entry.key == k_strings {
        match &entry.value {
            TomlScalar::Bool(b) => {
                return LocalConfigInput { semantic_highlighting_strings_enable: Some(*b), ..acc };
            },
            _ => {
                push_field_error(errors, path, &entry.key, "expected a boolean");
                return acc;
            },
        }
    }
    if entry.key == k_discriminant {
        match &entry.value {
            TomlScalar::Str(s) => {
                let v_always: String = "always".to_owned();
                let v_never: String = "never".to_owned();
                let v_fieldless: String = "fieldless".to_owned();
                if *s == v_always {
                    return LocalConfigInput {
                        inlay_hints_discriminant_hints_enable: Some(DiscriminantHintsDef::Always),
                        ..acc
                    };
                }
                if *s == v_never {
                    return LocalConfigInput {
                        inlay_hints_discriminant_hints_enable: Some(DiscriminantHintsDef::Never),
                        ..acc
                    };
                }
                if *s == v_fieldless {
                    return LocalConfigInput {
                        inlay_hints_discriminant_hints_enable: Some(
                            DiscriminantHintsDef::Fieldless,
                        ),
                        ..acc
                    };
                }
                push_field_error(errors, path, &entry.key, "unknown variant");
                return acc;
            },
            _ => {
                push_field_error(errors, path, &entry.key, "expected a string");
                return acc;
            },
        }
    }
    acc
}

/// Records that one field of the file failed validation.
fn push_field_error(errors: &mut Vec<ConfigTreeError>, path: &String, field: &String, detail: &str)
    ensures
        errors_view(final(errors)@) == errors_view(old(errors)@).push(
            ErrorV::TomlDeserialize { path: path@, field: field@, detail: detail@ },
        ),
{
    let e = ConfigTreeError::TomlDeserialize {
        path: path.clone(),
        field: field.clone(),
        detail: detail.to_owned(),
    };
    errors.push(e);
    proof {
        assert(errors_view(final(errors)@) =~= errors_view(old(errors)@).push(
            ErrorV::TomlDeserialize { path: path@, field: field@, detail: detail@ },
        ));
    }
}

/// Parses one file of the store into a sparse input, appending any
/// diagnostics; see [`parse_file_spec`] for the exact outcome.
pub fn parse_toml(file_id: u32, vfs: &FileStore, errors: &mut Vec<ConfigTreeError>) -> (r: Option<
    ConfigInput,
>)
    requires
        vfs.spec_contains(file_id),
    ensures
        ({
            let s = parse_file_spec(vfs.spec_path(file_id), vfs.spec_contents(file_id));
            r == s.0 && errors_view(final(errors)@) == errors_view(old(errors)@) + s.1
        }),
{
    let ghost path_v = vfs.spec_path(file_id);
    let ghost bytes_v = vfs.spec_contents(file_id);
    let entry = match vfs.get(file_id) {
        Some(e) => e,
        None => {
            // unreachable: the store is required to contain the file
            proof {
                assert(false);
            }
            return None;
        },
    };
    if entry.contents.len() == 0 {
        proof {
            assert(errors_view(old(errors)@) + Seq::<ErrorV>::empty() =~= errors_view(
                old(errors)@,
            ));
        }
        return None;
    }
    let text = match decode_utf8(entry.contents.as_slice()) {
        Ok(t) => t,
        Err(d) => {
            let e = ConfigTreeError::Utf8 { path: entry.path.clone(), detail: d };
            errors.push(e);
            proof {
                let s1 = parse_file_spec(path_v, bytes_v).1;
                assert(errors_view(final(errors)@) =~= errors_view(old(errors)@) + s1);
            }
            return None;
        },
    };
    let entries = match scan_toml(text.as_str()) {
        Ok(es) => es,
        Err(d) => {
            let e = ConfigTreeError::TomlParse { path: entry.path.clone(), detail: d };
            errors.push(e);
            proof {
                let s1 = parse_file_spec(path_v, bytes_v).1;
                assert(errors_view(final(errors)@) =~= errors_view(old(errors)@) + s1);
            }
            return None;
        },
    };
    let ghost all = entries_view(entries@);
    let mut acc = LocalConfigInput::empty();
    let mut i: usize = 0;
    let n = entries.len();
    while i < n
        invariant
            i <= n,
            n == entries@.len(),
            all == entries_view(entries@),
            toml_scan(text@) == Result::<Seq<EntryV>, Seq<char>>::Ok(all),
            acc == scan_fold(all.take(i as int), path_v).0,
            errors_view(errors@) == errors_view(old(errors)@) + scan_fold(
                all.take(i as int),
                path_v,
            ).1,
            entry.path@ == path_v,
        decreases n - i,
    {
        let ghost pre = errors_view(errors@);
        let ghost fold_i = scan_fold(all.take(i as int), path_v);
        acc = apply_entry_exec(acc, errors, &entries[i], &entry.path);
        proof {
            assert(entries_view(entries@)[i as int] == entries@[i as int]@);
            lemma_apply_entry_prefix(
                fold_i.0,
                errors_view(old(errors)@),
                fold_i.1,
                all[i as int],
                path_v,
            );
            assert(all.take(i + 1int).drop_last() =~= all.take(i as int));
            assert(all.take(i + 1int).last() == all[i as int]);
        }
        i += 1;
    }
    proof {
        assert(all.take(n as int) =~= all);
    }
    Some(ConfigInput { local: acc })
}

} // verus!
