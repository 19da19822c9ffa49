//! The on-disk shape of `forja.toml`, with every field optional, so a
//! missing or wrong-typed field becomes a validation problem that is reported
//! with the others instead of a hard parse failure.
//!
//! TOML values are held as [`TomlValue`]: the parts of a value that the
//! validation reads (a string, a boolean, an array), and `Other` for every
//! other kind of value.
use vstd::prelude::*;

verus! {

/// A TOML value, as far as validation reads it.
#[derive(Debug, PartialEq, Eq)]
pub enum TomlValue {
    String(String),
    Boolean(bool),
    Array(Vec<TomlValue>),
    /// An integer, float, datetime or table.
    Other,
}

/// `toml::Value::as_str`.
pub open spec fn toml_str(v: TomlValue) -> Option<Seq<char>> {
    match v {
        TomlValue::String(s) => Some(s@),
        _ => None,
    }
}

/// `toml::Value::as_bool`.
pub open spec fn toml_bool(v: TomlValue) -> Option<bool> {
    match v {
        TomlValue::Boolean(b) => Some(b),
        _ => None,
    }
}

/// `toml::Value::as_array`.
pub open spec fn toml_items(v: TomlValue) -> Option<Seq<TomlValue>> {
    match v {
        TomlValue::Array(items) => Some(items@),
        _ => None,
    }
}

/// The root table. `extra` lists the keys that the schema does not know.
#[derive(Debug, PartialEq, Eq)]
pub struct RawConfig {
    pub version: Option<TomlValue>,
    pub git: Option<RawGitConfig>,
    pub flow: Option<RawFlowConfig>,
    pub extra: Vec<String>,
}

/// The `[git]` table.
#[derive(Debug, PartialEq, Eq)]
pub struct RawGitConfig {
    pub user_name: Option<TomlValue>,
    pub user_email: Option<TomlValue>,
    pub default_branch: Option<TomlValue>,
    pub editor: Option<TomlValue>,
    pub pull_rebase: Option<TomlValue>,
    pub aliases: Option<RawGitAliases>,
    pub extra: Vec<String>,
}

/// The `[git.aliases]` table, in the order its entries are visited.
#[derive(Debug, PartialEq, Eq)]
pub struct RawGitAliases {
    pub entries: Vec<(String, TomlValue)>,
}

/// The `[flow]` table.
#[derive(Debug, PartialEq, Eq)]
pub struct RawFlowConfig {
    pub base_branch: Option<TomlValue>,
    pub strategy: Option<TomlValue>,
    pub auto_push: Option<TomlValue>,
    pub protected_branches: Option<TomlValue>,
    pub extra: Vec<String>,
}

} // verus!
