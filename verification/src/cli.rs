//! The command line: the commands pigeon understands.

use vstd::prelude::*;

use crate::config::PigeonConfig;

verus! {

/// A parsed command line.
pub struct Cli {
    pub command: Command,
}

/// What to do.
pub enum Command {
    /// Run the notification daemon.
    Serve,
    /// Show, list or pick the active profile.
    Profile(ProfileCommand),
    /// Print the default configuration, print the config path, or point pigeon at another file.
    Config(ConfigCommand),
    /// Show, clear, enable or disable the notification history.
    History(HistoryCommand),
}

pub struct ProfileCommand {
    pub command: ProfileSubcommand,
}

pub enum ProfileSubcommand {
    Show,
    List,
    Select { profile: String },
}

pub struct ConfigCommand {
    pub command: ConfigSubcommand,
}

pub enum ConfigSubcommand {
    Default,
    Path,
    SetPath { path: String },
}

pub struct HistoryCommand {
    pub command: HistorySubcommand,
}

#[derive(Clone, Copy, Debug, PartialEq, Eq, Structural)]
pub enum HistorySubcommand {
    Show,
    Clear,
    Enable,
    Disable,
}

/// Why a command was refused.
#[derive(Debug)]
pub enum CliError {
    /// No profile has this name.
    UnknownProfile(String),
    /// The configuration text is no TOML document, or the table to edit is
    /// held by a value that is not a table.
    NotEditable,
}

/// A value written into the configuration text.
pub enum TomlScalar {
    Bool(bool),
    Text(String),
}

/// The content of a [`TomlScalar`].
pub enum TomlScalarModel {
    Bool(bool),
    Text(Seq<char>),
}

impl View for TomlScalar {
    type V = TomlScalarModel;

    open spec fn view(&self) -> TomlScalarModel {
        match self {
            TomlScalar::Bool(b) => TomlScalarModel::Bool(*b),
            TomlScalar::Text(t) => TomlScalarModel::Text(t@),
        }
    }
}

/// The configuration text after `key` in `table` is set to `value`, as
/// `toml_edit` writes it back (formatting and comments elsewhere kept), or
/// `None` when the text is no TOML document or `table` names a value that
/// holds no keys.
pub uninterp spec fn toml_set_model(
    source: Seq<char>,
    table: Seq<char>,
    key: Seq<char>,
    value: TomlScalarModel,
) -> Option<Seq<char>>;

/// Sets `key` in `table` of a TOML text to `value`.
///
/// Trusted: parses `source` as a `toml_edit::DocumentMut`, takes the item
/// under `table` (a missing one is added), sets `key` in it through
/// `Item::get_mut` and prints the document back. The contract only names
/// that text; it says nothing of its layout.
#[verifier::external_body]
fn toml_set(source: &str, table: &str, key: &str, value: TomlScalar) -> (r: Option<String>)
    ensures
        match r {
            Some(text) => toml_set_model(source@, table@, key@, value@) == Some(text@),
            None => toml_set_model(source@, table@, key@, value@) is None,
        },
{
    let mut document = source.parse::<toml_edit::DocumentMut>().ok()?;
    let slot = document[table].get_mut(key)?;
    *slot = match value {
        TomlScalar::Bool(b) => toml_edit::value(b),
        TomlScalar::Text(t) => toml_edit::value(t),
    };
    Some(document.to_string())
}

/// The configuration text with `history.enabled` set, or `None` when the
/// text cannot be edited.
pub fn set_history_enabled(source: &str, enabled: bool) -> (r: Option<String>)
    ensures
        match toml_set_model(source@, "history"@, "enabled"@, TomlScalarModel::Bool(enabled)) {
            Some(text) => r is Some && r->Some_0@ == text,
            None => r is None,
        },
{
    toml_set(source, "history", "enabled", TomlScalar::Bool(enabled))
}

/// The configuration text with `profile.active` set to `name`, once the
/// configuration is known to have a profile of that name.
pub fn set_active_profile(config: &PigeonConfig, source: &str, name: &str) -> (r: Result<
    String,
    CliError,
>)
    requires
        config.wf(),
    ensures
        !config.profiles@.contains_key(name@) ==> (r matches Err(CliError::UnknownProfile(n))
            && n@ == name@),
        config.profiles@.contains_key(name@) ==> match toml_set_model(
            source@,
            "profile"@,
            "active"@,
            TomlScalarModel::Text(name@),
        ) {
            Some(text) => r is Ok && r->Ok_0@ == text,
            None => r matches Err(CliError::NotEditable),
        },
{
    check_profile(config, name)?;
    match toml_set(source, "profile", "active", TomlScalar::Text(name.to_owned())) {
        Some(text) => Ok(text),
        None => Err(CliError::NotEditable),
    }
}

/// Checks that a profile exists before it is made the active one.
pub fn check_profile(config: &PigeonConfig, profile: &str) -> (r: Result<(), CliError>)
    requires
        config.wf(),
    ensures
        match r {
            Ok(()) => config.profiles@.contains_key(profile@),
            Err(CliError::UnknownProfile(name)) => !config.profiles@.contains_key(profile@)
                && name@ == profile@,
            Err(CliError::NotEditable) => false,
        },
{
    match config.profile(profile) {
        Some(_) => Ok(()),
        None => Err(CliError::UnknownProfile(profile.to_owned())),
    }
}

} // verus!
