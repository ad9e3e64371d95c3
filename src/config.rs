//! The tool's own configuration: where the vault is, and the checks on it.
use vstd::prelude::*;
use vstd::string::*;

use crate::path::{join, join_path};
use crate::text::{chars_of, trim, trim_bounds};

verus! {

/// `std::io::Error`, carried unopened inside the error types.
#[verifier::external_type_specification]
#[verifier::external_body]
pub struct ExIoError(std::io::Error);

/// `toml::de::Error`, carried unopened inside `ConfigError`.
#[verifier::external_type_specification]
#[verifier::external_body]
pub struct ExTomlDeError(toml::de::Error);

/// `toml::ser::Error`, carried unopened inside `ConfigError`.
#[verifier::external_type_specification]
#[verifier::external_body]
pub struct ExTomlSerError(toml::ser::Error);

/// The tool's configuration.
#[derive(Debug)]
pub struct Config {
    /// The directory of the Obsidian vault.
    pub vault_path: String,
}

/// What can go wrong with the configuration.
#[derive(Debug)]
pub enum ConfigError {
    /// Reading or writing the configuration failed.
    Io(std::io::Error),
    /// The configuration file is not valid TOML for a `Config`.
    TomlDeserialize(toml::de::Error),
    /// The configuration could not be written as TOML.
    TomlSerialize(toml::ser::Error),
    /// There is no configuration file yet.
    NotFound,
    /// Nothing exists at the vault's path.
    VaultNotFound(String),
    /// The vault's path has no `.obsidian` directory.
    NotObsidianVault(String),
}

/// Whether `m` is the message of `e`: the exact text for the errors that
/// carry no outside error; for the others a fixed prefix before the text that
/// the outside error displays.
pub open spec fn describes(e: ConfigError, m: Seq<char>) -> bool {
    match e {
        ConfigError::Io(err) => exists|t: String|
            to_string_from_display_ensures::<std::io::Error>(&err, t) && m == "io error: "@ + t@,
        ConfigError::TomlDeserialize(err) => exists|t: String|
            to_string_from_display_ensures::<toml::de::Error>(&err, t) && m == "toml parse error: "@ + t@,
        ConfigError::TomlSerialize(err) => exists|t: String|
            to_string_from_display_ensures::<toml::ser::Error>(&err, t) && m == "toml serialize error: "@ + t@,
        ConfigError::NotFound => m == "not configured. run 'thn --init [<PATH>]' first"@,
        ConfigError::VaultNotFound(p) => m == "vault not found: "@ + p@,
        ConfigError::NotObsidianVault(p) => m == "not an obsidian vault: "@ + p@,
    }
}

/// Relies on `std::io::Error::kind`: whether the error is of kind `NotFound`.
/// Nothing is promised of the answer.
#[verifier::external_body]
fn is_not_found(err: &std::io::Error) -> (r: bool) {
    err.kind() == std::io::ErrorKind::NotFound
}

impl ConfigError {
    /// The error for a failed file operation, given whether it failed because
    /// the file is missing: `NotFound` then, else the I/O error itself.
    pub fn for_io(err: std::io::Error, missing: bool) -> (r: ConfigError)
        ensures
            missing ==> r is NotFound,
            !missing ==> r == ConfigError::Io(err),
    {
        if missing {
            ConfigError::NotFound
        } else {
            ConfigError::Io(err)
        }
    }

    /// The error for a failed file operation: `NotFound` when the file is
    /// missing, else the I/O error itself.
    pub fn from_io(err: std::io::Error) -> (r: ConfigError)
        ensures
            r is NotFound || r == ConfigError::Io(err),
    {
        let missing = is_not_found(&err);
        ConfigError::for_io(err, missing)
    }

    /// The message that describes the error.
    pub fn message(&self) -> (r: String)
        ensures
            describes(*self, r@),
    {
        match self {
            ConfigError::Io(err) => {
                let detail = err.to_string();
                String::from_str("io error: ").concat(detail.as_str())
            },
            ConfigError::TomlDeserialize(err) => {
                let detail = err.to_string();
                String::from_str("toml parse error: ").concat(detail.as_str())
            },
            ConfigError::TomlSerialize(err) => {
                let detail = err.to_string();
                String::from_str("toml serialize error: ").concat(detail.as_str())
            },
            ConfigError::NotFound => String::from_str("not configured. run 'thn --init [<PATH>]' first"),
            ConfigError::VaultNotFound(p) => String::from_str("vault not found: ").concat(p.as_str()),
            ConfigError::NotObsidianVault(p) => String::from_str("not an obsidian vault: ").concat(
                p.as_str(),
            ),
        }
    }
}

/// The verdict on a vault's path, given whether it exists and whether its
/// `.obsidian` directory exists.
pub fn vault_status(path: &str, exists: bool, has_obsidian_dir: bool) -> (r: Result<(), ConfigError>)
    ensures
        !exists ==> (r matches Err(ConfigError::VaultNotFound(p)) && p@ == path@),
        exists && !has_obsidian_dir ==> (r matches Err(ConfigError::NotObsidianVault(p)) && p@
            == path@),
        exists && has_obsidian_dir ==> r is Ok,
{
    if !exists {
        Err(ConfigError::VaultNotFound(String::from_str(path)))
    } else if !has_obsidian_dir {
        Err(ConfigError::NotObsidianVault(String::from_str(path)))
    } else {
        Ok(())
    }
}

/// Relies on `std::path::Path::exists`: whether something is at the path on
/// disk now.  Nothing is promised of the answer.
#[verifier::external_body]
fn path_exists(path: &str) -> (r: bool) {
    std::path::Path::new(path).exists()
}

/// Checks that `path` exists and is an Obsidian vault (has a `.obsidian`
/// directory).
pub fn validate_vault_path(path: &str) -> (r: Result<(), ConfigError>)
    ensures
        r is Ok || (r matches Err(ConfigError::VaultNotFound(p)) && p@ == path@) || (r matches Err(
            ConfigError::NotObsidianVault(p),
        ) && p@ == path@),
{
    let exists = path_exists(path);
    let has_obsidian_dir = if exists {
        let dir = join(path, ".obsidian");
        path_exists(dir.as_str())
    } else {
        false
    };
    vault_status(path, exists, has_obsidian_dir)
}

/// A vault path as typed, `t` already trimmed: `~` alone is the home
/// directory and `~/rest` is `rest` under it; without a home directory, or
/// for any other text, `t` itself.
pub open spec fn expanded_path(t: Seq<char>, home: Option<Seq<char>>) -> Seq<char> {
    if t == seq!['~'] {
        match home {
            Some(h) => h,
            None => t,
        }
    } else if t.len() >= 2 && t[0] == '~' && t[1] == '/' {
        match home {
            Some(h) => join_path(h, t.subrange(2, t.len() as int)),
            None => t,
        }
    } else {
        t
    }
}

/// The vault path that `input` names, given the home directory: `None` when
/// `input` is only whitespace, else `expanded_path` of the trimmed input.
pub fn expand_vault_path(input: &str, home: Option<String>) -> (r: Option<String>)
    ensures
        trim(input@).len() == 0 <==> r is None,
        r matches Some(p) ==> p@ == expanded_path(
            trim(input@),
            match home {
                Some(h) => Some(h@),
                None => None,
            },
        ),
{
    let chars = chars_of(input);
    let (lo, hi) = trim_bounds(&chars, 0, chars.len());
    assert(chars@.subrange(0, chars@.len() as int) =~= chars@);
    if lo == hi {
        return None;
    }
    let t = input.substring_char(lo, hi);
    let n = hi - lo;
    let tilde_only = n == 1 && t.get_char(0) == '~';
    let tilde_slash = n >= 2 && t.get_char(0) == '~' && t.get_char(1) == '/';
    if tilde_only {
        assert(t@ =~= seq!['~']);
        match home {
            Some(h) => Some(h),
            None => Some(String::from_str(t)),
        }
    } else if tilde_slash {
        match home {
            Some(h) => {
                let rest = t.substring_char(2, n);
                Some(join(h.as_str(), rest))
            },
            None => Some(String::from_str(t)),
        }
    } else {
        assert(t@ != seq!['~']);
        Some(String::from_str(t))
    }
}

/// Relies on `dirs::home_dir`: the user's home directory, when the
/// environment names one and it is valid Unicode.  Nothing is promised of
/// the answer.
#[verifier::external_body]
fn home_dir() -> (r: Option<String>) {
    match dirs::home_dir() {
        Some(p) => p.into_os_string().into_string().ok(),
        None => None,
    }
}

/// Relies on `std::io::Error::new`: an error of kind `InvalidInput` with the
/// message `msg`.
#[verifier::external_body]
fn invalid_input(msg: &str) -> (r: std::io::Error) {
    std::io::Error::new(std::io::ErrorKind::InvalidInput, msg)
}

/// The vault path that `input` names: trimmed, with a leading `~` expanded
/// to the home directory.  Fails when `input` is only whitespace.
pub fn parse_vault_path(input: &str) -> (r: Result<String, std::io::Error>)
    ensures
        trim(input@).len() == 0 <==> r is Err,
        r matches Ok(p) ==> exists|home: Option<Seq<char>>| p@ == expanded_path(trim(input@), home),
{
    let home = home_dir();
    let ghost h = match &home {
        Some(s) => Some(s@),
        None => None::<Seq<char>>,
    };
    match expand_vault_path(input, home) {
        Some(p) => {
            assert(p@ == expanded_path(trim(input@), h));
            Ok(p)
        },
        None => Err(invalid_input("vault path is required")),
    }
}

} // verus!
