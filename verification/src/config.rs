//! Finding the config file and checking what it holds.

use vstd::prelude::*;

use std::path::PathBuf;

use crate::outside::{self, toml_check};
use crate::paths::{self, locate, Location, PathEnv};
use crate::stores::FilePrefixStore;

verus! {

/// Why a config is refused.
#[derive(Debug)]
pub enum ConfigError {
    /// The file cannot be read or is no TOML; the text says why.
    Malformed(String),
}

impl ConfigError {
    /// The error as text.
    pub fn to_string(&self) -> (r: String)
        ensures
            match self {
                ConfigError::Malformed(text) => r@ == "config file is malformed: "@ + text@,
            },
    {
        match self {
            ConfigError::Malformed(text) => {
                let mut r = "config file is malformed: ".to_owned();
                r.append(text.as_str());
                r
            },
        }
    }
}

/// Resolves the path of the config: an explicit override, else `prefixe/config.toml` in
/// `XDG_CONFIG_HOME`, else the same in `.config` of the home directory.
pub fn resolve_config_path(override_path: Option<PathBuf>, env: &PathEnv) -> (r: Location)
    ensures
        r.deep_view() == paths::or_in_config_home(
            override_path,
            *env,
            "prefixe"@,
            "config.toml"@,
        ),
{
    locate(&override_path, env, "prefixe", "config.toml")
}

/// The store at `path`, where `fault` tells why its content is no TOML, if it is none.
pub fn accept_store(path: PathBuf, fault: Option<String>) -> (r: Result<
    FilePrefixStore,
    ConfigError,
>)
    ensures
        match fault {
            Some(text) => r matches Err(ConfigError::Malformed(t)) && t@ == text@,
            None => r matches Ok(store) && store.path == path,
        },
{
    match fault {
        Some(text) => Err(ConfigError::Malformed(text)),
        None => Ok(FilePrefixStore::new(path)),
    }
}

/// The store at `path`, where `read` is what reading the file gave: `None` where there is no
/// file, the text of an error, or the content. An error, and content that is no TOML, are refused.
pub fn load_store(path: PathBuf, read: Option<Result<String, String>>) -> (r: Result<
    FilePrefixStore,
    ConfigError,
>)
    ensures
        ({
            let fault: Option<Seq<char>> = match read {
                None => None,
                Some(Err(text)) => Some(text@),
                Some(Ok(content)) => outside::toml_fault(content@),
            };
            match fault {
                Some(text) => r matches Err(ConfigError::Malformed(t)) && t@ == text,
                None => r matches Ok(store) && store.path == path,
            }
        }),
{
    match read {
        None => accept_store(path, None),
        Some(Err(text)) => accept_store(path, Some(text)),
        Some(Ok(content)) => {
            let fault = toml_check(content.as_str());
            accept_store(path, fault)
        },
    }
}

} // verus!
