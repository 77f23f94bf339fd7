//! The error type of the stores.

use vstd::prelude::*;

verus! {

/// What can go wrong when a store is read or written.
#[derive(Debug)]
pub enum Error {
    /// Reading or writing failed.
    Io(std::io::Error),
    /// Turning a value into TOML failed.
    Serialize(toml::ser::Error),
    /// Reading TOML failed.
    Parse(toml::de::Error),
}

impl From<std::io::Error> for Error {
    fn from(e: std::io::Error) -> Self {
        Error::Io(e)
    }
}

impl vstd::std_specs::convert::FromSpecImpl<std::io::Error> for Error {
    open spec fn obeys_from_spec() -> bool {
        true
    }

    open spec fn from_spec(e: std::io::Error) -> Self {
        Error::Io(e)
    }
}

impl From<toml::ser::Error> for Error {
    fn from(e: toml::ser::Error) -> Self {
        Error::Serialize(e)
    }
}

impl vstd::std_specs::convert::FromSpecImpl<toml::ser::Error> for Error {
    open spec fn obeys_from_spec() -> bool {
        true
    }

    open spec fn from_spec(e: toml::ser::Error) -> Self {
        Error::Serialize(e)
    }
}

impl From<toml::de::Error> for Error {
    fn from(e: toml::de::Error) -> Self {
        Error::Parse(e)
    }
}

impl vstd::std_specs::convert::FromSpecImpl<toml::de::Error> for Error {
    open spec fn obeys_from_spec() -> bool {
        true
    }

    open spec fn from_spec(e: toml::de::Error) -> Self {
        Error::Parse(e)
    }
}

} // verus!
