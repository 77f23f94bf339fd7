//! The ports: how the library reaches what is kept elsewhere.
//!
//! What a store answers is up to the store. Each port names the answers that it may give, so
//! that a contract can say what was asked of a store and what was made of its answer. A store
//! that does not say which answers it may give may give any.
//!
//! What may be asked of a store is up to its owner. Each port names the changes that it grants,
//! and asks for the grant where a change is made, so that a function can change no more of a
//! store than its contract has granted. A store that does not say what it grants grants
//! everything.

use vstd::prelude::*;

use crate::domain::{ConfigView, OriginalCommand, PrefixConfig};
use crate::error::Error;
use crate::probe::{ProbeEntry, ProbeView};
use crate::stats::{PrefixStats, StatsView};

verus! {

/// Port for reading and writing the prefix config.
pub trait PrefixStore {
    /// Whether `load` may answer with `config`.
    open spec fn may_load(&self, config: ConfigView) -> bool {
        true
    }

    /// Whether `confirm_mapping` of `key` and `prefix` may answer with `result`.
    open spec fn may_confirm(
        &self,
        key: Seq<char>,
        prefix: Seq<Seq<char>>,
        result: Result<(), Error>,
    ) -> bool {
        true
    }

    /// Whether `remove_mapping` of `key` may answer with `result`.
    open spec fn may_remove(&self, key: Seq<char>, result: Result<bool, Error>) -> bool {
        true
    }

    /// Whether `prefix` may be confirmed for `key`.
    open spec fn grants_confirm(&self, key: Seq<char>, prefix: Seq<Seq<char>>) -> bool {
        true
    }

    /// Whether the mapping of `key` may be removed.
    open spec fn grants_remove(&self, key: Seq<char>) -> bool {
        true
    }

    /// Reads the config.
    fn load(&self) -> (r: PrefixConfig)
        ensures
            self.may_load(r.deep_view()),
    ;

    /// Adds `key` with `prefix` to the mappings without touching the others.
    fn confirm_mapping(&self, key: &str, prefix: &[String]) -> (r: Result<(), Error>)
        requires
            self.grants_confirm(key@, prefix.deep_view()),
        ensures
            self.may_confirm(key@, prefix.deep_view(), r),
    ;

    /// Removes a confirmed mapping by key.
    /// Returns `true` if a mapping was removed, `false` if the key was not found.
    fn remove_mapping(&self, key: &str) -> (r: Result<bool, Error>)
        requires
            self.grants_remove(key@),
        ensures
            self.may_remove(key@, r),
    ;
}

/// Port for reading and writing candidate probes.
pub trait ProbeStore {
    /// Whether `load` may answer with `probes`.
    open spec fn may_load(&self, probes: Seq<ProbeView>) -> bool {
        true
    }

    /// Whether `write` of `probes` may answer with `result`.
    open spec fn may_write(&self, probes: Seq<ProbeView>, result: Result<(), Error>) -> bool {
        true
    }

    /// Whether `remove_matching` of `cmd` may answer with `result`.
    open spec fn may_remove(&self, cmd: Seq<char>, result: Result<(), Error>) -> bool {
        true
    }

    /// Whether the probes may be replaced by `probes`.
    open spec fn grants_write(&self, probes: Seq<ProbeView>) -> bool {
        true
    }

    /// Whether the probes of `cmd` may be removed.
    open spec fn grants_remove(&self, cmd: Seq<char>) -> bool {
        true
    }

    /// Reads the probes.
    fn load(&self) -> (r: Vec<ProbeEntry>)
        ensures
            self.may_load(r.deep_view()),
    ;

    /// Replaces the probes by `entries`.
    fn write(&self, entries: &[ProbeEntry]) -> (r: Result<(), Error>)
        requires
            self.grants_write(entries.deep_view()),
        ensures
            self.may_write(entries.deep_view(), r),
    ;

    /// Removes the probes of `cmd`.
    fn remove_matching(&self, cmd: &OriginalCommand) -> (r: Result<(), Error>)
        requires
            self.grants_remove(cmd@),
        ensures
            self.may_remove(cmd@, r),
    ;
}

/// Port for reading and writing the stats of the learning.
pub trait StatsStore {
    /// Whether `load` may answer with `stats`.
    open spec fn may_load(&self, stats: StatsView) -> bool {
        true
    }

    /// Whether `save` of `stats` may answer with `result`.
    open spec fn may_save(&self, stats: StatsView, result: Result<(), Error>) -> bool {
        true
    }

    /// Whether the stats may be replaced by `stats`.
    open spec fn grants_save(&self, stats: StatsView) -> bool {
        true
    }

    /// Reads the stats.
    fn load(&self) -> (r: PrefixStats)
        ensures
            self.may_load(r.deep_view()),
    ;

    /// Replaces the stats by `stats`.
    fn save(&self, stats: &PrefixStats) -> (r: Result<(), Error>)
        requires
            self.grants_save(stats.deep_view()),
        ensures
            self.may_save(stats.deep_view(), r),
    ;
}

} // verus!
