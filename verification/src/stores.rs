//! The file-backed stores, as far as they do not touch their files: where each file lies, and
//! what a store reports of what its file held.

use vstd::prelude::*;

use std::path::PathBuf;

use crate::domain::{self, ConfigView, OriginalCommand, PrefixConfig};
use crate::paths::{self, locate, locate_probes, Location, PathEnv, PathResolver};
use crate::post_hook;
use crate::probe::{self, remove_probes_of, ProbeEntry, ProbeView};
use crate::records::{
    self, probes_of_records, records_of_probes, ConfigRecord, ProbeRecord, StatsRecord,
};
use crate::stats::{self, PrefixStats};

verus! {

/// The prefix store that is a TOML file.
pub struct FilePrefixStore {
    pub path: PathBuf,
}

impl FilePrefixStore {
    /// The store at `path`.
    pub fn new(path: PathBuf) -> (r: Self)
        ensures
            r.path == path,
    {
        FilePrefixStore { path }
    }

    /// The store at the path that `r` gives.
    pub fn from_resolver<R: PathResolver + ?Sized>(r: &R) -> (store: Self)
        ensures
            r.may_hold_config(store.path),
    {
        FilePrefixStore::new(r.prefix_config_path())
    }

    /// Where the file lies by default: at `CRS_RX_PREFIXES`, else at `rx/prefixes.toml` in the
    /// config home.
    pub fn default_path(env: &PathEnv) -> (r: Location)
        ensures
            r.deep_view() == paths::prefixes_location(*env),
    {
        locate(&env.prefixes, env, "rx", "prefixes.toml")
    }

    /// What the store reports, where `read` is the record that its file held: the empty config
    /// where there is no file or it holds none.
    pub fn report(read: Option<ConfigRecord>) -> (r: PrefixConfig)
        ensures
            r.deep_view() == reported_config(read),
    {
        match read {
            Some(record) => PrefixConfig::from_record(record),
            None => PrefixConfig::default(),
        }
    }

    /// What the store writes to confirm `prefix` for `key`, where `read` is the record that its
    /// file held: what it reports, with that mapping.
    pub fn confirmed(read: Option<ConfigRecord>, key: &str, prefix: &[String]) -> (r: ConfigRecord)
        ensures
            records::is_config_record(
                r.deep_view(),
                domain::with_mapping(reported_config(read), key@, prefix.deep_view()),
            ),
    {
        let mut config = FilePrefixStore::report(read);
        config.confirm_mapping(key, prefix);
        config.to_record()
    }

    /// What the store writes to remove the mapping of `key`, where `read` is the record that its
    /// file held: what it reports, without that mapping. Nothing is written where there is none.
    pub fn removed(read: Option<ConfigRecord>, key: &str) -> (r: Option<ConfigRecord>)
        ensures
            r is Some == reported_config(read).mappings.contains_key(key@),
            r matches Some(record) ==> records::is_config_record(
                record.deep_view(),
                domain::without_mapping(reported_config(read), key@),
            ),
    {
        let mut config = FilePrefixStore::report(read);
        if config.remove_mapping(key) {
            Some(config.to_record())
        } else {
            None
        }
    }
}

/// What a prefix store reports of what its file held.
pub open spec fn reported_config(read: Option<ConfigRecord>) -> ConfigView {
    match read {
        Some(record) => records::config_of(record.deep_view()),
        None => domain::empty_config(),
    }
}

/// What a probe store reports of what its file held.
pub open spec fn reported_probes(read: Option<Vec<ProbeRecord>>) -> Seq<ProbeView> {
    match read {
        Some(found) => records::probes_of(found.deep_view()),
        None => seq![],
    }
}

/// What a prefix store reports after it confirmed a mapping, or removed one, is what it reported
/// before with that mapping, or without it.
pub proof fn law_prefix_store_read_back(
    before: ConfigView,
    after: ConfigRecord,
    key: Seq<char>,
    prefix: Seq<Seq<char>>,
)
    ensures
        records::is_config_record(
            after.deep_view(),
            domain::with_mapping(before, key, prefix),
        ) ==> reported_config(Some(after)) == domain::with_mapping(before, key, prefix),
        records::is_config_record(after.deep_view(), domain::without_mapping(before, key))
            ==> reported_config(Some(after)) == domain::without_mapping(before, key),
{
    if records::is_config_record(after.deep_view(), domain::with_mapping(before, key, prefix)) {
        records::law_config_read_back(
            after.deep_view(),
            domain::with_mapping(before, key, prefix),
        );
    }
    if records::is_config_record(after.deep_view(), domain::without_mapping(before, key)) {
        records::law_config_read_back(after.deep_view(), domain::without_mapping(before, key));
    }
}

/// What a probe store reports after it removed the probes of `cmd` is what it reported before
/// without them, in the same order; and to remove them again changes nothing, nor does it write
/// anything.
pub proof fn law_probe_store_read_back(
    before: Seq<ProbeView>,
    after: Vec<ProbeRecord>,
    cmd: Seq<char>,
)
    requires
        after.deep_view() == records::probe_records(probe::probes_of_others(before, cmd)),
    ensures
        reported_probes(Some(after)) == before.filter(|p: ProbeView| p.original_command != cmd),
        post_hook::has_no_probe(cmd, reported_probes(Some(after))),
        probe::probes_of_others(reported_probes(Some(after)), cmd) == reported_probes(Some(after)),
{
    records::law_probes_read_back(probe::probes_of_others(before, cmd));
    probe::law_removed(before, cmd);
}

/// The probe store that is a TOML file.
pub struct FileProbeStore {
    pub path: PathBuf,
}

impl FileProbeStore {
    /// The store at `path`.
    pub fn new(path: PathBuf) -> (r: Self)
        ensures
            r.path == path,
    {
        FileProbeStore { path }
    }

    /// The store at the path that `r` gives.
    pub fn from_resolver<R: PathResolver + ?Sized>(r: &R) -> (store: Self)
        ensures
            r.may_hold_probes(store.path),
    {
        FileProbeStore::new(r.probe_store_path())
    }

    /// Where the file lies by default: `candidates.toml` in `CRS_CTX_DIR`, else in `.ctx`.
    pub fn default_path(env: &PathEnv) -> (r: Location)
        ensures
            r.deep_view() == paths::probes_location(*env),
    {
        locate_probes(env)
    }

    /// What the store reports, where `read` are the records that its file held: no probes where
    /// there is no file or it holds none.
    pub fn report(read: Option<Vec<ProbeRecord>>) -> (r: Vec<ProbeEntry>)
        ensures
            r.deep_view() == reported_probes(read),
    {
        match read {
            Some(found) => probes_of_records(found),
            None => {
                let none: Vec<ProbeEntry> = Vec::new();
                assert(none.deep_view() =~= seq![]);
                none
            },
        }
    }

    /// What the store writes to remove the probes of `cmd`, where `read` are the records that its
    /// file held: what it reports, without them. Nothing is written where there are none.
    pub fn removed(read: Option<Vec<ProbeRecord>>, cmd: &OriginalCommand) -> (r: Option<
        Vec<ProbeRecord>,
    >)
        ensures
            r is None == post_hook::has_no_probe(cmd@, reported_probes(read)),
            r matches Some(records) ==> records.deep_view() == records::probe_records(
                probe::probes_of_others(reported_probes(read), cmd@),
            ),
    {
        let mut probes = FileProbeStore::report(read);
        let ghost held = probes.deep_view();
        proof {
            probe::law_removed(held, cmd@);
            probe::lemma_fewer(held, cmd@);
        }
        if remove_probes_of(&mut probes, cmd) {
            Some(records_of_probes(probes.as_slice()))
        } else {
            None
        }
    }
}

/// The stats store that is a TOML file.
pub struct FileStatsStore {
    pub path: PathBuf,
}

impl FileStatsStore {
    /// The store at `path`.
    pub fn new(path: PathBuf) -> (r: Self)
        ensures
            r.path == path,
    {
        FileStatsStore { path }
    }

    /// Where the file lies by default: at `CRS_RX_STATS`, else at `rx/prefix-stats.toml` in the
    /// config home.
    pub fn default_path(env: &PathEnv) -> (r: Location)
        ensures
            r.deep_view() == paths::or_in_config_home(
                env.stats,
                *env,
                "rx"@,
                "prefix-stats.toml"@,
            ),
    {
        locate(&env.stats, env, "rx", "prefix-stats.toml")
    }

    /// What the store reports, where `read` is the record that its file held: the stats before
    /// anything was tried where there is no file or it holds none.
    pub fn report(read: Option<StatsRecord>) -> (r: PrefixStats)
        ensures
            r.deep_view() == match read {
                Some(record) => records::stats_of(record.deep_view()),
                None => stats::no_stats(),
            },
    {
        match read {
            Some(record) => PrefixStats::from_record(record),
            None => PrefixStats::default(),
        }
    }
}

/// Where there is no file, or it holds nothing of the kind, a prefix store reports no mappings and
/// no candidates, and a probe store no probes. Else they report what the records stand for.
pub proof fn law_reported(config: ConfigRecord, found: Vec<ProbeRecord>, key: Seq<char>)
    ensures
        !reported_config(None).mappings.contains_key(key),
        reported_config(None).candidate_prefixes.len() == 0,
        reported_config(Some(config)) == records::config_of(config.deep_view()),
        reported_probes(None).len() == 0,
        reported_probes(Some(found)) == records::probes_of(found.deep_view()),
{
}

} // verus!
