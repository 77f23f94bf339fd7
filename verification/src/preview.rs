//! What the hooks would answer, on values in place of stores.

use vstd::prelude::*;

use crate::domain::{ConfigView, OriginalCommand, PrefixConfig};
use crate::error::Error;
use crate::ledger::{PrefixLedger, ProbeLedger, StatsLedger};
use crate::payload::{self, PostHookOutput};
use crate::ports::{PrefixStore, ProbeStore, StatsStore};
use crate::post_hook::{self, handle_failure, handle_probe_result};
use crate::pre_hook::{self, check_probe_match};
use crate::probe::{ProbeEntry, ProbeView};
use crate::records::{self, probes_of_records, records_of_probes};
use crate::stats::{PrefixStats, StatsView};

verus! {

/// The prefix store that holds a config and forgets what it is asked to change.
pub struct HeldPrefixes {
    pub config: PrefixConfig,
}

impl PrefixStore for HeldPrefixes {
    open spec fn may_load(&self, config: ConfigView) -> bool {
        config == self.config.deep_view()
    }

    open spec fn may_confirm(
        &self,
        key: Seq<char>,
        prefix: Seq<Seq<char>>,
        result: Result<(), Error>,
    ) -> bool {
        result is Ok
    }

    open spec fn may_remove(&self, key: Seq<char>, result: Result<bool, Error>) -> bool {
        result == Ok::<bool, Error>(self.config.deep_view().mappings.contains_key(key))
    }

    fn load(&self) -> (r: PrefixConfig) {
        let record = self.config.to_record();
        proof {
            records::law_config_read_back(record.deep_view(), self.config.deep_view());
        }
        PrefixConfig::from_record(record)
    }

    fn confirm_mapping(&self, _key: &str, _prefix: &[String]) -> (r: Result<(), Error>) {
        Ok(())
    }

    fn remove_mapping(&self, key: &str) -> (r: Result<bool, Error>) {
        Ok(self.config.mappings.contains_key(key))
    }
}

/// The probe store that holds probes and forgets what it is asked to change.
pub struct HeldProbes {
    pub probes: Vec<ProbeEntry>,
}

impl ProbeStore for HeldProbes {
    open spec fn may_load(&self, probes: Seq<ProbeView>) -> bool {
        probes == self.probes.deep_view()
    }

    open spec fn may_write(&self, probes: Seq<ProbeView>, result: Result<(), Error>) -> bool {
        result is Ok
    }

    open spec fn may_remove(&self, cmd: Seq<char>, result: Result<(), Error>) -> bool {
        result is Ok
    }

    fn load(&self) -> (r: Vec<ProbeEntry>) {
        let found = records_of_probes(self.probes.as_slice());
        proof {
            records::law_probes_read_back(self.probes.deep_view());
        }
        probes_of_records(found)
    }

    fn write(&self, _entries: &[ProbeEntry]) -> (r: Result<(), Error>) {
        Ok(())
    }

    fn remove_matching(&self, _cmd: &OriginalCommand) -> (r: Result<(), Error>) {
        Ok(())
    }
}

/// The stats store that holds stats and forgets what it is asked to change.
pub struct HeldStats {
    pub stats: PrefixStats,
}

impl StatsStore for HeldStats {
    open spec fn may_load(&self, stats: StatsView) -> bool {
        stats == self.stats.deep_view()
    }

    open spec fn may_save(&self, stats: StatsView, result: Result<(), Error>) -> bool {
        result is Ok
    }

    fn load(&self) -> (r: PrefixStats) {
        let record = self.stats.to_record();
        proof {
            records::law_stats_read_back(record.deep_view(), self.stats.deep_view());
        }
        PrefixStats::from_record(record)
    }

    fn save(&self, _stats: &PrefixStats) -> (r: Result<(), Error>) {
        Ok(())
    }
}

/// Whether `command` would be taken for the retry that one of `probes` waits for.
pub fn preview_match(command: &str, probes: Vec<ProbeEntry>) -> (r: bool)
    ensures
        r == pre_hook::is_retry(probes.deep_view(), command@),
{
    let store = HeldProbes { probes };
    check_probe_match(command, &mut ProbeLedger::new(&store))
}

/// What would be answered to a bare failure of `command`.
pub fn preview_failure(
    command: &str,
    config: PrefixConfig,
    probes: Vec<ProbeEntry>,
    stats: PrefixStats,
) -> (r: PostHookOutput)
    ensures
        r.deep_view() == post_hook::failure_output(
            command@,
            config.deep_view(),
            probes.deep_view(),
        ),
{
    let prefix_store = HeldPrefixes { config };
    let probe_store = HeldProbes { probes };
    let stats_store = HeldStats { stats };
    handle_failure(
        command,
        &prefix_store,
        &mut ProbeLedger::new(&probe_store),
        &mut StatsLedger::new(&stats_store),
    )
}

/// What would be answered to the result of running `command`.
pub fn preview_result(
    command: &str,
    exit_code: i64,
    stdout: &str,
    stderr: &str,
    config: PrefixConfig,
    probes: Vec<ProbeEntry>,
    stats: PrefixStats,
) -> (r: PostHookOutput)
    ensures
        ({
            let held = probes.deep_view();
            let i = post_hook::probing_at(held, command@);
            r.deep_view() == if i < held.len() {
                post_hook::result_output(
                    held[i],
                    post_hook::attempt_passed(held, i, exit_code, stdout@, stderr@),
                    config.deep_view(),
                )
            } else {
                payload::says_nothing()
            }
        }),
{
    let prefix_store = HeldPrefixes { config };
    let probe_store = HeldProbes { probes };
    let stats_store = HeldStats { stats };
    handle_probe_result(
        command,
        exit_code,
        stdout,
        stderr,
        &mut PrefixLedger::new(&prefix_store),
        &mut ProbeLedger::new(&probe_store),
        &mut StatsLedger::new(&stats_store),
    )
}

/// The stores that hold values answer with what they hold.
pub proof fn law_held(
    prefixes: HeldPrefixes,
    probes: HeldProbes,
    stats: HeldStats,
    config: ConfigView,
    list: Seq<ProbeView>,
    counted: StatsView,
    key: Seq<char>,
    there: bool,
)
    ensures
        prefixes.may_load(config) <==> config == prefixes.config.deep_view(),
        prefixes.may_remove(key, Ok(there)) <==> there
            == prefixes.config.deep_view().mappings.contains_key(key),
        probes.may_load(list) <==> list == probes.probes.deep_view(),
        stats.may_load(counted) <==> counted == stats.stats.deep_view(),
{
}

} // verus!
