//! Prepends validated prefixes to shell commands.
//!
//! A config maps command words to prefixes. A command is split into its shell segments, and each
//! segment whose leading words have a confirmed mapping gets the mapped prefix
//! ([`rewrite_command`]); rules with conditions and priorities can take the place of the mappings
//! ([`PrefixEngine::rewrite_with_rules`]).
//!
//! New mappings are learned from failures. When a command fails bare, a probe of the first
//! candidate prefix is started ([`handle_failure`]); when the retry is seen, the probe is moved on
//! ([`check_probe_match`]); and the result of the retry confirms the mapping, starts a probe of the
//! next candidate, or ends the search ([`handle_probe_result`]).
//!
//! What is kept elsewhere is reached through ports ([`PrefixStore`], [`ProbeStore`],
//! [`StatsStore`]). What holds of the learning from one step to the next is in [`learning`].

pub mod audit;
pub mod cli;
pub mod clock;
pub mod config;
pub mod domain;
pub mod engine;
pub mod error;
pub mod learning;
pub mod ledger;
pub mod outside;
pub mod paths;
pub mod payload;
pub mod ports;
pub mod post_hook;
pub mod pre_hook;
pub mod predicate;
pub mod preview;
pub mod probe;
pub mod records;
pub mod rewrite;
pub mod rules;
pub mod segment;
pub mod stats;
pub mod stores;
pub mod table;
pub mod text;

pub use audit::{audit_state, AuditState};
pub use config::{load_store, resolve_config_path, ConfigError};
pub use domain::{
    CandidatePrefix, OriginalCommand, PrefixConfig, PrefixRule, RuleCondition, SuccessPredicate,
};
pub use engine::PrefixEngine;
pub use error::Error;
pub use ledger::{PrefixLedger, ProbeLedger, StatsLedger};
pub use outside::Platform;
pub use paths::{EnvPathResolver, ExplicitPathResolver, Location, PathEnv, PathResolver};
pub use payload::{HookPayload, PostHookOutput, ToolInput, ToolResponse};
pub use ports::{PrefixStore, ProbeStore, StatsStore};
pub use post_hook::{handle_failure, handle_probe_result};
pub use pre_hook::check_probe_match;
pub use predicate::evaluate_predicate;
pub use probe::{ProbeEntry, ProbeState};
pub use records::{
    CandidateDraft, CandidateRecord, ConfigDraft, ConfigRecord, ProbeRecord, StatsRecord,
};
pub use rewrite::{
    lookup_prefix, rewrite_command, rewrite_via_store, CommandRewriter, PrefixMatch, RewriteResult,
};
pub use rules::Surroundings;
pub use segment::{rejoin, split_segments, CommandSplitter, Segment, TextualSplitter};
pub use stats::{CommandStats, GlobalStats, PrefixCounters, PrefixStats};
pub use stores::{FilePrefixStore, FileProbeStore, FileStatsStore};
pub use table::Table;
