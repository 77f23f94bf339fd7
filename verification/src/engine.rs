//! The engine: the use cases of rewriting and learning over a pair of stores.

use vstd::prelude::*;

use crate::audit::{self, AuditState};
use crate::domain::{ConfigView, PrefixRule, RuleCondition};
use crate::error::Error;
use crate::ports::{PrefixStore, ProbeStore};
use crate::probe::ProbeView;
use crate::rewrite::{self, rewrite_command, CommandRewriter, RewriteResult};
use crate::rules::{self, conditions_hold, judge_rules, rewrite_by_rules, Surroundings};

verus! {

/// A prefix store and a probe store, and what can be done with them.
pub struct PrefixEngine<P: PrefixStore, Q: ProbeStore> {
    prefix_store: P,
    probe_store: Q,
}

impl<P: PrefixStore, Q: ProbeStore> PrefixEngine<P, Q> {
    /// The prefix store of the engine.
    pub closed spec fn prefixes(&self) -> P {
        self.prefix_store
    }

    /// The probe store of the engine.
    pub closed spec fn probes(&self) -> Q {
        self.probe_store
    }

    /// The engine over the two stores.
    pub fn new(prefix_store: P, probe_store: Q) -> (r: Self)
        ensures
            r.prefixes() == prefix_store,
            r.probes() == probe_store,
    {
        PrefixEngine { prefix_store, probe_store }
    }

    /// Rewrites `cmd` with the confirmed prefix of each shell segment.
    pub fn rewrite(&self, cmd: &str) -> (r: RewriteResult)
        ensures
            exists|config: ConfigView| #[trigger]
                self.prefixes().may_load(config) && r.rewritten@ == rewrite::rewritten(
                    cmd@,
                    config.mappings,
                ),
            r.probes@.len() == 0,
    {
        let config = self.prefix_store.load();
        assert(self.prefixes().may_load(config.deep_view()));
        rewrite_command(cmd, &config)
    }

    /// A snapshot of the confirmed mappings and of the probes.
    pub fn audit(&self) -> (r: AuditState)
        ensures
            exists|config: ConfigView, probes: Seq<ProbeView>| #[trigger]
                self.prefixes().may_load(config) && #[trigger] self.probes().may_load(probes)
                    && audit::is_snapshot(r.deep_view(), config, probes),
    {
        let config = self.prefix_store.load();
        let probes = self.probe_store.load();
        assert(self.prefixes().may_load(config.deep_view()));
        assert(self.probes().may_load(probes.deep_view()));
        AuditState::of(&config, probes)
    }

    /// Hands a confirmed mapping to the prefix store.
    pub fn confirm(&self, key: &str, prefix: &[String]) -> (r: Result<(), Error>)
        requires
            self.prefixes().grants_confirm(key@, prefix.deep_view()),
        ensures
            self.prefixes().may_confirm(key@, prefix.deep_view(), r),
    {
        self.prefix_store.confirm_mapping(key, prefix)
    }

    /// Has the prefix store remove a confirmed mapping. Returns `true` if it existed.
    pub fn forget(&self, key: &str) -> (r: Result<bool, Error>)
        requires
            self.prefixes().grants_remove(key@),
        ensures
            self.prefixes().may_remove(key@, r),
    {
        self.prefix_store.remove_mapping(key)
    }

    /// Whether all conditions hold; an empty list always does.
    pub fn evaluate_conditions(
        &self,
        conditions: &[RuleCondition],
        around: &Surroundings,
    ) -> (r: bool)
        ensures
            r == rules::met(conditions.deep_view(), around.deep_view()),
    {
        conditions_hold(conditions, around)
    }

    /// Rewrites `cmd` by a list of rules.
    ///
    /// Rules are tried in descending order of priority, and in their order where the priorities
    /// are the same. The first whose key matches the leading word(s) of a segment, and whose
    /// conditions all hold, is applied to that segment, and no other.
    pub fn rewrite_with_rules(
        &self,
        cmd: &str,
        rules: &[PrefixRule],
        around: &Surroundings,
    ) -> (r: RewriteResult)
        ensures
            r.rewritten@ == rules::ruled(
                cmd@,
                rules.deep_view(),
                rules::judged(rules.deep_view(), around.deep_view()),
            ),
            r.probes@.len() == 0,
    {
        let verdicts = judge_rules(rules, around);
        rewrite_by_rules(cmd, rules, verdicts.as_slice())
    }
}

impl<P: PrefixStore, Q: ProbeStore> CommandRewriter for PrefixEngine<P, Q> {
    open spec fn may_rewrite(
        &self,
        cmd: Seq<char>,
        rewritten: Seq<char>,
        probes: Seq<ProbeView>,
    ) -> bool {
        &&& exists|config: ConfigView| #[trigger]
            self.prefixes().may_load(config) && rewritten == rewrite::rewritten(
                cmd,
                config.mappings,
            )
        &&& probes.len() == 0
    }

    fn rewrite(&self, cmd: &str) -> (r: RewriteResult) {
        PrefixEngine::rewrite(self, cmd)
    }
}

/// An engine rewrites as the mappings of a config that its prefix store may hold ask, and starts
/// no probe by it.
pub proof fn law_engine_rewrites<P: PrefixStore, Q: ProbeStore>(
    engine: PrefixEngine<P, Q>,
    cmd: Seq<char>,
    out: Seq<char>,
    probes: Seq<ProbeView>,
)
    ensures
        engine.may_rewrite(cmd, out, probes) <==> probes.len() == 0 && exists|config: ConfigView|
         #[trigger]
            engine.prefixes().may_load(config) && out == rewrite::rewritten(cmd, config.mappings),
{
}

} // verus!
