//! What is stored, as plain records: lists of named values, with the states of probes as text.
//!
//! A store turns what it is handed into a record, and what it reads back from a record. A record
//! of something stands for that same thing when it is read.

use vstd::prelude::*;

use crate::domain::{
    self, copy_words, CandidatePrefix, CandidateView, ConfigView, OriginalCommand, PredicateView,
    PrefixConfig, SuccessPredicate,
};
use crate::probe::{self, ProbeEntry, ProbeState, ProbeView};
use crate::stats::{
    CommandStats, CommandStatsView, GlobalStats, PrefixCounters, PrefixStats, StatsView,
};
use crate::table::{self, Table};
use crate::text;

verus! {

/// A candidate as it is stored.
#[derive(Debug, Clone)]
pub struct CandidateRecord {
    pub prefix: Vec<String>,
    /// The predicate; `None` where it is not given.
    pub success_when: Option<SuccessPredicate>,
}

/// What a [`CandidateRecord`] holds.
pub struct CandidateRecordView {
    pub prefix: Seq<Seq<char>>,
    pub success_when: Option<PredicateView>,
}

impl DeepView for CandidateRecord {
    type V = CandidateRecordView;

    open spec fn deep_view(&self) -> CandidateRecordView {
        CandidateRecordView {
            prefix: self.prefix.deep_view(),
            success_when: self.success_when.deep_view(),
        }
    }
}

/// A config as it is stored.
#[derive(Debug, Clone)]
pub struct ConfigRecord {
    pub mappings: Vec<(String, Vec<String>)>,
    pub candidate_prefixes: Vec<CandidateRecord>,
}

/// What a [`ConfigRecord`] holds.
#[verifier::ext_equal]
pub struct ConfigRecordView {
    pub mappings: Seq<(Seq<char>, Seq<Seq<char>>)>,
    pub candidate_prefixes: Seq<CandidateRecordView>,
}

impl DeepView for ConfigRecord {
    type V = ConfigRecordView;

    open spec fn deep_view(&self) -> ConfigRecordView {
        ConfigRecordView {
            mappings: self.mappings.deep_view(),
            candidate_prefixes: self.candidate_prefixes.deep_view(),
        }
    }
}

/// A candidate as it was read.
#[derive(Debug, Clone)]
pub struct CandidateDraft {
    /// The prefix; `None` where it is not given.
    pub prefix: Option<Vec<String>>,
    /// The predicate; `None` where it is not given.
    pub success_when: Option<SuccessPredicate>,
}

/// What a [`CandidateDraft`] holds.
pub struct CandidateDraftView {
    pub prefix: Option<Seq<Seq<char>>>,
    pub success_when: Option<PredicateView>,
}

impl DeepView for CandidateDraft {
    type V = CandidateDraftView;

    open spec fn deep_view(&self) -> CandidateDraftView {
        CandidateDraftView {
            prefix: self.prefix.deep_view(),
            success_when: self.success_when.deep_view(),
        }
    }
}

/// A config as it was read, with what is not a mapping among the mappings, and what is no
/// candidate among the candidates.
#[derive(Debug, Clone)]
pub struct ConfigDraft {
    /// The entries among the mappings; `None` for a value that is no prefix.
    pub mappings: Vec<(String, Option<Vec<String>>)>,
    pub candidate_prefixes: Vec<CandidateDraft>,
}

/// What a [`ConfigDraft`] holds.
pub struct ConfigDraftView {
    pub mappings: Seq<(Seq<char>, Option<Seq<Seq<char>>>)>,
    pub candidate_prefixes: Seq<CandidateDraftView>,
}

impl DeepView for ConfigDraft {
    type V = ConfigDraftView;

    open spec fn deep_view(&self) -> ConfigDraftView {
        ConfigDraftView {
            mappings: self.mappings.deep_view(),
            candidate_prefixes: self.candidate_prefixes.deep_view(),
        }
    }
}

/// The entries that are mappings, in their order.
pub open spec fn kept_mappings(rows: Seq<(Seq<char>, Option<Seq<Seq<char>>>)>) -> Seq<
    (Seq<char>, Seq<Seq<char>>),
>
    decreases rows.len(),
{
    if rows.len() == 0 {
        seq![]
    } else {
        let front = kept_mappings(rows.drop_last());
        match rows.last().1 {
            Some(prefix) => front.push((rows.last().0, prefix)),
            None => front,
        }
    }
}

/// The entries that are candidates, in their order: those with a prefix.
pub open spec fn kept_candidates(drafts: Seq<CandidateDraftView>) -> Seq<CandidateRecordView>
    decreases drafts.len(),
{
    if drafts.len() == 0 {
        seq![]
    } else {
        let front = kept_candidates(drafts.drop_last());
        match drafts.last().prefix {
            Some(prefix) => front.push(
                CandidateRecordView { prefix, success_when: drafts.last().success_when },
            ),
            None => front,
        }
    }
}

/// The record that a draft makes: what is neither a mapping nor a candidate is passed over.
pub open spec fn record_of(draft: ConfigDraftView) -> ConfigRecordView {
    ConfigRecordView {
        mappings: kept_mappings(draft.mappings),
        candidate_prefixes: kept_candidates(draft.candidate_prefixes),
    }
}

/// A mapping that is given is read, whatever else stands beside it: the config has it, unless its
/// key is mapped again behind it.
pub proof fn law_given_mapping_read(draft: ConfigDraftView, i: int)
    requires
        0 <= i < draft.mappings.len(),
        draft.mappings[i].1 is Some,
        forall|j: int|
            i < j < draft.mappings.len() && (#[trigger] draft.mappings[j]).1 is Some
                ==> draft.mappings[j].0 != draft.mappings[i].0,
    ensures
        config_of(record_of(draft)).mappings.contains_key(draft.mappings[i].0),
        config_of(record_of(draft)).mappings[draft.mappings[i].0] == draft.mappings[i].1->0,
{
    lemma_given(draft.mappings, i);
}

proof fn lemma_given(rows: Seq<(Seq<char>, Option<Seq<Seq<char>>>)>, i: int)
    requires
        0 <= i < rows.len(),
        rows[i].1 is Some,
        forall|j: int|
            i < j < rows.len() && (#[trigger] rows[j]).1 is Some ==> rows[j].0 != rows[i].0,
    ensures
        table::collected(kept_mappings(rows)).contains_key(rows[i].0),
        table::collected(kept_mappings(rows))[rows[i].0] == rows[i].1->0,
    decreases rows.len(),
{
    let front = rows.drop_last();
    let kept = kept_mappings(front);
    if i < front.len() {
        lemma_given(front, i);
    }
    if rows.last().1 is Some {
        let all = kept.push((rows.last().0, rows.last().1->0));
        assert(all.drop_last() =~= kept);
        assert(kept_mappings(rows) == all);
    }
}

/// A draft in which everything is given is kept as it is.
pub proof fn law_complete_draft_kept(draft: ConfigDraftView)
    requires
        forall|i: int|
            0 <= i < draft.mappings.len() ==> (#[trigger] draft.mappings[i]).1 is Some,
        forall|i: int|
            0 <= i < draft.candidate_prefixes.len() ==> (
            #[trigger] draft.candidate_prefixes[i]).prefix is Some,
    ensures
        record_of(draft).mappings == Seq::new(
            draft.mappings.len(),
            |i: int| (draft.mappings[i].0, draft.mappings[i].1->0),
        ),
        record_of(draft).candidate_prefixes == Seq::new(
            draft.candidate_prefixes.len(),
            |i: int|
                CandidateRecordView {
                    prefix: draft.candidate_prefixes[i].prefix->0,
                    success_when: draft.candidate_prefixes[i].success_when,
                },
        ),
{
    lemma_all_mappings(draft.mappings);
    lemma_all_candidates(draft.candidate_prefixes);
}

proof fn lemma_all_mappings(rows: Seq<(Seq<char>, Option<Seq<Seq<char>>>)>)
    requires
        forall|i: int| 0 <= i < rows.len() ==> (#[trigger] rows[i]).1 is Some,
    ensures
        kept_mappings(rows) == Seq::new(rows.len(), |i: int| (rows[i].0, rows[i].1->0)),
    decreases rows.len(),
{
    if rows.len() > 0 {
        lemma_all_mappings(rows.drop_last());
    }
    assert(kept_mappings(rows) =~= Seq::new(rows.len(), |i: int| (rows[i].0, rows[i].1->0)));
}

proof fn lemma_all_candidates(drafts: Seq<CandidateDraftView>)
    requires
        forall|i: int| 0 <= i < drafts.len() ==> (#[trigger] drafts[i]).prefix is Some,
    ensures
        kept_candidates(drafts) == Seq::new(
            drafts.len(),
            |i: int|
                CandidateRecordView {
                    prefix: drafts[i].prefix->0,
                    success_when: drafts[i].success_when,
                },
        ),
    decreases drafts.len(),
{
    if drafts.len() > 0 {
        lemma_all_candidates(drafts.drop_last());
    }
    assert(kept_candidates(drafts) =~= Seq::new(
        drafts.len(),
        |i: int|
            CandidateRecordView {
                prefix: drafts[i].prefix->0,
                success_when: drafts[i].success_when,
            },
    ));
}

impl ConfigRecord {
    /// The record that a draft makes: what is neither a mapping nor a candidate is passed over.
    pub fn from_draft(draft: ConfigDraft) -> (r: Self)
        ensures
            r.deep_view() == record_of(draft.deep_view()),
    {
        let ghost rows = draft.mappings.deep_view();
        let ghost drafts = draft.candidate_prefixes.deep_view();
        let mut left = draft.mappings;
        let mut mappings: Vec<(String, Vec<String>)> = Vec::new();
        let ghost mut i: int = 0;
        proof {
            assert(rows.skip(0) =~= rows);
            assert(mappings.deep_view() =~= kept_mappings(rows.take(0)));
        }
        while left.len() > 0
            invariant
                0 <= i <= rows.len(),
                left.deep_view() == rows.skip(i),
                mappings.deep_view() == kept_mappings(rows.take(i)),
            decreases left.len(),
        {
            let ghost before = left.deep_view();
            let ghost done = mappings.deep_view();
            assert(before.len() == left@.len());
            let (key, value) = left.remove(0);
            proof {
                assert(before[0] == rows[i]);
                assert(left.deep_view() =~= before.remove(0));
                assert(rows.skip(i).remove(0) =~= rows.skip(i + 1));
                assert(rows.take(i + 1).drop_last() =~= rows.take(i));
                i = i + 1;
            }
            if let Some(prefix) = value {
                let ghost row = (key@, prefix.deep_view());
                mappings.push((key, prefix));
                assert(mappings.deep_view() =~= done.push(row));
            }
        }
        assert(rows.take(i) =~= rows);
        let mut waiting = draft.candidate_prefixes;
        let mut candidate_prefixes: Vec<CandidateRecord> = Vec::new();
        let ghost mut j: int = 0;
        proof {
            assert(drafts.skip(0) =~= drafts);
            assert(candidate_prefixes.deep_view() =~= kept_candidates(drafts.take(0)));
        }
        while waiting.len() > 0
            invariant
                0 <= j <= drafts.len(),
                waiting.deep_view() == drafts.skip(j),
                candidate_prefixes.deep_view() == kept_candidates(drafts.take(j)),
            decreases waiting.len(),
        {
            let ghost before = waiting.deep_view();
            let ghost done = candidate_prefixes.deep_view();
            assert(before.len() == waiting@.len());
            let candidate = waiting.remove(0);
            proof {
                assert(before[0] == drafts[j]);
                assert(waiting.deep_view() =~= before.remove(0));
                assert(drafts.skip(j).remove(0) =~= drafts.skip(j + 1));
                assert(drafts.take(j + 1).drop_last() =~= drafts.take(j));
                j = j + 1;
            }
            if let Some(prefix) = candidate.prefix {
                let record = CandidateRecord { prefix, success_when: candidate.success_when };
                let ghost view = record.deep_view();
                candidate_prefixes.push(record);
                assert(candidate_prefixes.deep_view() =~= done.push(view));
            }
        }
        assert(drafts.take(j) =~= drafts);
        ConfigRecord { mappings, candidate_prefixes }
    }
}

/// A probe as it is stored.
#[derive(Debug, Clone)]
pub struct ProbeRecord {
    pub key: String,
    pub prefix: Vec<String>,
    pub success_when: SuccessPredicate,
    pub original_command: String,
    /// The name of the state.
    pub state: String,
    pub candidate_index: usize,
}

/// What a [`ProbeRecord`] holds.
pub struct ProbeRecordView {
    pub key: Seq<char>,
    pub prefix: Seq<Seq<char>>,
    pub success_when: PredicateView,
    pub original_command: Seq<char>,
    pub state: Seq<char>,
    pub candidate_index: nat,
}

impl DeepView for ProbeRecord {
    type V = ProbeRecordView;

    open spec fn deep_view(&self) -> ProbeRecordView {
        ProbeRecordView {
            key: self.key@,
            prefix: self.prefix.deep_view(),
            success_when: self.success_when.deep_view(),
            original_command: self.original_command@,
            state: self.state@,
            candidate_index: self.candidate_index as nat,
        }
    }
}

/// The stats as they are stored.
#[derive(Debug, Clone)]
pub struct StatsRecord {
    pub global: GlobalStats,
    pub by_prefix: Vec<(String, PrefixCounters)>,
    pub by_command: Vec<(String, CommandStats)>,
}

/// What a [`StatsRecord`] holds.
#[verifier::ext_equal]
pub struct StatsRecordView {
    pub global: GlobalStats,
    pub by_prefix: Seq<(Seq<char>, PrefixCounters)>,
    pub by_command: Seq<(Seq<char>, CommandStatsView)>,
}

impl DeepView for StatsRecord {
    type V = StatsRecordView;

    open spec fn deep_view(&self) -> StatsRecordView {
        StatsRecordView {
            global: self.global,
            by_prefix: self.by_prefix.deep_view(),
            by_command: self.by_command.deep_view(),
        }
    }
}

/// The candidate that a record stands for: one without a predicate asks for exit code 0.
pub open spec fn candidate_of(record: CandidateRecordView) -> CandidateView {
    CandidateView {
        prefix: record.prefix,
        success_when: match record.success_when {
            Some(pred) => pred,
            None => domain::exit_zero_view(),
        },
    }
}

/// The record of a candidate.
pub open spec fn candidate_record(candidate: CandidateView) -> CandidateRecordView {
    CandidateRecordView { prefix: candidate.prefix, success_when: Some(candidate.success_when) }
}

/// The config that a record stands for: of mappings with the same key the last counts.
pub open spec fn config_of(record: ConfigRecordView) -> ConfigView {
    ConfigView {
        mappings: table::collected(record.mappings),
        candidate_prefixes: Seq::new(
            record.candidate_prefixes.len(),
            |i: int| candidate_of(record.candidate_prefixes[i]),
        ),
    }
}

/// Whether `record` is the record of `config`: its mappings in the order of their keys, and its
/// candidates in their order.
pub open spec fn is_config_record(record: ConfigRecordView, config: ConfigView) -> bool {
    &&& table::increasing(record.mappings)
    &&& table::map_of(record.mappings) == config.mappings
    &&& record.candidate_prefixes == Seq::new(
        config.candidate_prefixes.len(),
        |i: int| candidate_record(config.candidate_prefixes[i]),
    )
}

/// The probe that a record stands for.
pub open spec fn probe_of(record: ProbeRecordView) -> ProbeView {
    ProbeView {
        key: record.key,
        prefix: record.prefix,
        success_when: record.success_when,
        original_command: record.original_command,
        state: probe::named_state(record.state),
        candidate_index: record.candidate_index,
    }
}

/// The record of a probe.
pub open spec fn probe_record(entry: ProbeView) -> ProbeRecordView {
    ProbeRecordView {
        key: entry.key,
        prefix: entry.prefix,
        success_when: entry.success_when,
        original_command: entry.original_command,
        state: probe::state_name(entry.state),
        candidate_index: entry.candidate_index,
    }
}

/// The probes that records stand for.
pub open spec fn probes_of(records: Seq<ProbeRecordView>) -> Seq<ProbeView> {
    Seq::new(records.len(), |i: int| probe_of(records[i]))
}

/// The records of probes.
pub open spec fn probe_records(entries: Seq<ProbeView>) -> Seq<ProbeRecordView> {
    Seq::new(entries.len(), |i: int| probe_record(entries[i]))
}

/// The stats that a record stands for: of rows with the same key the last counts.
pub open spec fn stats_of(record: StatsRecordView) -> StatsView {
    StatsView {
        global: record.global,
        by_prefix: table::collected(record.by_prefix),
        by_command: table::collected(record.by_command),
    }
}

/// Whether `record` is the record of `stats`: its rows in the order of their keys.
pub open spec fn is_stats_record(record: StatsRecordView, stats: StatsView) -> bool {
    &&& record.global == stats.global
    &&& table::increasing(record.by_prefix)
    &&& table::map_of(record.by_prefix) == stats.by_prefix
    &&& table::increasing(record.by_command)
    &&& table::map_of(record.by_command) == stats.by_command
}

/// A config is read back from its record.
pub proof fn law_config_read_back(record: ConfigRecordView, config: ConfigView)
    requires
        is_config_record(record, config),
    ensures
        config_of(record) == config,
{
    table::lemma_collected(record.mappings);
    assert(config_of(record) =~= config);
}

/// A probe is read back from its record.
pub proof fn law_probe_read_back(entry: ProbeView)
    ensures
        probe_of(probe_record(entry)) == entry,
{
    probe::law_state_name_round_trip(entry.state);
}

/// Probes are read back from their records.
pub proof fn law_probes_read_back(entries: Seq<ProbeView>)
    ensures
        probes_of(probe_records(entries)) == entries,
{
    let back = probes_of(probe_records(entries));
    assert forall|i: int| 0 <= i < entries.len() implies back[i] == entries[i] by {
        law_probe_read_back(entries[i]);
    }
    assert(back =~= entries);
}

/// Stats are read back from their record.
pub proof fn law_stats_read_back(record: StatsRecordView, stats: StatsView)
    requires
        is_stats_record(record, stats),
    ensures
        stats_of(record) == stats,
{
    table::lemma_collected(record.by_prefix);
    table::lemma_collected(record.by_command);
}

/// There is one record of a config, and one of stats.
pub proof fn law_records_unique(
    c1: ConfigRecordView,
    c2: ConfigRecordView,
    config: ConfigView,
    s1: StatsRecordView,
    s2: StatsRecordView,
    stats: StatsView,
)
    ensures
        is_config_record(c1, config) && is_config_record(c2, config) ==> c1 == c2,
        is_stats_record(s1, stats) && is_stats_record(s2, stats) ==> s1 == s2,
{
    if is_config_record(c1, config) && is_config_record(c2, config) {
        table::lemma_rows_unique(c1.mappings, c2.mappings);
    }
    if is_stats_record(s1, stats) && is_stats_record(s2, stats) {
        table::lemma_rows_unique(s1.by_prefix, s2.by_prefix);
        table::lemma_rows_unique(s1.by_command, s2.by_command);
    }
}

impl PrefixConfig {
    /// The record of this config.
    pub fn to_record(&self) -> (r: ConfigRecord)
        ensures
            is_config_record(r.deep_view(), self.deep_view()),
    {
        let mappings = copy_mappings(&self.mappings);
        let ghost all = self.deep_view().candidate_prefixes;
        let ghost goal = Seq::new(all.len(), |i: int| candidate_record(all[i]));
        let mut candidate_prefixes: Vec<CandidateRecord> = Vec::new();
        let mut i: usize = 0;
        while i < self.candidate_prefixes.len()
            invariant
                all == self.deep_view().candidate_prefixes,
                goal == Seq::new(all.len(), |i: int| candidate_record(all[i])),
                i <= self.candidate_prefixes.len(),
                candidate_prefixes@.len() == i,
                forall|k: int|
                    0 <= k < i ==> (#[trigger] candidate_prefixes@[k]).deep_view() == goal[k],
            decreases self.candidate_prefixes.len() - i,
        {
            let candidate = &self.candidate_prefixes[i];
            assert(all[i as int] == candidate.deep_view());
            candidate_prefixes.push(
                CandidateRecord {
                    prefix: copy_words(candidate.prefix.as_slice()),
                    success_when: Some(candidate.success_when.clone()),
                },
            );
            i += 1;
        }
        assert(candidate_prefixes.deep_view() =~= goal);
        ConfigRecord { mappings, candidate_prefixes }
    }

    /// The config that a record stands for.
    pub fn from_record(record: ConfigRecord) -> (r: Self)
        ensures
            r.deep_view() == config_of(record.deep_view()),
    {
        let ghost all = record.deep_view().candidate_prefixes;
        let mut left = record.candidate_prefixes;
        let mut candidate_prefixes: Vec<CandidatePrefix> = Vec::new();
        let ghost mut i: int = 0;
        proof {
            assert(all.skip(0) =~= all);
        }
        while left.len() > 0
            invariant
                0 <= i <= all.len(),
                left.deep_view() == all.skip(i),
                candidate_prefixes@.len() == i,
                forall|k: int|
                    0 <= k < i ==> (#[trigger] candidate_prefixes@[k]).deep_view() == candidate_of(
                        all[k],
                    ),
            decreases left.len(),
        {
            let ghost before = left.deep_view();
            assert(before.len() == left@.len());
            let candidate = left.remove(0);
            proof {
                assert(before[0] == all[i]);
                assert(left.deep_view() =~= before.remove(0));
                assert(all.skip(i).remove(0) =~= all.skip(i + 1));
                i = i + 1;
            }
            candidate_prefixes.push(
                CandidatePrefix::new(candidate.prefix, candidate.success_when),
            );
        }
        let r = PrefixConfig {
            mappings: Table::from_entries(record.mappings),
            candidate_prefixes,
        };
        assert(r.deep_view().candidate_prefixes =~= config_of(
            record.deep_view(),
        ).candidate_prefixes);
        r
    }
}

/// The rows of a table of mappings.
pub fn copy_mappings(mappings: &Table<Vec<String>>) -> (r: Vec<(String, Vec<String>)>)
    ensures
        table::increasing(r.deep_view()),
        table::map_of(r.deep_view()) == mappings.deep_view(),
{
    let entries = mappings.entries();
    let ghost rows = entries.deep_view();
    let mut out: Vec<(String, Vec<String>)> = Vec::new();
    let mut i: usize = 0;
    while i < entries.len()
        invariant
            rows == entries.deep_view(),
            i <= entries.len(),
            out@.len() == i,
            forall|k: int| 0 <= k < i ==> (#[trigger] out@[k]).deep_view() == rows[k],
        decreases entries.len() - i,
    {
        let key = entries[i].0.clone();
        let prefix = copy_words(entries[i].1.as_slice());
        assert(rows[i as int] == entries@[i as int].deep_view());
        out.push((key, prefix));
        i += 1;
    }
    assert(out.deep_view() =~= rows);
    out
}

impl ProbeEntry {
    /// The record of this probe.
    pub fn to_record(&self) -> (r: ProbeRecord)
        ensures
            r.deep_view() == probe_record(self.deep_view()),
    {
        ProbeRecord {
            key: self.key.clone(),
            prefix: copy_words(self.prefix.as_slice()),
            success_when: self.success_when.clone(),
            original_command: self.original_command.to_string(),
            state: self.state.name().to_owned(),
            candidate_index: self.candidate_index,
        }
    }

    /// The probe that a record stands for.
    pub fn from_record(record: ProbeRecord) -> (r: Self)
        ensures
            r.deep_view() == probe_of(record.deep_view()),
    {
        let state = ProbeState::from_name(record.state.as_str());
        ProbeEntry {
            key: record.key,
            prefix: record.prefix,
            success_when: record.success_when,
            original_command: OriginalCommand::from(record.original_command),
            state,
            candidate_index: record.candidate_index,
        }
    }
}

/// The records of probes.
pub fn records_of_probes(entries: &[ProbeEntry]) -> (r: Vec<ProbeRecord>)
    ensures
        r.deep_view() == probe_records(entries.deep_view()),
{
    let ghost goal = probe_records(entries.deep_view());
    let mut out: Vec<ProbeRecord> = Vec::new();
    let mut i: usize = 0;
    while i < entries.len()
        invariant
            goal == probe_records(entries.deep_view()),
            i <= entries.len(),
            out@.len() == i,
            forall|k: int| 0 <= k < i ==> (#[trigger] out@[k]).deep_view() == goal[k],
        decreases entries.len() - i,
    {
        out.push(entries[i].to_record());
        i += 1;
    }
    assert(out.deep_view() =~= goal);
    out
}

/// The probes that records stand for.
pub fn probes_of_records(records: Vec<ProbeRecord>) -> (r: Vec<ProbeEntry>)
    ensures
        r.deep_view() == probes_of(records.deep_view()),
{
    let ghost all = records.deep_view();
    let ghost goal = probes_of(all);
    let mut left = records;
    let mut out: Vec<ProbeEntry> = Vec::new();
    let ghost mut i: int = 0;
    proof {
        assert(all.skip(0) =~= all);
    }
    while left.len() > 0
        invariant
            0 <= i <= all.len(),
            goal == probes_of(all),
            left.deep_view() == all.skip(i),
            out@.len() == i,
            forall|k: int| 0 <= k < i ==> (#[trigger] out@[k]).deep_view() == goal[k],
        decreases left.len(),
    {
        let ghost before = left.deep_view();
        assert(before.len() == left@.len());
        let record = left.remove(0);
        proof {
            assert(before[0] == all[i]);
            assert(left.deep_view() =~= before.remove(0));
            assert(all.skip(i).remove(0) =~= all.skip(i + 1));
            i = i + 1;
        }
        out.push(ProbeEntry::from_record(record));
    }
    assert(out.deep_view() =~= goal);
    out
}

impl PrefixStats {
    /// The record of these stats.
    pub fn to_record(&self) -> (r: StatsRecord)
        ensures
            is_stats_record(r.deep_view(), self.deep_view()),
    {
        let prefixes = self.by_prefix.entries();
        let ghost prefix_rows = prefixes.deep_view();
        let mut by_prefix: Vec<(String, PrefixCounters)> = Vec::new();
        let mut i: usize = 0;
        while i < prefixes.len()
            invariant
                prefix_rows == prefixes.deep_view(),
                i <= prefixes.len(),
                by_prefix@.len() == i,
                forall|k: int|
                    0 <= k < i ==> (#[trigger] by_prefix@[k]).deep_view() == prefix_rows[k],
            decreases prefixes.len() - i,
        {
            assert(prefix_rows[i as int] == prefixes@[i as int].deep_view());
            by_prefix.push((prefixes[i].0.clone(), prefixes[i].1));
            i += 1;
        }
        assert(by_prefix.deep_view() =~= prefix_rows);
        let commands = self.by_command.entries();
        let ghost command_rows = commands.deep_view();
        let mut by_command: Vec<(String, CommandStats)> = Vec::new();
        let mut j: usize = 0;
        while j < commands.len()
            invariant
                command_rows == commands.deep_view(),
                j <= commands.len(),
                by_command@.len() == j,
                forall|k: int|
                    0 <= k < j ==> (#[trigger] by_command@[k]).deep_view() == command_rows[k],
            decreases commands.len() - j,
        {
            assert(command_rows[j as int] == commands@[j as int].deep_view());
            by_command.push((commands[j].0.clone(), commands[j].1.clone()));
            j += 1;
        }
        assert(by_command.deep_view() =~= command_rows);
        StatsRecord { global: self.global, by_prefix, by_command }
    }

    /// The stats that a record stands for.
    pub fn from_record(record: StatsRecord) -> (r: Self)
        ensures
            r.deep_view() == stats_of(record.deep_view()),
    {
        PrefixStats {
            global: record.global,
            by_prefix: Table::from_entries(record.by_prefix),
            by_command: Table::from_entries(record.by_command),
        }
    }
}

/// What a record of a probe holds, and what is read of one, field by field.
pub proof fn law_probe_fields(entry: ProbeView, record: ProbeRecordView)
    ensures
        probe_record(entry).key == entry.key,
        probe_record(entry).prefix == entry.prefix,
        probe_record(entry).success_when == entry.success_when,
        probe_record(entry).original_command == entry.original_command,
        probe_record(entry).state == (if entry.state == ProbeState::Probing {
            "Probing"@
        } else {
            "Pending"@
        }),
        probe_record(entry).candidate_index == entry.candidate_index,
        probe_of(record).key == record.key,
        probe_of(record).prefix == record.prefix,
        probe_of(record).success_when == record.success_when,
        probe_of(record).original_command == record.original_command,
        probe_of(record).state == (if record.state == "Probing"@ {
            ProbeState::Probing
        } else {
            ProbeState::Pending
        }),
        probe_of(record).candidate_index == record.candidate_index,
{
}

/// Probes and their records stand in the same order, one for one.
pub proof fn law_probes_one_for_one(
    entries: Seq<ProbeView>,
    records: Seq<ProbeRecordView>,
    i: int,
)
    ensures
        probe_records(entries).len() == entries.len(),
        0 <= i < entries.len() ==> probe_records(entries)[i] == probe_record(entries[i]),
        probes_of(records).len() == records.len(),
        0 <= i < records.len() ==> probes_of(records)[i] == probe_of(records[i]),
{
}

/// A record of a candidate always gives its predicate; a candidate that is read without one asks
/// for exit code 0 and nothing else.
pub proof fn law_candidate_fields(candidate: CandidateView, record: CandidateRecordView)
    ensures
        candidate_record(candidate).prefix == candidate.prefix,
        candidate_record(candidate).success_when == Some(candidate.success_when),
        candidate_of(record).prefix == record.prefix,
        record.success_when is Some ==> candidate_of(record).success_when
            == record.success_when->0,
        record.success_when is None ==> candidate_of(record).success_when == (PredicateView {
            exit_code: Some(0),
            stdout_matches: None,
            stderr_matches: None,
            stderr_absent: false,
        }),
{
}

/// What is read of the record of a config: of the mappings of a key the last, no key that is not
/// mapped, and the candidates in their order.
pub proof fn law_config_read(record: ConfigRecordView, i: int, key: Seq<char>)
    ensures
        0 <= i < record.mappings.len() && record.mappings[i].0 == key && (forall|j: int|
            i < j < record.mappings.len() ==> (#[trigger] record.mappings[j]).0 != key)
            ==> config_of(record).mappings.contains_key(key) && config_of(record).mappings[key]
            == record.mappings[i].1,
        (forall|j: int|
            0 <= j < record.mappings.len() ==> (#[trigger] record.mappings[j]).0 != key)
            ==> !config_of(record).mappings.contains_key(key),
        config_of(record).candidate_prefixes.len() == record.candidate_prefixes.len(),
        0 <= i < record.candidate_prefixes.len() ==> config_of(record).candidate_prefixes[i]
            == candidate_of(record.candidate_prefixes[i]),
{
    table::law_last_counts(record.mappings, i, key);
}

/// What is read of the record of stats: its totals, and of the rows of a key the last.
pub proof fn law_stats_read(record: StatsRecordView, i: int, key: Seq<char>)
    ensures
        stats_of(record).global == record.global,
        0 <= i < record.by_prefix.len() && record.by_prefix[i].0 == key && (forall|j: int|
            i < j < record.by_prefix.len() ==> (#[trigger] record.by_prefix[j]).0 != key)
            ==> stats_of(record).by_prefix.contains_key(key) && stats_of(record).by_prefix[key]
            == record.by_prefix[i].1,
        (forall|j: int|
            0 <= j < record.by_prefix.len() ==> (#[trigger] record.by_prefix[j]).0 != key)
            ==> !stats_of(record).by_prefix.contains_key(key),
        0 <= i < record.by_command.len() && record.by_command[i].0 == key && (forall|j: int|
            i < j < record.by_command.len() ==> (#[trigger] record.by_command[j]).0 != key)
            ==> stats_of(record).by_command.contains_key(key) && stats_of(record).by_command[key]
            == record.by_command[i].1,
        (forall|j: int|
            0 <= j < record.by_command.len() ==> (#[trigger] record.by_command[j]).0 != key)
            ==> !stats_of(record).by_command.contains_key(key),
{
    table::law_last_counts(record.by_prefix, i, key);
    table::law_last_counts(record.by_command, i, key);
}

/// The record of a config lists its mappings in the order of their keys, each once and none
/// besides, and its candidates in their order.
pub proof fn law_config_written(record: ConfigRecordView, config: ConfigView, i: int)
    requires
        is_config_record(record, config),
    ensures
        forall|a: int, b: int|
            0 <= a < b < record.mappings.len() ==> text::text_lt(
                (#[trigger] record.mappings[a]).0,
                (#[trigger] record.mappings[b]).0,
            ),
        forall|key: Seq<char>| #[trigger]
            config.mappings.contains_key(key) <==> exists|a: int|
                0 <= a < record.mappings.len() && (#[trigger] record.mappings[a]).0 == key,
        0 <= i < record.mappings.len() ==> record.mappings[i].1
            == config.mappings[record.mappings[i].0],
        record.candidate_prefixes.len() == config.candidate_prefixes.len(),
        0 <= i < config.candidate_prefixes.len() ==> record.candidate_prefixes[i]
            == candidate_record(config.candidate_prefixes[i]),
{
    assert forall|key: Seq<char>| #[trigger]
        config.mappings.contains_key(key) <==> exists|a: int|
            0 <= a < record.mappings.len() && (#[trigger] record.mappings[a]).0 == key by {
        table::law_rows(record.mappings, key);
    }
    if 0 <= i < record.mappings.len() {
        table::law_rows(record.mappings, record.mappings[i].0);
    }
}

/// The record of stats holds their totals, and lists their rows in the order of their keys, each
/// once and none besides.
pub proof fn law_stats_written(record: StatsRecordView, stats: StatsView, i: int)
    requires
        is_stats_record(record, stats),
    ensures
        record.global == stats.global,
        forall|a: int, b: int|
            0 <= a < b < record.by_prefix.len() ==> text::text_lt(
                (#[trigger] record.by_prefix[a]).0,
                (#[trigger] record.by_prefix[b]).0,
            ),
        forall|key: Seq<char>| #[trigger]
            stats.by_prefix.contains_key(key) <==> exists|a: int|
                0 <= a < record.by_prefix.len() && (#[trigger] record.by_prefix[a]).0 == key,
        0 <= i < record.by_prefix.len() ==> record.by_prefix[i].1
            == stats.by_prefix[record.by_prefix[i].0],
        forall|a: int, b: int|
            0 <= a < b < record.by_command.len() ==> text::text_lt(
                (#[trigger] record.by_command[a]).0,
                (#[trigger] record.by_command[b]).0,
            ),
        forall|key: Seq<char>| #[trigger]
            stats.by_command.contains_key(key) <==> exists|a: int|
                0 <= a < record.by_command.len() && (#[trigger] record.by_command[a]).0 == key,
        0 <= i < record.by_command.len() ==> record.by_command[i].1
            == stats.by_command[record.by_command[i].0],
{
    assert forall|key: Seq<char>| #[trigger]
        stats.by_prefix.contains_key(key) <==> exists|a: int|
            0 <= a < record.by_prefix.len() && (#[trigger] record.by_prefix[a]).0 == key by {
        table::law_rows(record.by_prefix, key);
    }
    assert forall|key: Seq<char>| #[trigger]
        stats.by_command.contains_key(key) <==> exists|a: int|
            0 <= a < record.by_command.len() && (#[trigger] record.by_command[a]).0 == key by {
        table::law_rows(record.by_command, key);
    }
    if 0 <= i < record.by_prefix.len() {
        table::law_rows(record.by_prefix, record.by_prefix[i].0);
    }
    if 0 <= i < record.by_command.len() {
        table::law_rows(record.by_command, record.by_command[i].0);
    }
}

/// Of a draft, entry by entry: an entry among the mappings is kept, behind those before it, where
/// its value is a prefix, and passed over where it is none; an entry among the candidates is kept
/// where its prefix is given, with its predicate if it has one, and passed over where it is not.
pub proof fn law_draft_entries(
    rows: Seq<(Seq<char>, Option<Seq<Seq<char>>>)>,
    drafts: Seq<CandidateDraftView>,
    key: Seq<char>,
    prefix: Seq<Seq<char>>,
    success_when: Option<PredicateView>,
)
    ensures
        kept_mappings(seq![]) == Seq::<(Seq<char>, Seq<Seq<char>>)>::empty(),
        kept_mappings(rows.push((key, Some(prefix)))) == kept_mappings(rows).push((key, prefix)),
        kept_mappings(rows.push((key, None))) == kept_mappings(rows),
        kept_candidates(seq![]) == Seq::<CandidateRecordView>::empty(),
        kept_candidates(drafts.push(CandidateDraftView { prefix: Some(prefix), success_when }))
            == kept_candidates(drafts).push(CandidateRecordView { prefix, success_when }),
        kept_candidates(drafts.push(CandidateDraftView { prefix: None, success_when }))
            == kept_candidates(drafts),
        record_of(ConfigDraftView { mappings: rows, candidate_prefixes: drafts }) == (
        ConfigRecordView {
            mappings: kept_mappings(rows),
            candidate_prefixes: kept_candidates(drafts),
        }),
{
    assert(rows.push((key, Some(prefix))).drop_last() =~= rows);
    assert(rows.push((key, None)).drop_last() =~= rows);
    let some = CandidateDraftView { prefix: Some(prefix), success_when };
    let none = CandidateDraftView { prefix: None, success_when };
    assert(drafts.push(some).drop_last() =~= drafts);
    assert(drafts.push(none).drop_last() =~= drafts);
}

/// What contracts see of records is what they hold, field by field.
pub proof fn law_seen_as_held(
    config: ConfigRecord,
    candidate: CandidateRecord,
    probe: ProbeRecord,
    stats: StatsRecord,
    draft: ConfigDraft,
    read: CandidateDraft,
)
    ensures
        config.deep_view().mappings == config.mappings.deep_view(),
        config.deep_view().candidate_prefixes == config.candidate_prefixes.deep_view(),
        candidate.deep_view().prefix == candidate.prefix.deep_view(),
        candidate.deep_view().success_when == candidate.success_when.deep_view(),
        probe.deep_view().key == probe.key@,
        probe.deep_view().prefix == probe.prefix.deep_view(),
        probe.deep_view().success_when == probe.success_when.deep_view(),
        probe.deep_view().original_command == probe.original_command@,
        probe.deep_view().state == probe.state@,
        probe.deep_view().candidate_index == probe.candidate_index,
        stats.deep_view().global == stats.global,
        stats.deep_view().by_prefix == stats.by_prefix.deep_view(),
        stats.deep_view().by_command == stats.by_command.deep_view(),
        draft.deep_view().mappings == draft.mappings.deep_view(),
        draft.deep_view().candidate_prefixes == draft.candidate_prefixes.deep_view(),
        read.deep_view().prefix == read.prefix.deep_view(),
        read.deep_view().success_when == read.success_when.deep_view(),
{
}

} // verus!
