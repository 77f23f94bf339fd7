use std::cell::RefCell;

use prefixe::post_hook::{
    begin_probe, command_key, count_result, end_attempt, key_from_words,
};
use prefixe::pre_hook::mark_retry;
use prefixe::predicate::judge;
use prefixe::preview::{
    preview_failure, preview_match, preview_result, HeldPrefixes, HeldProbes, HeldStats,
};
use prefixe::probe::{find_probe, prefixed_command, remove_probes_of};
use prefixe::{
    check_probe_match, evaluate_predicate, handle_failure, handle_probe_result, rewrite_command,
    CandidatePrefix, CommandStats, Error, OriginalCommand, PostHookOutput, PrefixConfig,
    PrefixCounters, PrefixStats, PrefixStore, PrefixLedger, ProbeEntry, ProbeLedger, ProbeState, ProbeStore, StatsLedger,
    StatsStore, SuccessPredicate,
};

struct FakePrefixStore {
    config: RefCell<PrefixConfig>,
    confirms: RefCell<usize>,
}

impl FakePrefixStore {
    fn new(config: PrefixConfig) -> Self {
        Self {
            config: RefCell::new(config),
            confirms: RefCell::new(0),
        }
    }
}

impl PrefixStore for FakePrefixStore {
    fn load(&self) -> PrefixConfig {
        self.config.borrow().clone()
    }

    fn confirm_mapping(&self, key: &str, prefix: &[String]) -> Result<(), Error> {
        self.config.borrow_mut().confirm_mapping(key, prefix);
        *self.confirms.borrow_mut() += 1;
        Ok(())
    }

    fn remove_mapping(&self, key: &str) -> Result<bool, Error> {
        Ok(self.config.borrow_mut().remove_mapping(key))
    }
}

struct FakeProbeStore {
    entries: RefCell<Vec<ProbeEntry>>,
    writes: RefCell<usize>,
}

impl FakeProbeStore {
    fn with_entries(entries: Vec<ProbeEntry>) -> Self {
        Self {
            entries: RefCell::new(entries),
            writes: RefCell::new(0),
        }
    }

    fn empty() -> Self {
        Self::with_entries(vec![])
    }
}

impl ProbeStore for FakeProbeStore {
    fn load(&self) -> Vec<ProbeEntry> {
        self.entries.borrow().clone()
    }

    fn write(&self, entries: &[ProbeEntry]) -> Result<(), Error> {
        *self.entries.borrow_mut() = entries.to_vec();
        *self.writes.borrow_mut() += 1;
        Ok(())
    }

    fn remove_matching(&self, cmd: &OriginalCommand) -> Result<(), Error> {
        let mut entries = self.load();
        if remove_probes_of(&mut entries, cmd) {
            self.write(&entries)?;
        }
        Ok(())
    }
}

struct FakeStatsStore {
    stats: RefCell<PrefixStats>,
    saves: RefCell<usize>,
}

impl FakeStatsStore {
    fn new() -> Self {
        Self::holding(PrefixStats::default())
    }

    fn holding(stats: PrefixStats) -> Self {
        Self {
            stats: RefCell::new(stats),
            saves: RefCell::new(0),
        }
    }
}

impl StatsStore for FakeStatsStore {
    fn load(&self) -> PrefixStats {
        self.stats.borrow().clone()
    }

    fn save(&self, stats: &PrefixStats) -> Result<(), Error> {
        *self.stats.borrow_mut() = stats.clone();
        *self.saves.borrow_mut() += 1;
        Ok(())
    }
}

fn fail(
    command: &str,
    prefix_store: &FakePrefixStore,
    probe_store: &FakeProbeStore,
    stats_store: &FakeStatsStore,
) -> PostHookOutput {
    handle_failure(
        command,
        prefix_store,
        &mut ProbeLedger::new(probe_store),
        &mut StatsLedger::new(stats_store),
    )
}

fn see(command: &str, probe_store: &FakeProbeStore) -> bool {
    check_probe_match(command, &mut ProbeLedger::new(probe_store))
}

fn end(
    command: &str,
    exit_code: i64,
    prefix_store: &FakePrefixStore,
    probe_store: &FakeProbeStore,
    stats_store: &FakeStatsStore,
) -> PostHookOutput {
    handle_probe_result(
        command,
        exit_code,
        "",
        "",
        &mut PrefixLedger::new(prefix_store),
        &mut ProbeLedger::new(probe_store),
        &mut StatsLedger::new(stats_store),
    )
}

fn words(list: &[&str]) -> Vec<String> {
    list.iter().map(|s| s.to_string()).collect()
}

fn candidate(prefix: &[&str]) -> CandidatePrefix {
    CandidatePrefix {
        prefix: words(prefix),
        success_when: SuccessPredicate::exit_zero(),
    }
}

fn config_with_one_candidate() -> PrefixConfig {
    PrefixConfig {
        mappings: Default::default(),
        candidate_prefixes: vec![CandidatePrefix {
            prefix: vec![
                "op".to_string(),
                "plugin".to_string(),
                "run".to_string(),
                "--".to_string(),
            ],
            success_when: SuccessPredicate::exit_zero(),
        }],
    }
}

fn config_with_two_candidates() -> PrefixConfig {
    PrefixConfig {
        mappings: Default::default(),
        candidate_prefixes: vec![
            CandidatePrefix {
                prefix: vec![
                    "op".to_string(),
                    "plugin".to_string(),
                    "run".to_string(),
                    "--".to_string(),
                ],
                success_when: SuccessPredicate::exit_zero(),
            },
            CandidatePrefix {
                prefix: vec!["sudo".to_string()],
                success_when: SuccessPredicate::exit_zero(),
            },
        ],
    }
}

fn probe(original: &str, prefix: &[&str], state: ProbeState, candidate_index: usize) -> ProbeEntry {
    ProbeEntry {
        key: original.split_whitespace().next().unwrap_or("").to_string(),
        prefix: words(prefix),
        success_when: SuccessPredicate::exit_zero(),
        original_command: OriginalCommand::from(original),
        state,
        candidate_index,
    }
}

fn pending_probe(original: &str, prefix: &[&str]) -> ProbeEntry {
    probe(original, prefix, ProbeState::Pending, 0)
}

fn message(out: &PostHookOutput) -> &str {
    out.system_message.as_deref().unwrap_or("")
}

#[test]
fn on_bare_failure_writes_pending_probe_and_returns_message() {
    let prefix_store = FakePrefixStore::new(config_with_one_candidate());
    let probe_store = FakeProbeStore::empty();
    let stats_store = FakeStatsStore::new();

    let result = fail("gh issue list", &prefix_store, &probe_store, &stats_store);

    let probes = probe_store.load();
    assert_eq!(probes.len(), 1);
    assert_eq!(probes[0].state, ProbeState::Pending);
    assert_eq!(probes[0].candidate_index, 0);
    assert_eq!(probes[0].key, "gh");
    assert!(result
        .system_message
        .as_deref()
        .unwrap_or("")
        .contains("op plugin run -- gh issue list"));

    let stats = stats_store.load();
    assert_eq!(stats.global.probes_initiated, 1);
    assert_eq!(stats.by_command.get("gh").unwrap().probes_initiated, 1);
}

#[test]
fn on_failure_with_existing_pending_probe_does_not_duplicate() {
    let prefix_store = FakePrefixStore::new(config_with_one_candidate());
    let probe_store = FakeProbeStore::with_entries(vec![ProbeEntry {
        key: "gh".to_string(),
        prefix: vec!["op".to_string()],
        success_when: SuccessPredicate::exit_zero(),
        original_command: OriginalCommand::from("gh issue list"),
        state: ProbeState::Pending,
        candidate_index: 0,
    }]);
    let stats_store = FakeStatsStore::new();

    fail("gh issue list", &prefix_store, &probe_store, &stats_store);

    assert_eq!(probe_store.load().len(), 1);
}

#[test]
fn on_failure_with_no_candidates_returns_silent() {
    let prefix_store = FakePrefixStore::new(PrefixConfig::default());
    let probe_store = FakeProbeStore::empty();
    let stats_store = FakeStatsStore::new();

    let result = fail("grep foo .", &prefix_store, &probe_store, &stats_store);
    assert!(result.system_message.is_none());
}

#[test]
fn probing_success_confirms_mapping_and_notifies() {
    let prefix_store = FakePrefixStore::new(config_with_one_candidate());
    let probe_store = FakeProbeStore::with_entries(vec![ProbeEntry {
        key: "gh".to_string(),
        prefix: vec![
            "op".to_string(),
            "plugin".to_string(),
            "run".to_string(),
            "--".to_string(),
        ],
        success_when: SuccessPredicate::exit_zero(),
        original_command: OriginalCommand::from("gh issue list"),
        state: ProbeState::Probing,
        candidate_index: 0,
    }]);
    let stats_store = FakeStatsStore::new();

    let result = end(
        "op plugin run -- gh issue list",
        0,
        &prefix_store,
        &probe_store,
        &stats_store,
    );

    assert!(result
        .system_message
        .as_deref()
        .unwrap_or("")
        .contains("succeeded"));
    assert_eq!(probe_store.load().len(), 0);

    let stats = stats_store.load();
    assert_eq!(stats.global.probes_confirmed, 1);
    assert_eq!(stats.by_prefix.get("op plugin run --").unwrap().confirmed, 1);
}

#[test]
fn probing_failure_cycles_to_next_candidate() {
    let prefix_store = FakePrefixStore::new(config_with_two_candidates());
    let probe_store = FakeProbeStore::with_entries(vec![ProbeEntry {
        key: "gh".to_string(),
        prefix: vec![
            "op".to_string(),
            "plugin".to_string(),
            "run".to_string(),
            "--".to_string(),
        ],
        success_when: SuccessPredicate::exit_zero(),
        original_command: OriginalCommand::from("gh issue list"),
        state: ProbeState::Probing,
        candidate_index: 0,
    }]);
    let stats_store = FakeStatsStore::new();

    let result = end(
        "op plugin run -- gh issue list",
        1,
        &prefix_store,
        &probe_store,
        &stats_store,
    );

    assert!(result
        .system_message
        .as_deref()
        .unwrap_or("")
        .contains("sudo gh issue list"));
    let probes = probe_store.load();
    assert_eq!(probes.len(), 1);
    assert_eq!(probes[0].state, ProbeState::Pending);
    assert_eq!(probes[0].candidate_index, 1);

    let stats = stats_store.load();
    assert_eq!(stats.by_prefix.get("op plugin run --").unwrap().failed, 1);
}

#[test]
fn probing_failure_exhausted_asks_user() {
    let prefix_store = FakePrefixStore::new(config_with_one_candidate());
    let probe_store = FakeProbeStore::with_entries(vec![ProbeEntry {
        key: "gh".to_string(),
        prefix: vec![
            "op".to_string(),
            "plugin".to_string(),
            "run".to_string(),
            "--".to_string(),
        ],
        success_when: SuccessPredicate::exit_zero(),
        original_command: OriginalCommand::from("gh issue list"),
        state: ProbeState::Probing,
        candidate_index: 0,
    }]);
    let stats_store = FakeStatsStore::new();

    let result = end(
        "op plugin run -- gh issue list",
        1,
        &prefix_store,
        &probe_store,
        &stats_store,
    );

    assert!(result
        .system_message
        .as_deref()
        .unwrap_or("")
        .contains("All candidates failed"));
    assert_eq!(probe_store.load().len(), 0);

    let stats = stats_store.load();
    assert_eq!(stats.global.probes_exhausted, 1);
}

#[test]
fn pending_probe_match_transitions_to_probing() {
    let probe_store = FakeProbeStore::with_entries(vec![pending_probe(
        "gh issue list",
        &["op", "plugin", "run", "--"],
    )]);

    let result = see("op plugin run -- gh issue list", &probe_store);

    assert!(result, "should have matched pending probe");
    let probes = probe_store.load();
    assert_eq!(probes[0].state, ProbeState::Probing);
}

#[test]
fn non_probe_command_returns_false() {
    let probe_store = FakeProbeStore::empty();
    let result = see("gh issue list", &probe_store);
    assert!(!result);
}

#[test]
fn already_probing_entry_not_re_matched() {
    let mut probe = pending_probe("gh issue list", &["op", "plugin", "run", "--"]);
    probe.state = ProbeState::Probing;
    let probe_store = FakeProbeStore::with_entries(vec![probe]);

    let result = see("op plugin run -- gh issue list", &probe_store);
    assert!(!result);
}

#[test]
fn evaluate_exit_zero_passes() {
    let pred = SuccessPredicate::exit_zero();
    assert!(evaluate_predicate(&pred, 0, "", ""));
}

#[test]
fn evaluate_exit_zero_fails_on_nonzero() {
    let pred = SuccessPredicate::exit_zero();
    assert!(!evaluate_predicate(&pred, 1, "", ""));
}

#[test]
fn evaluate_stderr_absent_fails_when_stderr_present() {
    let pred = SuccessPredicate {
        exit_code: Some(0),
        stderr_absent: true,
        ..Default::default()
    };
    assert!(!evaluate_predicate(&pred, 0, "", "some error"));
}

#[test]
fn evaluate_stdout_matches_regex() {
    let pred = SuccessPredicate {
        exit_code: Some(0),
        stdout_matches: Some(r"issue \d+".to_string()),
        ..Default::default()
    };
    assert!(evaluate_predicate(&pred, 0, "issue 42 opened", ""));
    assert!(!evaluate_predicate(&pred, 0, "no match here", ""));
}

#[test]
fn evaluate_stderr_matches_regex() {
    let pred = SuccessPredicate {
        exit_code: Some(0),
        stderr_matches: Some(r"^$".to_string()),
        ..Default::default()
    };
    assert!(evaluate_predicate(&pred, 0, "", ""));
    assert!(!evaluate_predicate(&pred, 0, "", "error occurred"));
}

#[test]
fn evaluate_pattern_that_is_no_regex_fails() {
    let pred = SuccessPredicate {
        exit_code: None,
        stdout_matches: Some("(".to_string()),
        ..Default::default()
    };
    assert!(!evaluate_predicate(&pred, 0, "(", ""));
}

#[test]
fn evaluate_stderr_absent_admits_blank() {
    let pred = SuccessPredicate {
        exit_code: None,
        stderr_absent: true,
        ..Default::default()
    };
    assert!(evaluate_predicate(&pred, 3, "", " \n\t"));
}

#[test]
fn evaluate_permissive_predicate_passes_on_anything() {
    let pred = SuccessPredicate {
        exit_code: None,
        ..Default::default()
    };
    assert!(evaluate_predicate(&pred, -1, "out", "err"));
    assert!(evaluate_predicate(&pred, i64::MAX, "", ""));
}

#[test]
fn judge_goes_by_what_was_found() {
    let pred = SuccessPredicate {
        exit_code: Some(2),
        stdout_matches: Some("a".to_string()),
        stderr_matches: Some("b".to_string()),
        stderr_absent: false,
    };
    assert!(judge(&pred, 2, "x", Some(true), Some(true)));
    assert!(!judge(&pred, 1, "x", Some(true), Some(true)));
    assert!(!judge(&pred, 2, "x", Some(false), Some(true)));
    assert!(!judge(&pred, 2, "x", Some(true), Some(false)));
    assert!(!judge(&pred, 2, "x", None, Some(true)));
    assert!(!judge(&pred, 2, "x", Some(true), None));
    assert!(judge(&SuccessPredicate::exit_zero(), 0, "x", None, None));
}

#[test]
fn command_key_is_the_first_word() {
    assert_eq!(command_key("  gh issue list"), "gh");
    assert_eq!(command_key("'my tool' x"), "my tool");
    assert_eq!(command_key(" gh 'x "), "gh 'x");
    assert_eq!(command_key("   "), "");
}

#[test]
fn key_from_words_falls_back_to_the_command() {
    assert_eq!(key_from_words(&Some(words(&["a", "b"])), "c d"), "a");
    assert_eq!(key_from_words(&Some(vec![]), " c d "), "c d");
    assert_eq!(key_from_words(&None, " c d "), "c d");
}

#[test]
fn failure_answer_is_exact() {
    let mut probes = vec![];
    let out = begin_probe(
        "gh issue list",
        "gh",
        &config_with_two_candidates(),
        &mut probes,
    );
    assert_eq!(out.decision.as_deref(), Some("allow"));
    assert_eq!(
        message(&out),
        "Command failed. Retry with: op plugin run -- gh issue list"
    );
    assert_eq!(
        probes,
        vec![pending_probe("gh issue list", &["op", "plugin", "run", "--"])]
    );
    let again = begin_probe(
        "gh issue list",
        "gh",
        &config_with_two_candidates(),
        &mut probes,
    );
    assert_eq!(again.decision.as_deref(), Some("allow"));
    assert_eq!(again.system_message, None);
    assert_eq!(probes.len(), 1);
}

#[test]
fn other_commands_with_the_same_key_get_their_own_probe() {
    let mut probes = vec![];
    let config = config_with_one_candidate();
    begin_probe("gh issue list", "gh", &config, &mut probes);
    begin_probe("gh pr list", "gh", &config, &mut probes);
    assert_eq!(probes.len(), 2);
    assert_eq!(probes[1].original_command.as_str(), "gh pr list");
}

#[test]
fn silent_failure_touches_no_store() {
    let prefix_store = FakePrefixStore::new(config_with_one_candidate());
    let probe_store =
        FakeProbeStore::with_entries(vec![pending_probe("gh issue list", &["x"])]);
    let stats_store = FakeStatsStore::new();
    fail("gh issue list", &prefix_store, &probe_store, &stats_store);
    assert_eq!(*probe_store.writes.borrow(), 0);
    assert_eq!(*stats_store.saves.borrow(), 0);
}

#[test]
fn result_answers_are_exact() {
    let config = config_with_two_candidates();
    let retry = probe("gh x", &["op", "plugin", "run", "--"], ProbeState::Probing, 0);
    let other = pending_probe("ls", &["sudo"]);

    let mut probes = vec![retry.clone(), other.clone()];
    let out = end_attempt(&mut probes, 0, true, &config);
    assert_eq!(
        message(&out),
        "Candidate `op plugin run --` succeeded for `gh x` \u{2014} mapping confirmed."
    );
    assert_eq!(probes, vec![other.clone()]);

    let mut probes = vec![retry, other.clone()];
    let out = end_attempt(&mut probes, 0, false, &config);
    assert_eq!(message(&out), "Candidate failed. Retry with: sudo gh x");
    assert_eq!(
        probes,
        vec![
            other.clone(),
            probe("gh x", &["sudo"], ProbeState::Pending, 1)
        ]
    );

    let mut probes = vec![
        other.clone(),
        probe("gh x", &["sudo"], ProbeState::Probing, 1),
    ];
    let out = end_attempt(&mut probes, 1, false, &config);
    assert_eq!(
        message(&out),
        "All candidates failed for `gh x`. Add a confirmed mapping manually or specify a prefix to try."
    );
    assert_eq!(probes, vec![other]);
}

#[test]
fn probe_beyond_the_candidates_is_exhausted() {
    let mut probes = vec![probe("gh x", &["op"], ProbeState::Probing, usize::MAX)];
    let out = end_attempt(&mut probes, 0, false, &config_with_two_candidates());
    assert!(message(&out).contains("All candidates failed"));
    assert!(probes.is_empty());
}

#[test]
fn learning_goes_through_all_candidates_to_a_mapping() {
    let prefix_store = FakePrefixStore::new(config_with_two_candidates());
    let probe_store = FakeProbeStore::empty();
    let stats_store = FakeStatsStore::new();
    let cmd = "gh issue list";

    let out = fail(cmd, &prefix_store, &probe_store, &stats_store);
    let retry = message(&out).strip_prefix("Command failed. Retry with: ").unwrap();
    assert!(see(retry, &probe_store));
    assert!(!see(retry, &probe_store));
    let out = end(
        retry,
        1,
        &prefix_store,
        &probe_store,
        &stats_store,
    );
    let retry = message(&out).strip_prefix("Candidate failed. Retry with: ").unwrap();
    assert_eq!(retry, "sudo gh issue list");
    assert!(see(retry, &probe_store));
    let out = end(
        retry,
        0,
        &prefix_store,
        &probe_store,
        &stats_store,
    );
    assert!(message(&out).contains("mapping confirmed"));
    assert!(probe_store.load().is_empty());

    let config = prefix_store.load();
    assert_eq!(config.mappings.get("gh"), Some(&words(&["sudo"])));
    assert_eq!(rewrite_command(cmd, &config).rewritten, retry);

    let stats = stats_store.load();
    assert_eq!(stats.global.probes_initiated, 1);
    assert_eq!(stats.global.probes_confirmed, 1);
    assert_eq!(stats.global.probes_exhausted, 0);
    assert_eq!(
        stats.by_prefix.get("op plugin run --"),
        Some(&PrefixCounters {
            tried: 1,
            confirmed: 0,
            failed: 1
        })
    );
    assert_eq!(
        stats.by_prefix.get("sudo"),
        Some(&PrefixCounters {
            tried: 1,
            confirmed: 1,
            failed: 0
        })
    );
    let gh = stats.by_command.get("gh").unwrap();
    assert_eq!(gh.probes_initiated, 1);
    assert_eq!(gh.confirmed_prefix.as_deref(), Some("sudo"));
    let at = gh.confirmed_at.as_deref().unwrap();
    assert_eq!(at.len(), 20);
    assert!(at.ends_with('Z') && at.contains('T'));
    assert!(at.as_bytes()[0] == b'2');
}

#[test]
fn result_without_a_probing_probe_is_silent() {
    let prefix_store = FakePrefixStore::new(config_with_one_candidate());
    let probe_store = FakeProbeStore::with_entries(vec![pending_probe(
        "gh issue list",
        &["op", "plugin", "run", "--"],
    )]);
    let stats_store = FakeStatsStore::new();
    let out = end(
        "op plugin run -- gh issue list",
        0,
        &prefix_store,
        &probe_store,
        &stats_store,
    );
    assert_eq!(out.decision.as_deref(), Some("allow"));
    assert_eq!(out.system_message, None);
    assert_eq!(*probe_store.writes.borrow(), 0);
    assert_eq!(*stats_store.saves.borrow(), 0);
    assert!(prefix_store.load().mappings.is_empty());
}

#[test]
fn each_result_changes_each_store_once() {
    for (exit_code, confirms) in [(0, 1), (1, 0)] {
        let prefix_store = FakePrefixStore::new(config_with_one_candidate());
        let probe_store = FakeProbeStore::with_entries(vec![probe(
            "gh issue list",
            &["op", "plugin", "run", "--"],
            ProbeState::Probing,
            0,
        )]);
        let stats_store = FakeStatsStore::new();
        end(
        "op plugin run -- gh issue list",
        exit_code,
        &prefix_store,
        &probe_store,
        &stats_store,
    );
        assert_eq!(*prefix_store.confirms.borrow(), confirms);
        assert_eq!(*probe_store.writes.borrow(), 1);
        assert_eq!(*stats_store.saves.borrow(), 1);
        assert_eq!(
            prefix_store.load().mappings.contains_key("gh"),
            exit_code == 0
        );
    }
}

#[test]
fn failure_writes_and_counts_once_and_confirms_nothing() {
    let prefix_store = FakePrefixStore::new(config_with_one_candidate());
    let probe_store = FakeProbeStore::empty();
    let stats_store = FakeStatsStore::new();
    fail("gh x", &prefix_store, &probe_store, &stats_store);
    assert_eq!(*prefix_store.confirms.borrow(), 0);
    assert_eq!(*probe_store.writes.borrow(), 1);
    assert_eq!(*stats_store.saves.borrow(), 1);
}

#[test]
fn sight_of_a_command_writes_once_or_not_at_all() {
    let probe_store = FakeProbeStore::with_entries(vec![pending_probe("gh x", &["op"])]);
    assert!(!see("gh x", &probe_store));
    assert_eq!(*probe_store.writes.borrow(), 0);
    assert!(see("op gh x", &probe_store));
    assert_eq!(*probe_store.writes.borrow(), 1);
}

#[test]
fn previews_answer_as_the_hooks_do() {
    let config = config_with_two_candidates();
    let waiting = probe("gh x", &["sudo"], ProbeState::Probing, 1);
    let stats = PrefixStats::default();
    let out = preview_failure("gh x", config.clone(), vec![], stats.clone());
    assert_eq!(
        message(&out),
        "Command failed. Retry with: op plugin run -- gh x"
    );
    let out = preview_failure("gh x", config.clone(), vec![waiting.clone()], stats.clone());
    assert_eq!(out.system_message, None);
    let result = |code: i64, probes: Vec<ProbeEntry>| {
        preview_result(
            "sudo gh x",
            code,
            "",
            "",
            config.clone(),
            probes,
            stats.clone(),
        )
    };
    assert!(message(&result(0, vec![waiting.clone()])).contains("succeeded"));
    assert!(message(&result(1, vec![waiting.clone()])).contains("All candidates failed"));
    assert_eq!(result(0, vec![]).system_message, None);
    assert!(preview_match("op gh x", vec![pending_probe("gh x", &["op"])]));
    assert!(!preview_match("sudo gh x", vec![waiting]));
}

#[test]
fn held_stores_forget_what_they_are_asked_to_change() {
    let mut config = config_with_one_candidate();
    config.confirm_mapping("gh", &words(&["op"]));
    let prefixes = HeldPrefixes { config };
    assert!(prefixes.remove_mapping("gh").unwrap());
    assert!(!prefixes.remove_mapping("ls").unwrap());
    prefixes.confirm_mapping("ls", &words(&["x"])).unwrap();
    assert!(prefixes.load().mappings.contains_key("gh"));
    assert!(!prefixes.load().mappings.contains_key("ls"));
    assert_eq!(prefixes.load().candidate_prefixes.len(), 1);

    let held = vec![pending_probe("gh x", &["op"])];
    let probes = HeldProbes {
        probes: held.clone(),
    };
    probes.write(&[]).unwrap();
    probes
        .remove_matching(&OriginalCommand::from("gh x"))
        .unwrap();
    assert_eq!(probes.load(), held);

    let mut stats = PrefixStats::default();
    stats.record_initiated("gh");
    let store = HeldStats { stats };
    store.save(&PrefixStats::default()).unwrap();
    assert_eq!(store.load().global.probes_initiated, 1);
    assert_eq!(store.load().command("gh").probes_initiated, 1);
}

#[test]
fn hooks_take_stores_of_unknown_type() {
    let prefix_store = FakePrefixStore::new(config_with_one_candidate());
    let probe_store = FakeProbeStore::empty();
    let stats_store = FakeStatsStore::new();
    let prefixes: &dyn PrefixStore = &prefix_store;
    let probes: &dyn ProbeStore = &probe_store;
    let stats: &dyn StatsStore = &stats_store;
    let out = handle_failure(
        "gh x",
        prefixes,
        &mut ProbeLedger::new(probes),
        &mut StatsLedger::new(stats),
    );
    assert!(out.system_message.is_some());
    let retry = "op plugin run -- gh x";
    assert!(check_probe_match(retry, &mut ProbeLedger::new(probes)));
    let out = handle_probe_result(
        retry,
        0,
        "",
        "",
        &mut PrefixLedger::new(prefixes),
        &mut ProbeLedger::new(probes),
        &mut StatsLedger::new(stats),
    );
    assert!(message(&out).contains("succeeded"));
    assert!(prefix_store.load().mappings.contains_key("gh"));
}

#[test]
fn retry_matches_up_to_white_space_around_it() {
    let mut probes = vec![pending_probe("gh x ", &["op"])];
    assert!(!mark_retry("op  gh x", &mut probes));
    assert!(mark_retry("\top gh x\n", &mut probes));
    assert_eq!(probes[0].state, ProbeState::Probing);
}

#[test]
fn only_the_first_matching_pending_probe_moves() {
    let mut probes = vec![
        probe("gh x", &["op"], ProbeState::Probing, 0),
        pending_probe("ls", &["op"]),
        pending_probe("gh x", &["op"]),
        pending_probe("gh x", &["op"]),
    ];
    assert!(mark_retry("op gh x", &mut probes));
    let states: Vec<ProbeState> = probes.iter().map(|p| p.state).collect();
    assert_eq!(
        states,
        vec![
            ProbeState::Probing,
            ProbeState::Pending,
            ProbeState::Probing,
            ProbeState::Pending
        ]
    );
}

#[test]
fn probes_are_found_by_state_and_command() {
    let probes = vec![
        pending_probe("gh x", &["op"]),
        probe("gh x", &["op"], ProbeState::Probing, 0),
    ];
    assert_eq!(find_probe(&probes, ProbeState::Pending, "op gh x"), Some(0));
    assert_eq!(find_probe(&probes, ProbeState::Probing, " op gh x"), Some(1));
    assert_eq!(find_probe(&probes, ProbeState::Probing, "gh x"), None);
    assert_eq!(probes[0].expected_command(), "op gh x");
    assert_eq!(prefixed_command(&words(&["a", "b"]), "c"), "a b c");
    assert_eq!(prefixed_command(&[], "c"), " c");
}

#[test]
fn prefix_without_words_expects_the_command_itself() {
    let probes = vec![pending_probe("gh x", &[])];
    assert_eq!(find_probe(&probes, ProbeState::Pending, "gh x"), Some(0));
}

#[test]
fn full_counters_leave_the_stats_as_they_are() {
    let mut stats = PrefixStats::default();
    stats.global.probes_initiated = u64::MAX;
    let prefix_store = FakePrefixStore::new(config_with_one_candidate());
    let probe_store = FakeProbeStore::empty();
    let stats_store = FakeStatsStore::holding(stats);
    let out = fail("gh x", &prefix_store, &probe_store, &stats_store);
    assert!(out.system_message.is_some());
    assert_eq!(probe_store.load().len(), 1);
    assert_eq!(*stats_store.saves.borrow(), 0);

    let mut stats = PrefixStats::default();
    stats.by_prefix.insert(
        "op".to_string(),
        PrefixCounters {
            tried: u64::MAX,
            confirmed: 0,
            failed: 0,
        },
    );
    let p = pending_probe("gh x", &["op"]);
    assert!(!count_result(
        &mut stats,
        &p,
        true,
        &config_with_one_candidate(),
        "now".to_string()
    ));
    assert!(!count_result(
        &mut stats,
        &p,
        false,
        &config_with_one_candidate(),
        "now".to_string()
    ));
    assert_eq!(stats.counters("op").confirmed, 0);
}

#[test]
fn results_are_counted() {
    let config = PrefixConfig {
        mappings: Default::default(),
        candidate_prefixes: vec![candidate(&["op"]), candidate(&["sudo"])],
    };
    let mut stats = PrefixStats::default();
    let first = probe("gh x", &["op"], ProbeState::Probing, 0);
    let last = probe("gh x", &["sudo"], ProbeState::Probing, 1);
    assert!(count_result(&mut stats, &first, false, &config, "t".to_string()));
    assert_eq!(stats.global.probes_exhausted, 0);
    assert!(count_result(&mut stats, &last, false, &config, "t".to_string()));
    assert_eq!(stats.global.probes_exhausted, 1);
    assert!(count_result(&mut stats, &last, true, &config, "t".to_string()));
    assert_eq!(stats.global.probes_confirmed, 1);
    assert_eq!(
        stats.counters("op"),
        PrefixCounters {
            tried: 1,
            confirmed: 0,
            failed: 1
        }
    );
    assert_eq!(
        stats.counters("sudo"),
        PrefixCounters {
            tried: 2,
            confirmed: 1,
            failed: 1
        }
    );
    assert_eq!(
        stats.command("gh"),
        CommandStats {
            probes_initiated: 0,
            confirmed_prefix: Some("sudo".to_string()),
            confirmed_at: Some("t".to_string())
        }
    );
    assert_eq!(stats.command("ls"), CommandStats::default());
    assert_eq!(stats.counters("nothing"), PrefixCounters::default());
}

#[test]
fn tried_is_confirmed_plus_failed() {
    let mut stats = PrefixStats::default();
    stats.record_initiated("gh");
    stats.record_failed("op", false);
    stats.record_failed("op", true);
    stats.record_confirmed("gh", "op", "t".to_string());
    let c = stats.counters("op");
    assert_eq!(c.tried, c.confirmed + c.failed);
    assert_eq!(c.tried, 3);
    assert!(stats.can_record_initiated("gh"));
    assert!(stats.can_record_confirmed("op"));
    assert!(stats.can_record_failed("op", true));
}

#[test]
fn probe_store_remove_matching() {
    let store = FakeProbeStore::empty();
    store
        .write(&[
            pending_probe("gh issue list", &["op"]),
            pending_probe("cargo build", &["op"]),
        ])
        .unwrap();
    store
        .remove_matching(&OriginalCommand::from("gh issue list"))
        .unwrap();
    let remaining = store.load();
    assert_eq!(remaining.len(), 1);
    assert_eq!(remaining[0].key, "cargo");
}

#[test]
fn removing_probes_keeps_the_others_in_order() {
    let mut probes = vec![
        pending_probe("a", &["x"]),
        pending_probe("b", &["x"]),
        pending_probe("a", &["y"]),
        pending_probe("c", &["x"]),
    ];
    assert!(remove_probes_of(&mut probes, &OriginalCommand::from("a")));
    let left: Vec<&str> = probes.iter().map(|p| p.original_command.as_str()).collect();
    assert_eq!(left, vec!["b", "c"]);
    assert!(!remove_probes_of(&mut probes, &OriginalCommand::from("a")));
    assert_eq!(probes.len(), 2);
}
