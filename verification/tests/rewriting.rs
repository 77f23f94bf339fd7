use std::cell::RefCell;

use prefixe::rewrite::{lookup_words, prepend, rewrite_segments, rewrite_text};
use prefixe::{
    audit_state, lookup_prefix, rewrite_command, rewrite_via_store, split_segments, AuditState,
    CandidatePrefix, CommandRewriter, Error, OriginalCommand, PrefixConfig, PrefixEngine,
    PrefixMatch, PrefixStore, ProbeEntry, ProbeState, ProbeStore, RewriteResult,
    SuccessPredicate, Table,
};

struct FakePrefixStore {
    config: PrefixConfig,
    confirmed: RefCell<Option<(String, Vec<String>)>>,
    removed: RefCell<Option<String>>,
}

impl FakePrefixStore {
    fn new(config: PrefixConfig) -> Self {
        Self {
            config,
            confirmed: RefCell::new(None),
            removed: RefCell::new(None),
        }
    }
}

impl PrefixStore for FakePrefixStore {
    fn load(&self) -> PrefixConfig {
        self.config.clone()
    }

    fn confirm_mapping(&self, key: &str, prefix: &[String]) -> Result<(), Error> {
        *self.confirmed.borrow_mut() = Some((key.to_string(), prefix.to_vec()));
        Ok(())
    }

    fn remove_mapping(&self, key: &str) -> Result<bool, Error> {
        let existed = self.config.mappings.contains_key(key);
        *self.removed.borrow_mut() = Some(key.to_string());
        Ok(existed)
    }
}

struct FakeProbeStore {
    entries: RefCell<Vec<ProbeEntry>>,
}

impl FakeProbeStore {
    fn new(entries: Vec<ProbeEntry>) -> Self {
        Self {
            entries: RefCell::new(entries),
        }
    }

    fn empty() -> Self {
        Self::new(vec![])
    }
}

impl ProbeStore for FakeProbeStore {
    fn load(&self) -> Vec<ProbeEntry> {
        self.entries.borrow().clone()
    }

    fn write(&self, entries: &[ProbeEntry]) -> Result<(), Error> {
        *self.entries.borrow_mut() = entries.to_vec();
        Ok(())
    }

    fn remove_matching(&self, cmd: &OriginalCommand) -> Result<(), Error> {
        self.entries
            .borrow_mut()
            .retain(|e| e.original_command != *cmd);
        Ok(())
    }
}

struct FakeRewriter {
    result: RewriteResult,
}

impl CommandRewriter for FakeRewriter {
    fn rewrite(&self, _cmd: &str) -> RewriteResult {
        self.result.clone()
    }
}

fn words(list: &[&str]) -> Vec<String> {
    list.iter().map(|s| s.to_string()).collect()
}

fn mappings(list: &[(&str, &[&str])]) -> Table<Vec<String>> {
    let mut table = Table::new();
    for (key, prefix) in list {
        table.insert(key.to_string(), words(prefix));
    }
    table
}

fn config(list: &[(&str, &[&str])], candidates: &[&[&str]]) -> PrefixConfig {
    PrefixConfig {
        mappings: mappings(list),
        candidate_prefixes: candidates
            .iter()
            .map(|c| CandidatePrefix {
                prefix: words(c),
                success_when: SuccessPredicate::exit_zero(),
            })
            .collect(),
    }
}

fn make_store(list: &[(&str, &[&str])], candidates: &[&[&str]]) -> FakePrefixStore {
    FakePrefixStore::new(config(list, candidates))
}

fn make_probe(key: &str, cmd: &str) -> ProbeEntry {
    ProbeEntry {
        key: key.to_string(),
        prefix: vec!["op".to_string()],
        success_when: SuccessPredicate::exit_zero(),
        original_command: OriginalCommand::from(cmd),
        state: ProbeState::Pending,
        candidate_index: 0,
    }
}

fn confirmed(key: &str, prefix: &[&str]) -> Option<PrefixMatch> {
    Some(PrefixMatch::Confirmed {
        key: key.to_string(),
        prefix: words(prefix),
    })
}

#[test]
fn lookup_single_word_key_matches() {
    let store = make_store(&[("gh", &["op", "plugin", "run", "--"])], &[]);
    let result = lookup_prefix("gh issue list", &store.load());
    assert_eq!(
        result,
        Some(PrefixMatch::Confirmed {
            key: "gh".to_string(),
            prefix: vec![
                "op".to_string(),
                "plugin".to_string(),
                "run".to_string(),
                "--".to_string()
            ],
        })
    );
}

#[test]
fn lookup_two_word_key_wins_over_single() {
    let store = make_store(
        &[
            ("cargo", &["op", "plugin", "run", "--"]),
            ("cargo test", &["dotenvx", "run", "--"]),
        ],
        &[],
    );
    let result = lookup_prefix("cargo test --workspace", &store.load());
    assert_eq!(
        result,
        Some(PrefixMatch::Confirmed {
            key: "cargo test".to_string(),
            prefix: vec!["dotenvx".to_string(), "run".to_string(), "--".to_string()],
        })
    );
}

#[test]
fn lookup_no_match_returns_none() {
    let store = make_store(&[], &[]);
    assert_eq!(lookup_prefix("echo hello", &store.load()), None);
}

#[test]
fn lookup_prefix_returns_none_for_unknown_command_even_with_candidates() {
    let store = make_store(&[], &[&["op", "plugin", "run", "--"]]);
    assert_eq!(lookup_prefix("grep foo .", &store.load()), None);
    assert_eq!(lookup_prefix("gh issue list", &store.load()), None);
}

#[test]
fn lookup_skips_subshell() {
    let store = make_store(&[("gh", &["op", "plugin", "run", "--"])], &[]);
    assert_eq!(lookup_prefix("$(gh issue list)", &store.load()), None);
    assert_eq!(lookup_prefix("`gh issue list`", &store.load()), None);
}

#[test]
fn rewrite_simple_confirmed() {
    let store = make_store(&[("gh", &["op", "plugin", "run", "--"])], &[]);
    let r = rewrite_command("gh issue list", &store.load());
    assert_eq!(r.rewritten, "op plugin run -- gh issue list");
    assert!(r.probes.is_empty());
}

#[test]
fn rewrite_compound_each_segment() {
    let store = make_store(&[("gh", &["op", "plugin", "run", "--"])], &[]);
    let r = rewrite_command("gh issue list && gh pr list", &store.load());
    assert_eq!(
        r.rewritten,
        "op plugin run -- gh issue list && op plugin run -- gh pr list"
    );
}

#[test]
fn rewrite_unknown_command_unchanged_when_no_confirmed_mapping() {
    let store = make_store(&[], &[&["op", "plugin", "run", "--"]]);
    let r = rewrite_command("gh issue list", &store.load());
    assert_eq!(r.rewritten, "gh issue list");
    assert!(r.probes.is_empty());
}

#[test]
fn rewrite_no_match_unchanged() {
    let store = make_store(&[], &[]);
    let r = rewrite_command("echo hello", &store.load());
    assert_eq!(r.rewritten, "echo hello");
    assert!(r.probes.is_empty());
}

#[test]
fn fake_prefix_store_confirm_and_remove() {
    let store = FakePrefixStore::new(PrefixConfig {
        mappings: mappings(&[("gh", &["op"])]),
        ..Default::default()
    });
    store
        .confirm_mapping("cargo", &["dotenvx".to_string()])
        .unwrap();
    assert_eq!(store.confirmed.borrow().as_ref().unwrap().0, "cargo");
    let existed = store.remove_mapping("gh").unwrap();
    assert!(existed);
    let missing = store.remove_mapping("missing").unwrap();
    assert!(!missing);
}

#[test]
fn fake_probe_store_round_trip() {
    let store = FakeProbeStore::empty();
    let entries = vec![make_probe("gh", "gh issue list")];
    store.write(&entries).unwrap();
    assert_eq!(store.load().len(), 1);
    store
        .remove_matching(&OriginalCommand::from("gh issue list"))
        .unwrap();
    assert!(store.load().is_empty());
}

#[test]
fn rewrite_via_store_port_confirmed() {
    let store = FakePrefixStore::new(PrefixConfig {
        mappings: mappings(&[("gh", &["op"])]),
        ..Default::default()
    });
    let r = rewrite_via_store("gh issue list", &store);
    assert_eq!(r.rewritten, "op gh issue list");
}

#[test]
fn prefix_engine_rewrite_confirmed() {
    let store = FakePrefixStore::new(PrefixConfig {
        mappings: mappings(&[("gh", &["op", "run", "--"])]),
        ..Default::default()
    });
    let engine = PrefixEngine::new(store, FakeProbeStore::empty());
    let r = engine.rewrite("gh issue list");
    assert_eq!(r.rewritten, "op run -- gh issue list");
}

#[test]
fn prefix_engine_audit_returns_sorted_mappings() {
    let store = FakePrefixStore::new(PrefixConfig {
        mappings: mappings(&[("gh", &["op"]), ("cargo", &["dotenvx"])]),
        ..Default::default()
    });
    let engine = PrefixEngine::new(store, FakeProbeStore::empty());
    let audit = engine.audit();
    assert_eq!(audit.mappings[0].0, "cargo");
    assert_eq!(audit.mappings[1].0, "gh");
}

#[test]
fn prefix_engine_implements_command_rewriter() {
    let store = FakePrefixStore::new(PrefixConfig::default());
    let engine = PrefixEngine::new(store, FakeProbeStore::empty());
    let r: &dyn CommandRewriter = &engine;
    assert_eq!(r.rewrite("echo hi").rewritten, "echo hi");
}

struct NoOpRewriter;

impl CommandRewriter for NoOpRewriter {
    fn rewrite(&self, cmd: &str) -> RewriteResult {
        RewriteResult {
            rewritten: cmd.to_string(),
            probes: vec![],
        }
    }
}

#[test]
fn command_rewriter_trait_is_mockable() {
    let r = NoOpRewriter;
    assert_eq!(r.rewrite("echo hi").rewritten, "echo hi");
}

#[test]
fn fake_rewriter_returns_preset_result() {
    let fake = FakeRewriter {
        result: RewriteResult {
            rewritten: "op run -- gh".to_string(),
            probes: vec![],
        },
    };
    assert_eq!(fake.rewrite("gh").rewritten, "op run -- gh");
}

#[test]
fn lookup_heeds_shell_quotes() {
    let c = config(&[("my tool", &["op"])], &[]);
    assert_eq!(lookup_prefix("'my tool' --x", &c), confirmed("my tool", &["op"]));
    assert_eq!(lookup_prefix("my tool --x", &c), confirmed("my tool", &["op"]));
    assert_eq!(lookup_prefix("'my tool", &c), None);
}

#[test]
fn lookup_of_blank_text_is_none() {
    let c = config(&[("", &["op"])], &[]);
    assert_eq!(lookup_prefix("", &c), None);
    assert_eq!(lookup_prefix("  \t ", &c), None);
}

#[test]
fn lookup_ignores_surrounding_white_space() {
    let c = config(&[("gh", &["op"])], &[]);
    assert_eq!(lookup_prefix(" \tgh issue\n", &c), confirmed("gh", &["op"]));
    assert_eq!(lookup_prefix("gh issue", &c), confirmed("gh", &["op"]));
}

#[test]
fn lookup_words_takes_the_words_as_given() {
    let c = config(&[("gh", &["op"]), ("gh pr", &["sudo"])], &[]);
    assert_eq!(
        lookup_words(&words(&["gh", "pr", "list"]), &c),
        confirmed("gh pr", &["sudo"])
    );
    assert_eq!(
        lookup_words(&words(&["gh", "issue"]), &c),
        confirmed("gh", &["op"])
    );
    assert_eq!(lookup_words(&words(&["gh"]), &c), confirmed("gh", &["op"]));
    assert_eq!(lookup_words(&words(&["pr"]), &c), None);
    assert_eq!(lookup_words(&[], &c), None);
}

#[test]
fn prepend_keeps_white_space_around() {
    assert_eq!(
        prepend("  gh pr \t", &words(&["op", "run", "--"])),
        "  op run -- gh pr \t"
    );
    assert_eq!(prepend("gh", &[]), " gh");
}

#[test]
fn rewrite_text_by_given_words() {
    let c = config(&[("gh", &["op"])], &[]);
    assert_eq!(
        rewrite_text(" gh pr ", &Some(words(&["gh", "pr"])), &c),
        " op gh pr "
    );
    assert_eq!(rewrite_text("gh pr", &None, &c), "gh pr");
    assert_eq!(rewrite_text("  ", &Some(words(&["gh"])), &c), "  ");
    assert_eq!(
        rewrite_text("gh $(pr)", &Some(words(&["gh"])), &c),
        "gh $(pr)"
    );
}

#[test]
fn rewrite_segments_by_given_words() {
    let c = config(&[("gh", &["op"])], &[]);
    let segs = split_segments("gh a; gh b");
    let r = rewrite_segments(
        &segs,
        &[Some(words(&["gh", "a"])), Some(words(&["other"]))],
        &c,
    );
    assert_eq!(r.rewritten, "op gh a; gh b");
    assert!(r.probes.is_empty());
}

#[test]
fn rewrite_leaves_substitutions_and_blank_segments_alone() {
    let c = config(&[("gh", &["op"])], &[]);
    let cmd = "gh `x` ; ; gh $(y) | gh z";
    assert_eq!(
        rewrite_command(cmd, &c).rewritten,
        "gh `x` ; ; gh $(y) | op gh z"
    );
}

#[test]
fn rewrite_leaves_unclosed_quotes_alone() {
    let c = config(&[("gh", &["op"])], &[]);
    assert_eq!(
        rewrite_command("gh 'a && gh b", &c).rewritten,
        "gh 'a && op gh b"
    );
}

#[test]
fn rewrite_of_compound_is_rewrite_of_its_parts() {
    let c = config(&[("gh", &["op"]), ("cargo test", &["dotenvx", "run"])], &[]);
    let left = "gh issue list ";
    let right = " cargo test --all | tail";
    let whole = format!("{left}&&{right}");
    assert_eq!(
        rewrite_command(&whole, &c).rewritten,
        format!(
            "{}&&{}",
            rewrite_command(left, &c).rewritten,
            rewrite_command(right, &c).rewritten
        )
    );
    assert_eq!(
        rewrite_command(&whole, &c).rewritten,
        "op gh issue list && dotenvx run cargo test --all | tail"
    );
}

#[test]
fn rewrite_around_a_semicolon_is_the_rewrite_of_both_sides() {
    let c = config(&[("gh", &["op"])], &[]);
    let parts = ["gh a", "gh a | gh b ", " x && gh", "", "gh &", "gh |", "'gh"];
    for left in parts {
        for right in parts {
            assert_eq!(
                rewrite_command(&format!("{left};{right}"), &c).rewritten,
                format!(
                    "{};{}",
                    rewrite_command(left, &c).rewritten,
                    rewrite_command(right, &c).rewritten
                )
            );
        }
    }
}

#[test]
fn rewrite_without_mappings_changes_nothing() {
    let c = config(&[], &[&["op"]]);
    for cmd in ["", " ", "a | b", "x && (y; z) || 'w", "\u{1f980} ; `q`"] {
        assert_eq!(rewrite_command(cmd, &c).rewritten, cmd);
    }
}

#[test]
fn rewrite_handles_text_beyond_ascii() {
    let c = config(&[("\u{e9}cho", &["op"])], &[]);
    assert_eq!(
        rewrite_command("\u{3000}\u{e9}cho \u{1f980}\u{a0}; x", &c).rewritten,
        "\u{3000}op \u{e9}cho \u{1f980}\u{a0}; x"
    );
}

#[test]
fn engine_confirms_and_forgets_through_its_store() {
    let engine = PrefixEngine::new(make_store(&[("gh", &["op"])], &[]), FakeProbeStore::empty());
    engine.confirm("cargo", &words(&["dotenvx"])).unwrap();
    assert!(engine.forget("gh").unwrap());
    assert!(!engine.forget("nothing").unwrap());
}

#[test]
fn audit_lists_mappings_in_order_and_probes_as_held() {
    let store = make_store(
        &[
            ("gh", &["op"]),
            ("b", &["x"]),
            ("a b", &["y"]),
            ("a", &["z", "--"]),
            ("B", &["w"]),
        ],
        &[],
    );
    let probes = vec![make_probe("z", "z z"), make_probe("a", "a a")];
    let state = audit_state(&store, &FakeProbeStore::new(probes.clone()));
    assert_eq!(
        state.mappings,
        vec![
            ("B".to_string(), words(&["w"])),
            ("a".to_string(), words(&["z", "--"])),
            ("a b".to_string(), words(&["y"])),
            ("b".to_string(), words(&["x"])),
            ("gh".to_string(), words(&["op"])),
        ]
    );
    assert_eq!(state.probes, probes);
    let engine = PrefixEngine::new(make_store(&[], &[]), FakeProbeStore::new(probes.clone()));
    assert_eq!(engine.audit().probes, probes);
    assert!(engine.audit().mappings.is_empty());
}

#[test]
fn audit_state_is_empty_by_default() {
    let state = AuditState::default();
    assert!(state.mappings.is_empty());
    assert!(state.probes.is_empty());
}
