use std::path::PathBuf;

use prefixe::records::records_of_probes;
use prefixe::{
    load_store, resolve_config_path, CandidateDraft, CandidatePrefix, CandidateRecord,
    CommandStats, ConfigDraft, ConfigError, ConfigRecord, EnvPathResolver, Error,
    ExplicitPathResolver, FilePrefixStore, FileProbeStore, FileStatsStore, HookPayload, Location,
    OriginalCommand, PathEnv, PathResolver, PostHookOutput, PrefixConfig, PrefixCounters,
    PrefixStats, ProbeEntry, ProbeState, SuccessPredicate, Table, ToolInput, ToolResponse,
};

fn path_of(location: &Location) -> PathBuf {
    let mut path = location.base.clone().unwrap_or_default();
    for part in &location.parts {
        path = path.join(part);
    }
    path
}

fn no_env() -> PathEnv {
    PathEnv {
        prefixes: None,
        stats: None,
        ctx_dir: None,
        config_home: None,
        home: None,
    }
}

fn home_env() -> PathEnv {
    PathEnv {
        home: Some(PathBuf::from("/home/me")),
        ..no_env()
    }
}

#[test]
fn candidate_prefix_has_success_predicate() {
    let c = CandidatePrefix {
        prefix: vec![
            "op".to_string(),
            "plugin".to_string(),
            "run".to_string(),
            "--".to_string(),
        ],
        success_when: SuccessPredicate::exit_zero(),
    };
    assert_eq!(c.success_when.exit_code, Some(0));
    assert!(!c.success_when.stderr_absent);
}

#[test]
fn prefix_config_uses_candidate_prefix_vec() {
    let config = PrefixConfig {
        mappings: Table::new(),
        candidate_prefixes: vec![CandidatePrefix {
            prefix: vec!["op".to_string()],
            success_when: SuccessPredicate::default(),
        }],
    };
    assert_eq!(config.candidate_prefixes.len(), 1);
}

#[test]
fn probe_entry_has_state_and_candidate_index() {
    let entry = ProbeEntry {
        key: "gh".to_string(),
        prefix: vec!["op".to_string()],
        success_when: SuccessPredicate::exit_zero(),
        original_command: OriginalCommand::from("gh issue list"),
        state: ProbeState::Pending,
        candidate_index: 0,
    };
    assert_eq!(entry.state, ProbeState::Pending);
    assert_eq!(entry.candidate_index, 0);
}

#[test]
fn probe_state_probing_is_distinct_from_pending() {
    assert_ne!(ProbeState::Pending, ProbeState::Probing);
}

#[test]
fn domain_prefix_config_has_no_serde_dependency() {
    let _c: PrefixConfig = Default::default();
    assert!(_c.mappings.is_empty());
}

#[test]
fn original_command_from_str() {
    let cmd = OriginalCommand::from("gh issue list");
    assert_eq!(cmd.as_str(), "gh issue list");
    assert_eq!(cmd.to_string(), "gh issue list");
}

#[test]
fn original_command_from_string() {
    let cmd = OriginalCommand::from("gh".to_string());
    assert_eq!(cmd.as_str(), "gh");
    assert_eq!(cmd, OriginalCommand::from("gh"));
}

#[test]
fn explicit_path_resolver_returns_given_paths() {
    let r = ExplicitPathResolver {
        prefix_config: PathBuf::from("/tmp/prefixes.toml"),
        probe_store: PathBuf::from("/tmp/candidates.toml"),
    };
    assert_eq!(r.prefix_config_path(), PathBuf::from("/tmp/prefixes.toml"));
    assert_eq!(r.probe_store_path(), PathBuf::from("/tmp/candidates.toml"));
}

#[test]
fn file_stores_from_resolver() {
    let r = ExplicitPathResolver {
        prefix_config: PathBuf::from("/tmp/p.toml"),
        probe_store: PathBuf::from("/tmp/c.toml"),
    };
    let ps = FilePrefixStore::from_resolver(&r);
    let qs = FileProbeStore::from_resolver(&r);
    assert_eq!(ps.path, PathBuf::from("/tmp/p.toml"));
    assert_eq!(qs.path, PathBuf::from("/tmp/c.toml"));
}

#[test]
fn file_stats_store_missing_file_returns_default() {
    let store = FileStatsStore::new(PathBuf::from("/tmp/nonexistent-stats-prefixe-abc.toml"));
    assert!(!store.path.exists());
    let stats = FileStatsStore::report(None);
    assert_eq!(stats.global.probes_initiated, 0);
}

#[test]
fn file_stats_store_round_trips() {
    let mut stats = PrefixStats::default();
    stats.global.probes_initiated = 5;
    stats.global.probes_confirmed = 2;
    stats.by_prefix.insert(
        "op plugin run --".to_string(),
        PrefixCounters {
            tried: 3,
            confirmed: 2,
            failed: 1,
        },
    );
    stats.by_command.insert(
        "gh".to_string(),
        CommandStats {
            probes_initiated: 3,
            confirmed_prefix: Some("op plugin run --".to_string()),
            confirmed_at: Some("2026-05-16T10:00:00Z".to_string()),
        },
    );
    let loaded = FileStatsStore::report(Some(stats.to_record()));
    assert_eq!(loaded.global.probes_initiated, 5);
    assert_eq!(loaded.global.probes_confirmed, 2);
    assert_eq!(loaded.by_prefix.get("op plugin run --").unwrap().tried, 3);
    assert_eq!(
        loaded
            .by_command
            .get("gh")
            .unwrap()
            .confirmed_prefix
            .as_deref(),
        Some("op plugin run --")
    );
}

#[test]
fn probe_store_round_trips() {
    let entries = vec![ProbeEntry {
        key: "gh".to_string(),
        prefix: vec![
            "op".to_string(),
            "plugin".to_string(),
            "run".to_string(),
            "--".to_string(),
        ],
        success_when: SuccessPredicate::exit_zero(),
        original_command: OriginalCommand::from("gh issue list"),
        state: ProbeState::Pending,
        candidate_index: 0,
    }];
    let loaded = FileProbeStore::report(Some(records_of_probes(&entries)));
    assert_eq!(loaded.len(), 1);
    assert_eq!(loaded[0].key, "gh");
    assert_eq!(loaded[0].state, ProbeState::Pending);
    assert_eq!(loaded, entries);
}

#[test]
fn probe_entry_toml_round_trips_state_and_index() {
    let entries = vec![ProbeEntry {
        key: "gh".to_string(),
        prefix: vec!["op".to_string()],
        success_when: SuccessPredicate::exit_zero(),
        original_command: OriginalCommand::from("gh issue list"),
        state: ProbeState::Pending,
        candidate_index: 2,
    }];
    let loaded = FileProbeStore::report(Some(records_of_probes(&entries)));
    assert_eq!(loaded[0].state, ProbeState::Pending);
    assert_eq!(loaded[0].candidate_index, 2);
}

#[test]
fn prefix_config_dto_round_trips_candidate_prefix() {
    let config = FilePrefixStore::report(Some(ConfigRecord {
        mappings: vec![],
        candidate_prefixes: vec![CandidateRecord {
            prefix: vec![
                "op".to_string(),
                "plugin".to_string(),
                "run".to_string(),
                "--".to_string(),
            ],
            success_when: Some(SuccessPredicate {
                exit_code: Some(0),
                stdout_matches: None,
                stderr_matches: None,
                stderr_absent: true,
            }),
        }],
    }));
    assert_eq!(config.candidate_prefixes.len(), 1);
    assert_eq!(
        config.candidate_prefixes[0].prefix,
        vec!["op", "plugin", "run", "--"]
    );
    assert_eq!(config.candidate_prefixes[0].success_when.exit_code, Some(0));
    assert!(config.candidate_prefixes[0].success_when.stderr_absent);
}

#[test]
fn config_is_read_back_from_its_record() {
    let mut config = PrefixConfig::default();
    config.confirm_mapping("gh", &["op".to_string(), "--".to_string()]);
    config.confirm_mapping("cargo test", &["dotenvx".to_string()]);
    config
        .candidate_prefixes
        .push(CandidatePrefix::new(vec!["sudo".to_string()], None));
    let record = config.to_record();
    assert_eq!(
        record.mappings,
        vec![
            ("cargo test".to_string(), vec!["dotenvx".to_string()]),
            ("gh".to_string(), vec!["op".to_string(), "--".to_string()]),
        ]
    );
    assert_eq!(
        record.candidate_prefixes[0].success_when,
        Some(SuccessPredicate::exit_zero())
    );
    let back = FilePrefixStore::report(Some(record));
    assert_eq!(back.mappings.entries(), config.mappings.entries());
    assert_eq!(back.candidate_prefixes, config.candidate_prefixes);
}

#[test]
fn what_is_no_mapping_or_candidate_is_passed_over() {
    let prefix = |list: &[&str]| -> Vec<String> { list.iter().map(|s| s.to_string()).collect() };
    let draft = ConfigDraft {
        mappings: vec![
            ("candidate_prefixes".to_string(), None),
            ("cargo test".to_string(), Some(prefix(&["dotenvx", "run", "--"]))),
            (
                "gh".to_string(),
                Some(prefix(&["op", "plugin", "run", "--"])),
            ),
            ("learn_on_successful_fallback".to_string(), None),
        ],
        candidate_prefixes: vec![
            CandidateDraft {
                prefix: None,
                success_when: None,
            },
            CandidateDraft {
                prefix: Some(prefix(&["sudo"])),
                success_when: None,
            },
        ],
    };
    let config = FilePrefixStore::report(Some(ConfigRecord::from_draft(draft)));
    assert_eq!(
        config.mappings.entries(),
        &vec![
            ("cargo test".to_string(), prefix(&["dotenvx", "run", "--"])),
            ("gh".to_string(), prefix(&["op", "plugin", "run", "--"])),
        ]
    );
    assert_eq!(
        config.candidate_prefixes,
        vec![CandidatePrefix::new(prefix(&["sudo"]), None)]
    );
}

#[test]
fn prefix_store_writes_what_it_reports_next() {
    let gh = ["op".to_string()];
    let first = FilePrefixStore::confirmed(None, "gh", &gh);
    let second = FilePrefixStore::confirmed(Some(first), "ls", &gh);
    let config = FilePrefixStore::report(Some(second.clone()));
    assert!(config.mappings.contains_key("gh") && config.mappings.contains_key("ls"));
    let third = FilePrefixStore::removed(Some(second), "gh").unwrap();
    let config = FilePrefixStore::report(Some(third.clone()));
    assert!(!config.mappings.contains_key("gh") && config.mappings.contains_key("ls"));
    assert!(FilePrefixStore::removed(Some(third), "gh").is_none());
    assert!(FilePrefixStore::removed(None, "gh").is_none());
}

#[test]
fn probe_store_writes_what_it_reports_next() {
    let probe = |cmd: &str, state: ProbeState| ProbeEntry {
        key: cmd.to_string(),
        prefix: vec!["op".to_string()],
        success_when: SuccessPredicate::exit_zero(),
        original_command: OriginalCommand::from(cmd),
        state,
        candidate_index: 0,
    };
    let held = [
        probe("a", ProbeState::Pending),
        probe("b", ProbeState::Probing),
        probe("a", ProbeState::Probing),
        probe("c", ProbeState::Pending),
    ];
    let a = OriginalCommand::from("a");
    let left = FileProbeStore::removed(Some(records_of_probes(&held)), &a).unwrap();
    assert_eq!(
        FileProbeStore::report(Some(left.clone())),
        vec![held[1].clone(), held[3].clone()]
    );
    assert!(FileProbeStore::removed(Some(left), &a).is_none());
    assert!(FileProbeStore::removed(None, &a).is_none());
}

#[test]
fn env_resolver_goes_by_the_environment() {
    let of = |env: PathEnv| EnvPathResolver { env };
    assert_eq!(
        path_of(&of(home_env()).prefix_config_path()),
        PathBuf::from("/home/me/.config/rx/prefixes.toml")
    );
    assert_eq!(
        path_of(&of(no_env()).prefix_config_path()),
        PathBuf::from(".config/rx/prefixes.toml")
    );
    let env = PathEnv {
        config_home: Some(PathBuf::from("/xdg")),
        ..home_env()
    };
    assert_eq!(
        path_of(&of(env.clone()).prefix_config_path()),
        path_of(&FilePrefixStore::default_path(&env))
    );
    assert_eq!(
        path_of(&of(env).prefix_config_path()),
        PathBuf::from("/xdg/rx/prefixes.toml")
    );
    assert_eq!(
        path_of(&of(no_env()).probe_store_path()),
        PathBuf::from(".ctx/candidates.toml")
    );
}

#[test]
fn of_rows_with_the_same_key_the_last_counts() {
    let table = Table::from_entries(vec![
        ("b".to_string(), 1u64),
        ("a".to_string(), 2),
        ("b".to_string(), 3),
    ]);
    assert_eq!(
        table.entries(),
        &vec![("a".to_string(), 2), ("b".to_string(), 3)]
    );
}

#[test]
fn states_are_stored_by_name() {
    let entry = ProbeEntry {
        key: "gh".to_string(),
        prefix: vec![],
        success_when: SuccessPredicate::default(),
        original_command: OriginalCommand::from("gh x"),
        state: ProbeState::Probing,
        candidate_index: 2,
    };
    let mut record = entry.to_record();
    assert_eq!(record.state, "Probing");
    assert_eq!(record.original_command, "gh x");
    assert_eq!(ProbeEntry::from_record(record.clone()), entry);
    record.state = "Unknown".to_string();
    assert_eq!(ProbeEntry::from_record(record).state, ProbeState::Pending);
}

#[test]
fn stores_without_a_file_report_nothing() {
    assert!(FilePrefixStore::report(None).mappings.is_empty());
    assert!(FilePrefixStore::report(None).candidate_prefixes.is_empty());
    assert!(FileProbeStore::report(None).is_empty());
    assert!(FileStatsStore::report(None).by_prefix.is_empty());
    assert!(FileStatsStore::report(None).by_command.is_empty());
}

#[test]
fn prefix_store_confirm_and_remove() {
    let mut config = PrefixConfig::default();
    config.confirm_mapping(
        "gh",
        &["op".to_string(), "run".to_string(), "--".to_string()],
    );
    assert!(config.mappings.contains_key("gh"));

    let removed = config.remove_mapping("gh");
    assert!(removed);
    assert!(!config.mappings.contains_key("gh"));

    let removed_again = config.remove_mapping("gh");
    assert!(!removed_again);
}

#[test]
fn confirming_leaves_other_mappings_alone() {
    let mut config = PrefixConfig::default();
    config.confirm_mapping("gh", &["a".to_string()]);
    config.confirm_mapping("cargo", &["b".to_string()]);
    config.confirm_mapping("gh", &["c".to_string()]);
    assert_eq!(config.mappings.get("gh"), Some(&vec!["c".to_string()]));
    assert_eq!(config.mappings.get("cargo"), Some(&vec!["b".to_string()]));
    config.remove_mapping("gh");
    assert_eq!(config.mappings.get("gh"), None);
    assert_eq!(config.mappings.get("cargo"), Some(&vec!["b".to_string()]));
}

#[test]
fn success_predicate_asks_for_exit_zero_by_default() {
    assert_eq!(SuccessPredicate::default(), SuccessPredicate::exit_zero());
    assert_eq!(SuccessPredicate::default().exit_code, Some(0));
    assert_eq!(SuccessPredicate::default().stdout_matches, None);
    assert_eq!(SuccessPredicate::default().stderr_matches, None);
    assert!(!SuccessPredicate::default().stderr_absent);
}

#[test]
fn candidate_without_predicate_asks_for_exit_zero() {
    let c = CandidatePrefix::new(vec!["op".to_string()], None);
    assert_eq!(c.success_when, SuccessPredicate::exit_zero());
    let any = SuccessPredicate {
        exit_code: None,
        ..Default::default()
    };
    let c = CandidatePrefix::new(vec!["op".to_string()], Some(any.clone()));
    assert_eq!(c.success_when, any);
    assert_eq!(c.prefix, vec!["op".to_string()]);
}

#[test]
fn probe_states_are_read_back_from_their_names() {
    assert_eq!(ProbeState::Pending.name(), "Pending");
    assert_eq!(ProbeState::Probing.name(), "Probing");
    assert_eq!(ProbeState::from_name("Probing"), ProbeState::Probing);
    assert_eq!(ProbeState::from_name("Pending"), ProbeState::Pending);
    assert_eq!(ProbeState::from_name("probing"), ProbeState::Pending);
    assert_eq!(ProbeState::from_name(""), ProbeState::Pending);
}

#[test]
fn resolve_uses_xdg_when_set() {
    let p = resolve_config_path(Some(PathBuf::from("/tmp/my.toml")), &home_env());
    assert_eq!(path_of(&p), PathBuf::from("/tmp/my.toml"));
}

#[test]
fn resolve_default_contains_prefixe_config() {
    let p = resolve_config_path(None, &no_env());
    assert!(path_of(&p).ends_with("prefixe/config.toml"));
}

#[test]
fn resolve_prefers_override_then_xdg_then_home() {
    let env = PathEnv {
        config_home: Some(PathBuf::from("/xdg")),
        ..home_env()
    };
    assert_eq!(
        path_of(&resolve_config_path(None, &env)),
        PathBuf::from("/xdg/prefixe/config.toml")
    );
    assert_eq!(
        path_of(&resolve_config_path(None, &home_env())),
        PathBuf::from("/home/me/.config/prefixe/config.toml")
    );
    assert_eq!(
        path_of(&resolve_config_path(None, &no_env())),
        PathBuf::from(".config/prefixe/config.toml")
    );
    assert_eq!(
        path_of(&resolve_config_path(Some(PathBuf::from("x")), &env)),
        PathBuf::from("x")
    );
}

#[test]
fn default_paths_of_the_stores() {
    let env = home_env();
    assert_eq!(
        path_of(&FilePrefixStore::default_path(&env)),
        PathBuf::from("/home/me/.config/rx/prefixes.toml")
    );
    assert_eq!(
        path_of(&FileStatsStore::default_path(&env)),
        PathBuf::from("/home/me/.config/rx/prefix-stats.toml")
    );
    assert_eq!(
        path_of(&FileProbeStore::default_path(&env)),
        PathBuf::from(".ctx/candidates.toml")
    );
    let env = PathEnv {
        prefixes: Some(PathBuf::from("/p.toml")),
        stats: Some(PathBuf::from("/s.toml")),
        ctx_dir: Some(PathBuf::from("/ctx")),
        config_home: Some(PathBuf::from("/xdg")),
        home: None,
    };
    assert_eq!(
        path_of(&FilePrefixStore::default_path(&env)),
        PathBuf::from("/p.toml")
    );
    assert_eq!(
        path_of(&FileStatsStore::default_path(&env)),
        PathBuf::from("/s.toml")
    );
    assert_eq!(
        path_of(&FileProbeStore::default_path(&env)),
        PathBuf::from("/ctx/candidates.toml")
    );
}

#[test]
fn load_store_absent_file_is_ok() {
    let p = PathBuf::from("/tmp/nonexistent-prefixe-cli-test-config.toml");
    let store = load_store(p.clone(), None).expect("absent file should not error");
    assert_eq!(store.path, p);
    let config = FilePrefixStore::report(None);
    assert!(config.mappings.is_empty());
}

#[test]
fn load_store_malformed_file_errors() {
    let err = load_store(
        PathBuf::from("/tmp/config.toml"),
        Some(Ok("not valid toml ][[\n".to_string())),
    );
    assert!(err.is_err(), "malformed TOML should return Err");
    let msg = err.err().unwrap().to_string();
    assert!(msg.contains("malformed"), "error should mention malformed");
    assert!(msg.len() > "config file is malformed: ".len());
}

#[test]
fn load_store_valid_toml_reads_mappings() {
    let content = "[mappings]\ngh = [\"op\", \"run\", \"--\"]\n";
    let store = load_store(
        PathBuf::from("/tmp/config.toml"),
        Some(Ok(content.to_string())),
    )
    .expect("valid TOML should load");
    assert_eq!(store.path, PathBuf::from("/tmp/config.toml"));
    let value: toml::Value = toml::from_str(content).unwrap();
    let mut mappings = vec![];
    for (key, prefix) in value["mappings"].as_table().unwrap() {
        let prefix: Vec<String> = prefix
            .as_array()
            .unwrap()
            .iter()
            .map(|word| word.as_str().unwrap().to_string())
            .collect();
        mappings.push((key.clone(), prefix));
    }
    let config = FilePrefixStore::report(Some(ConfigRecord {
        mappings,
        candidate_prefixes: vec![],
    }));
    assert!(config.mappings.contains_key("gh"));
}

#[test]
fn load_store_reports_why_reading_failed() {
    let err = load_store(
        PathBuf::from("/tmp/config.toml"),
        Some(Err("permission denied".to_string())),
    )
    .err()
    .unwrap();
    assert!(matches!(&err, ConfigError::Malformed(text) if text == "permission denied"));
    assert_eq!(
        err.to_string(),
        "config file is malformed: permission denied"
    );
}

#[test]
fn errors_keep_what_caused_them() {
    let io = std::io::Error::new(std::io::ErrorKind::NotFound, "gone");
    assert!(matches!(Error::from(io), Error::Io(_)));
    let de = toml::from_str::<toml::Value>("][").unwrap_err();
    assert!(matches!(Error::from(de), Error::Parse(_)));
    let ser = toml::to_string(&1u8).unwrap_err();
    assert!(matches!(Error::from(ser), Error::Serialize(_)));
}

#[test]
fn hook_outputs_allow() {
    let out = PostHookOutput::allow_with_message("hello".to_string());
    assert_eq!(out.decision.as_deref(), Some("allow"));
    assert_eq!(out.system_message.as_deref(), Some("hello"));
    let out = PostHookOutput::silent();
    assert_eq!(out.decision.as_deref(), Some("allow"));
    assert_eq!(out.system_message, None);
}

#[test]
fn hook_payload_holds_input_and_response() {
    let payload = HookPayload {
        tool_name: Some("Bash".to_string()),
        tool_input: Some(ToolInput {
            command: Some("gh".to_string()),
        }),
        tool_response: Some(ToolResponse {
            exit_code: Some(1),
            stdout: None,
            stderr: Some("e".to_string()),
        }),
        session_id: None,
        cwd: None,
    };
    assert_eq!(
        payload.tool_input.unwrap().command.as_deref(),
        Some("gh")
    );
    assert_eq!(payload.tool_response.unwrap().exit_code, Some(1));
}

#[test]
fn table_keeps_its_entries_in_order() {
    let mut table: Table<u64> = Table::new();
    assert!(table.is_empty());
    for (n, key) in ["b", "", "\u{e9}", "a", "ab", "B", "b"].iter().enumerate() {
        table.insert(key.to_string(), n as u64);
    }
    let entries: Vec<(&str, u64)> = table
        .entries()
        .iter()
        .map(|(key, n)| (key.as_str(), *n))
        .collect();
    assert_eq!(
        entries,
        vec![("", 1), ("B", 5), ("a", 3), ("ab", 4), ("b", 6), ("\u{e9}", 2)]
    );
    assert_eq!(table.get("a"), Some(&3));
    assert_eq!(table.get("c"), None);
    let copy = table.clone();
    assert!(table.remove("a"));
    assert!(!table.remove("a"));
    assert!(!table.contains_key("a"));
    assert!(copy.contains_key("a"));
    assert!(!table.is_empty());
}
