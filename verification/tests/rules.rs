use prefixe::rules::{
    condition_holds, judge_conditions, judge_rules, key_matches, rewrite_by_rules, rule_text,
    winning_rule,
};
use prefixe::{
    Error, OriginalCommand, Platform, PrefixConfig, PrefixEngine, PrefixRule, PrefixStore, ProbeEntry,
    ProbeStore, RuleCondition, Surroundings, Table,
};

struct EmptyPrefixStore;

impl PrefixStore for EmptyPrefixStore {
    fn load(&self) -> PrefixConfig {
        PrefixConfig::default()
    }

    fn confirm_mapping(&self, _key: &str, _prefix: &[String]) -> Result<(), Error> {
        Ok(())
    }

    fn remove_mapping(&self, _key: &str) -> Result<bool, Error> {
        Ok(false)
    }
}

struct EmptyProbeStore;

impl ProbeStore for EmptyProbeStore {
    fn load(&self) -> Vec<ProbeEntry> {
        vec![]
    }

    fn write(&self, _entries: &[ProbeEntry]) -> Result<(), Error> {
        Ok(())
    }

    fn remove_matching(&self, _cmd: &OriginalCommand) -> Result<(), Error> {
        Ok(())
    }
}

fn engine() -> PrefixEngine<EmptyPrefixStore, EmptyProbeStore> {
    PrefixEngine::new(EmptyPrefixStore, EmptyProbeStore)
}

fn words(list: &[&str]) -> Vec<String> {
    list.iter().map(|s| s.to_string()).collect()
}

fn around(env: &[(&str, &str)], cwd: Option<&str>, git_markers: &[bool]) -> Surroundings {
    let mut table = Table::new();
    for (name, value) in env {
        table.insert(name.to_string(), value.to_string());
    }
    Surroundings {
        env: table,
        cwd: cwd.map(|s| s.to_string()),
        git_markers: git_markers.to_vec(),
        platform: Platform::here(),
    }
}

fn nowhere() -> Surroundings {
    around(&[], None, &[])
}

fn rule(key: &str, prefix: &[&str], priority: u32) -> PrefixRule {
    PrefixRule {
        key: key.to_string(),
        prefix: words(prefix),
        conditions: vec![],
        priority,
    }
}

#[test]
fn rule_with_no_conditions_always_applies() {
    let rule = PrefixRule {
        key: "gh".to_string(),
        prefix: vec!["op".to_string(), "run".to_string(), "--".to_string()],
        conditions: vec![],
        priority: 0,
    };
    assert!(engine().evaluate_conditions(&rule.conditions, &nowhere()));
}

#[test]
fn env_var_set_condition_passes_when_var_present() {
    let rule = PrefixRule {
        key: "gh".to_string(),
        prefix: vec![],
        conditions: vec![RuleCondition::EnvVarSet("PREFIXE_TEST_VAR_20".to_string())],
        priority: 0,
    };
    let around = around(&[("PREFIXE_TEST_VAR_20", "1")], None, &[]);
    assert!(engine().evaluate_conditions(&rule.conditions, &around));
}

#[test]
fn env_var_set_condition_fails_when_var_absent() {
    let rule = PrefixRule {
        key: "gh".to_string(),
        prefix: vec![],
        conditions: vec![RuleCondition::EnvVarSet(
            "PREFIXE_TEST_VAR_ABSENT_20".to_string(),
        )],
        priority: 0,
    };
    let around = around(&[("PREFIXE_TEST_VAR_20", "1")], None, &[]);
    assert!(!engine().evaluate_conditions(&rule.conditions, &around));
}

#[test]
fn cwd_glob_condition_matches_current_dir() {
    let rule = PrefixRule {
        key: "gh".to_string(),
        prefix: vec![],
        conditions: vec![RuleCondition::CwdGlob("*".to_string())],
        priority: 0,
    };
    let around = around(&[], Some("/home/someone/project"), &[]);
    assert!(engine().evaluate_conditions(&rule.conditions, &around));
}

#[test]
fn git_root_condition_true_inside_repo() {
    let rule = PrefixRule {
        key: "gh".to_string(),
        prefix: vec![],
        conditions: vec![RuleCondition::GitRoot],
        priority: 0,
    };
    let around = around(&[], Some("/repo/crates/a"), &[false, false, true, false]);
    assert!(engine().evaluate_conditions(&rule.conditions, &around));
}

#[test]
fn engine_rewrite_with_rules_applies_matching_rule() {
    let rules = vec![PrefixRule {
        key: "gh".to_string(),
        prefix: vec!["op".to_string(), "run".to_string(), "--".to_string()],
        conditions: vec![],
        priority: 0,
    }];
    let r = engine().rewrite_with_rules("gh issue list", &rules, &nowhere());
    assert_eq!(r.rewritten, "op run -- gh issue list");
    assert!(r.probes.is_empty());
}

#[test]
fn engine_rewrite_with_rules_skips_unmatched_condition() {
    let rules = vec![PrefixRule {
        key: "gh".to_string(),
        prefix: vec!["op".to_string(), "run".to_string(), "--".to_string()],
        conditions: vec![RuleCondition::EnvVarSet(
            "PREFIXE_NEVER_SET_VAR".to_string(),
        )],
        priority: 0,
    }];
    let r = engine().rewrite_with_rules("gh issue list", &rules, &nowhere());
    assert_eq!(r.rewritten, "gh issue list");
}

#[test]
fn higher_priority_rule_wins() {
    let rules = vec![
        PrefixRule {
            key: "gh".to_string(),
            prefix: vec!["low".to_string()],
            conditions: vec![],
            priority: 0,
        },
        PrefixRule {
            key: "gh".to_string(),
            prefix: vec!["high".to_string()],
            conditions: vec![],
            priority: 10,
        },
    ];
    let r = engine().rewrite_with_rules("gh issue list", &rules, &nowhere());
    assert_eq!(r.rewritten, "high gh issue list");
}

#[test]
fn equal_priority_preserves_definition_order() {
    let rules = vec![
        PrefixRule {
            key: "gh".to_string(),
            prefix: vec!["first".to_string()],
            conditions: vec![],
            priority: 5,
        },
        PrefixRule {
            key: "gh".to_string(),
            prefix: vec!["second".to_string()],
            conditions: vec![],
            priority: 5,
        },
    ];
    let r = engine().rewrite_with_rules("gh issue list", &rules, &nowhere());
    assert_eq!(r.rewritten, "first gh issue list");
}

#[test]
fn first_match_wins_no_further_rules_evaluated() {
    let rules = vec![
        PrefixRule {
            key: "gh".to_string(),
            prefix: vec!["winner".to_string()],
            conditions: vec![],
            priority: 1,
        },
        PrefixRule {
            key: "gh".to_string(),
            prefix: vec!["loser".to_string()],
            conditions: vec![],
            priority: 0,
        },
    ];
    let r = engine().rewrite_with_rules("gh issue list", &rules, &nowhere());
    assert_eq!(r.rewritten, "winner gh issue list");
}

#[test]
fn env_var_that_is_empty_does_not_count_as_set() {
    let c = RuleCondition::EnvVarSet("V".to_string());
    assert!(!condition_holds(&c, &around(&[("V", "")], None, &[]), None));
    assert!(condition_holds(&c, &around(&[("V", "0")], None, &[]), None));
}

#[test]
fn cwd_glob_needs_a_match_and_a_directory() {
    let c = RuleCondition::CwdGlob("/work/*".to_string());
    let at_work = around(&[], Some("/work/a"), &[]);
    assert!(condition_holds(&c, &at_work, Some(true)));
    assert!(!condition_holds(&c, &at_work, Some(false)));
    assert!(!condition_holds(&c, &at_work, None));
    assert!(!condition_holds(&c, &nowhere(), Some(true)));
}

#[test]
fn cwd_glob_patterns_are_matched() {
    let e = engine();
    let at_work = around(&[], Some("/work/a"), &[]);
    let glob = |p: &str| vec![RuleCondition::CwdGlob(p.to_string())];
    assert!(e.evaluate_conditions(&glob("/work/*"), &at_work));
    assert!(e.evaluate_conditions(&glob("/work/[ab]"), &at_work));
    assert!(!e.evaluate_conditions(&glob("/home/*"), &at_work));
    assert!(!e.evaluate_conditions(&glob("/work/?b"), &at_work));
    assert!(!e.evaluate_conditions(&glob("/work/[a"), &at_work));
    assert!(!e.evaluate_conditions(&glob("*"), &nowhere()));
}

#[test]
fn cwd_glob_without_slashes_heeds_no_separator() {
    let e = engine();
    let odd = around(&[], Some("/work/a\\b"), &[]);
    let glob = |p: &str| vec![RuleCondition::CwdGlob(p.to_string())];
    assert!(e.evaluate_conditions(&glob("*"), &odd));
    assert!(e.evaluate_conditions(&glob("?work*b"), &odd));
    assert!(!e.evaluate_conditions(&glob("*c"), &odd));
}

#[test]
fn joined_conditions_hold_where_both_lists_do() {
    let e = engine();
    let a = around(&[("V", "1")], Some("/work/a"), &[true]);
    let lists = [
        vec![],
        vec![RuleCondition::EnvVarSet("V".to_string())],
        vec![RuleCondition::EnvVarSet("W".to_string())],
        vec![RuleCondition::CwdGlob("/work/**".to_string())],
        vec![RuleCondition::CwdGlob("/home/**".to_string()), RuleCondition::GitRoot],
        vec![RuleCondition::GitRoot],
    ];
    for x in &lists {
        for y in &lists {
            let mut both = x.clone();
            both.extend(y.clone());
            assert_eq!(
                e.evaluate_conditions(&both, &a),
                e.evaluate_conditions(x, &a) && e.evaluate_conditions(y, &a)
            );
        }
    }
}

#[test]
fn git_root_needs_a_marker_and_a_directory() {
    let c = RuleCondition::GitRoot;
    assert!(condition_holds(&c, &around(&[], Some("/r"), &[true, false]), None));
    assert!(!condition_holds(&c, &around(&[], Some("/r"), &[false, false]), None));
    assert!(!condition_holds(&c, &around(&[], Some("/r"), &[]), None));
    assert!(!condition_holds(&c, &around(&[], None, &[true]), None));
}

#[test]
fn conditions_are_taken_together() {
    let both = vec![
        RuleCondition::EnvVarSet("V".to_string()),
        RuleCondition::CwdGlob("*".to_string()),
    ];
    let a = around(&[("V", "1")], Some("/r"), &[]);
    assert!(judge_conditions(&both, &a, &[None, Some(true)]));
    assert!(!judge_conditions(&both, &a, &[None, Some(false)]));
    assert!(!judge_conditions(&both, &nowhere(), &[None, Some(true)]));
    assert!(judge_conditions(&[], &nowhere(), &[]));
}

#[test]
fn key_is_the_first_word_or_the_first_two() {
    let w = words(&["cargo", "test", "--all"]);
    assert!(key_matches("cargo", &w));
    assert!(key_matches("cargo test", &w));
    assert!(!key_matches("test", &w));
    assert!(!key_matches("cargo test --all", &w));
    assert!(!key_matches("cargo test", &words(&["cargo"])));
    assert!(!key_matches("", &[]));
}

#[test]
fn winner_is_the_highest_then_the_first_that_applies() {
    let rules = vec![
        rule("gh", &["a"], 1),
        rule("gh pr", &["b"], 7),
        rule("gh", &["c"], 7),
        rule("gh", &["d"], 9),
        rule("cargo", &["e"], 99),
    ];
    let w = words(&["gh", "pr"]);
    assert_eq!(winning_rule(&rules, &[true; 5], &w), Some(3));
    assert_eq!(
        winning_rule(&rules, &[true, true, true, false, true], &w),
        Some(1)
    );
    assert_eq!(
        winning_rule(&rules, &[true, false, true, false, true], &w),
        Some(2)
    );
    assert_eq!(
        winning_rule(&rules, &[true, false, false, false, true], &w),
        Some(0)
    );
    assert_eq!(
        winning_rule(&rules, &[false, false, false, false, true], &w),
        None
    );
    assert_eq!(winning_rule(&rules, &[true; 5], &words(&["x"])), None);
    assert_eq!(winning_rule(&[], &[], &w), None);
}

#[test]
fn priority_beats_the_longer_key() {
    let rules = vec![rule("gh pr", &["two"], 0), rule("gh", &["one"], 1)];
    let r = rewrite_by_rules("gh pr list", &rules, &[true, true]);
    assert_eq!(r.rewritten, "one gh pr list");
}

#[test]
fn rules_rewrite_each_segment_on_its_own() {
    let rules = vec![rule("gh", &["op", "--"], 0), rule("cargo test", &["env"], 0)];
    let r = rewrite_by_rules(
        " gh a && cargo build; cargo test | gh $(x) || gh 'y",
        &rules,
        &[true, true],
    );
    assert_eq!(
        r.rewritten,
        " op -- gh a && cargo build; env cargo test | gh $(x) || gh 'y"
    );
}

#[test]
fn rule_text_by_given_words() {
    let rules = vec![rule("gh", &["op"], 0)];
    assert_eq!(
        rule_text(" gh x ", &Some(words(&["gh", "x"])), &rules, &[true]),
        " op gh x "
    );
    assert_eq!(
        rule_text("gh x", &Some(words(&["gh", "x"])), &rules, &[false]),
        "gh x"
    );
    assert_eq!(rule_text("gh x", &None, &rules, &[true]), "gh x");
    assert_eq!(
        rule_text("  ", &Some(words(&["gh"])), &rules, &[true]),
        "  "
    );
}

#[test]
fn rules_are_judged_one_by_one() {
    let mut conditional = rule("gh", &["op"], 0);
    conditional.conditions = vec![RuleCondition::GitRoot];
    let rules = vec![rule("gh", &["x"], 0), conditional];
    assert_eq!(judge_rules(&rules, &nowhere()), vec![true, false]);
    assert_eq!(
        judge_rules(&rules, &around(&[], Some("/r"), &[true])),
        vec![true, true]
    );
}

#[test]
fn without_rules_nothing_changes() {
    for cmd in ["", "gh a && gh b", "`x` | 'y"] {
        assert_eq!(rewrite_by_rules(cmd, &[], &[]).rewritten, cmd);
    }
}
