use prefixe::cli::{parse_args, usage, RewriteArgs, UsageError};
use prefixe::clock::{is_leap, iso8601, month_day, now_iso8601, unix_to_ymd_hms};
use prefixe::text::{
    contains_substitution, is_before, is_white_space, join, lead_len, same_text, trim,
};

fn words(list: &[&str]) -> Vec<String> {
    list.iter().map(|s| s.to_string()).collect()
}

const SAMPLES: [&str; 12] = [
    "",
    " ",
    "a",
    " a ",
    "\ta b\n",
    "\u{3000}x\u{2003}",
    "\u{200b}x\u{200b}",
    "x\u{85}",
    "\u{a0}\u{1680}\u{2028}\u{2029}\u{202f}\u{205f}",
    "\u{1f980} crab",
    "\u{feff}bom",
    "\r\n\u{b}\u{c}z\u{1c}",
];

#[test]
fn white_space_is_what_unicode_says() {
    for n in 0..=0x10ffffu32 {
        if let Some(c) = char::from_u32(n) {
            assert_eq!(is_white_space(c), c.is_whitespace(), "U+{n:04X}");
        }
    }
}

#[test]
fn trim_takes_white_space_off_both_ends() {
    for s in SAMPLES {
        assert_eq!(trim(s), s.trim());
        assert_eq!(
            lead_len(s),
            s.chars().count() - s.trim_start().chars().count()
        );
    }
}

#[test]
fn texts_are_compared_by_code_point() {
    for a in SAMPLES {
        for b in SAMPLES {
            assert_eq!(is_before(a, b), a < b);
            assert_eq!(same_text(a, b), a == b);
        }
    }
    assert!(is_before("a", "aa"));
    assert!(is_before("B", "a"));
    assert!(!is_before("a", "a"));
}

#[test]
fn join_puts_single_spaces_between() {
    assert_eq!(join(&[]), "");
    assert_eq!(join(&words(&["a"])), "a");
    assert_eq!(join(&words(&["op", "run", "--"])), "op run --");
    assert_eq!(join(&words(&["", "b c", ""])), " b c ");
}

#[test]
fn substitutions_are_found() {
    assert!(contains_substitution("a $(b)"));
    assert!(contains_substitution("`"));
    assert!(contains_substitution("$$("));
    assert!(!contains_substitution("$ ("));
    assert!(!contains_substitution("($)"));
    assert!(!contains_substitution("$"));
    assert!(!contains_substitution(""));
}

#[test]
fn leap_years() {
    assert!(is_leap(2024));
    assert!(is_leap(2000));
    assert!(!is_leap(1900));
    assert!(!is_leap(2026));
}

#[test]
fn days_of_the_year_have_dates() {
    assert_eq!(month_day(0, false), (1, 1));
    assert_eq!(month_day(30, false), (1, 31));
    assert_eq!(month_day(31, false), (2, 1));
    assert_eq!(month_day(58, false), (2, 28));
    assert_eq!(month_day(59, false), (3, 1));
    assert_eq!(month_day(59, true), (2, 29));
    assert_eq!(month_day(60, true), (3, 1));
    assert_eq!(month_day(364, false), (12, 31));
    assert_eq!(month_day(365, true), (12, 31));
    assert_eq!(month_day(365, false), (12, 31));
    assert_eq!(month_day(u64::MAX, true), (12, 31));
}

#[test]
fn moments_follow_the_calendar() {
    assert_eq!(unix_to_ymd_hms(0), (1970, 1, 1, 0, 0, 0));
    assert_eq!(unix_to_ymd_hms(86399), (1970, 1, 1, 23, 59, 59));
    assert_eq!(unix_to_ymd_hms(31536000), (1971, 1, 1, 0, 0, 0));
    assert_eq!(unix_to_ymd_hms(68173261), (1972, 2, 29, 1, 1, 1));
    assert_eq!(unix_to_ymd_hms(951782400), (2000, 2, 29, 0, 0, 0));
    assert_eq!(unix_to_ymd_hms(1709164800), (2024, 2, 29, 0, 0, 0));
    assert_eq!(unix_to_ymd_hms(1778927520), (2026, 5, 16, 10, 32, 0));
    assert_eq!(unix_to_ymd_hms(4107542400 - 1), (2100, 2, 28, 23, 59, 59));
    assert_eq!(unix_to_ymd_hms(4107542400), (2100, 3, 1, 0, 0, 0));
    assert_eq!(
        unix_to_ymd_hms(u64::MAX),
        (584554051223, 11, 9, 7, 0, 15)
    );
}

#[test]
fn moments_repeat_after_400_years() {
    let cycle = 146097 * 86400;
    for secs in [0, 1, 951782399, 951782400, 1709164800, 4107542400] {
        let (y, mo, d, h, mi, s) = unix_to_ymd_hms(secs);
        assert_eq!(
            unix_to_ymd_hms(secs + cycle),
            (y + 400, mo, d, h, mi, s)
        );
    }
}

#[test]
fn each_day_has_its_date() {
    let mut expected = (1970, 1, 1);
    for day in 0..200_000u64 {
        let (y, mo, d, _, _, _) = unix_to_ymd_hms(day * 86400 + 43200);
        assert_eq!((y, mo, d), expected);
        let leap = y % 4 == 0 && (y % 100 != 0 || y % 400 == 0);
        let len = match mo {
            2 if leap => 29,
            2 => 28,
            4 | 6 | 9 | 11 => 30,
            _ => 31,
        };
        expected = if d < len {
            (y, mo, d + 1)
        } else if mo < 12 {
            (y, mo + 1, 1)
        } else {
            (y + 1, 1, 1)
        };
    }
}

#[test]
fn timestamps_have_the_form_of_iso8601() {
    assert_eq!(iso8601(0), "1970-01-01T00:00:00Z");
    assert_eq!(iso8601(86400 * 364 + 45296), "1970-12-31T12:34:56Z");
    assert_eq!(iso8601(1778927520), "2026-05-16T10:32:00Z");
    assert_eq!(iso8601(253402300799), "9999-12-31T23:59:59Z");
    assert_eq!(iso8601(253402300800), "10000-01-01T00:00:00Z");
}

#[test]
fn the_present_moment_has_the_form_too() {
    let now = now_iso8601();
    assert_eq!(now.len(), 20);
    assert!(now.as_str() > "2025-01-01T00:00:00Z");
    assert!(now.ends_with('Z'));
}

fn parsed(args: &[&str]) -> Result<RewriteArgs, UsageError> {
    parse_args(&words(args))
}

#[test]
fn command_line_with_options() {
    assert_eq!(
        parsed(&["rewrite", "--dry-run", "--config", "/c.toml", "gh", "issue", "list"]),
        Ok(RewriteArgs {
            dry_run: true,
            config_path: Some("/c.toml".to_string()),
            command: "gh issue list".to_string(),
        })
    );
}

#[test]
fn command_line_without_options() {
    assert_eq!(
        parsed(&["rewrite", "gh a && gh b"]),
        Ok(RewriteArgs {
            dry_run: false,
            config_path: None,
            command: "gh a && gh b".to_string(),
        })
    );
}

#[test]
fn options_end_where_the_command_starts() {
    assert_eq!(
        parsed(&["rewrite", "gh", "--dry-run", "--config"]),
        Ok(RewriteArgs {
            dry_run: false,
            config_path: None,
            command: "gh --dry-run --config".to_string(),
        })
    );
}

#[test]
fn last_config_counts_and_takes_any_word() {
    assert_eq!(
        parsed(&["rewrite", "--config", "a", "--config", "--dry-run", "gh"]),
        Ok(RewriteArgs {
            dry_run: false,
            config_path: Some("--dry-run".to_string()),
            command: "gh".to_string(),
        })
    );
}

#[test]
fn command_line_errors_and_their_reports() {
    assert_eq!(
        usage(),
        "Usage: prefixe rewrite [--dry-run] [--config <path>] <command...>"
    );
    let error = parsed(&[]).unwrap_err();
    assert_eq!(error, UsageError::NoArguments);
    assert_eq!(error.report(), vec![usage()]);

    let error = parsed(&["run", "gh"]).unwrap_err();
    assert_eq!(error, UsageError::UnknownSubcommand("run".to_string()));
    assert_eq!(
        error.report(),
        vec!["prefixe: unknown subcommand 'run'".to_string(), usage()]
    );

    let error = parsed(&["rewrite", "--dry-run", "--config"]).unwrap_err();
    assert_eq!(error, UsageError::NoConfigPath);
    assert_eq!(
        error.report(),
        vec!["prefixe: --config requires a path argument".to_string()]
    );

    for args in [
        words(&["rewrite"]),
        words(&["rewrite", "--dry-run"]),
        words(&["rewrite", "--config", "c"]),
    ] {
        let error = parse_args(&args).unwrap_err();
        assert_eq!(error, UsageError::NoCommand);
        assert_eq!(
            error.report(),
            vec!["prefixe rewrite: no command given".to_string(), usage()]
        );
    }
}
