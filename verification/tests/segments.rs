use prefixe::{
    rejoin, split_segments, CommandRewriter, CommandSplitter, RewriteResult, Segment,
    TextualSplitter,
};

fn seg(text: &str, sep: Option<&str>) -> Segment {
    Segment {
        text: text.to_string(),
        sep: sep.map(|s| s.to_string()),
    }
}

const SAMPLES: [&str; 18] = [
    "",
    " ",
    "a",
    "a|b",
    "a||b",
    "a|||b",
    "a||||b",
    "a&b",
    "a&&b",
    "a&&&b",
    "a;;b",
    ";|&&||",
    "&|&|&",
    "  gh issue list  &&\tgh pr list ; ",
    "echo 'a && b' | cat",
    "h\u{e9}llo w\u{f6}rld && \u{1f980} | \u{4e16}\u{754c}",
    "line one\nline two; line three",
    "\u{3000}gh\u{2003}|\u{a0}tail",
];

#[test]
fn split_simple_pipeline() {
    let segs = split_segments("cargo build | tail -5");
    assert_eq!(
        segs,
        vec![
            Segment {
                text: "cargo build ".to_string(),
                sep: Some("|".to_string())
            },
            Segment {
                text: " tail -5".to_string(),
                sep: None
            },
        ]
    );
}

#[test]
fn split_and_and() {
    let segs = split_segments("git add -A && git commit -m 'msg'");
    assert_eq!(
        segs,
        vec![
            Segment {
                text: "git add -A ".to_string(),
                sep: Some("&&".to_string())
            },
            Segment {
                text: " git commit -m 'msg'".to_string(),
                sep: None
            },
        ]
    );
}

#[test]
fn split_or_or_beats_single_pipe_at_same_position() {
    let segs = split_segments("a || b");
    assert_eq!(
        segs,
        vec![
            Segment {
                text: "a ".to_string(),
                sep: Some("||".to_string())
            },
            Segment {
                text: " b".to_string(),
                sep: None
            },
        ]
    );
}

#[test]
fn rejoin_preserves_separators() {
    let segs = vec![
        Segment {
            text: "cargo build ".to_string(),
            sep: Some("|".to_string()),
        },
        Segment {
            text: " tail -5".to_string(),
            sep: None,
        },
    ];
    assert_eq!(rejoin(&segs), "cargo build | tail -5");
}

#[test]
fn textual_splitter_splits_and_rejoins() {
    let s = TextualSplitter;
    let segs = s.split("a | b");
    assert_eq!(segs.len(), 2);
    assert_eq!(segs[0].sep.as_deref(), Some("|"));
    assert_eq!(s.rejoin(&segs), "a | b");
}

#[test]
fn split_three_pipes_takes_two_then_one() {
    assert_eq!(
        split_segments("a|||b"),
        vec![seg("a", Some("||")), seg("", Some("|")), seg("b", None)]
    );
}

#[test]
fn split_single_ampersand_is_text() {
    assert_eq!(split_segments("a & b"), vec![seg("a & b", None)]);
    assert_eq!(
        split_segments("a &&& b"),
        vec![seg("a ", Some("&&")), seg("& b", None)]
    );
}

#[test]
fn split_empty_command_is_one_empty_segment() {
    assert_eq!(split_segments(""), vec![seg("", None)]);
    assert_eq!(split_segments(";"), vec![seg("", Some(";")), seg("", None)]);
}

#[test]
fn split_does_not_heed_quotes() {
    assert_eq!(
        split_segments("echo 'a;b'"),
        vec![seg("echo 'a", Some(";")), seg("b'", None)]
    );
}

#[test]
fn split_keeps_text_beyond_ascii() {
    assert_eq!(
        split_segments("h\u{e9} | \u{1f980}"),
        vec![seg("h\u{e9} ", Some("|")), seg(" \u{1f980}", None)]
    );
}

#[test]
fn rejoin_of_nothing_is_empty() {
    assert_eq!(rejoin(&[]), "");
}

#[test]
fn rejoin_takes_any_separator() {
    assert_eq!(rejoin(&[seg("a", Some("->")), seg("b", None)]), "a->b");
}

#[test]
fn textual_splitter_never_panics() {
    let s = TextualSplitter;
    for cmd in SAMPLES {
        assert!(!s.split(cmd).is_empty(), "split of {cmd:?} gave nothing");
    }
}

#[test]
fn split_rejoin_round_trip() {
    let s = TextualSplitter;
    for cmd in SAMPLES {
        assert_eq!(s.rejoin(&s.split(cmd)), cmd);
    }
}

#[test]
fn rejoin_split_round_trip_on_canonical_segments() {
    let segs = vec![
        seg("a ", Some("&&")),
        seg(" b", Some("||")),
        seg("", Some(";")),
        seg("c", Some("|")),
        seg(" d", None),
    ];
    assert_eq!(split_segments(&rejoin(&segs)), segs);
}

#[test]
fn split_of_a_compound_is_the_split_of_its_parts() {
    for left in SAMPLES {
        for right in SAMPLES {
            let mut expected = split_segments(left);
            expected.last_mut().unwrap().sep = Some(";".to_string());
            expected.extend(split_segments(right));
            assert_eq!(split_segments(&format!("{left};{right}")), expected);
        }
    }
}

#[test]
fn rejoin_of_two_lists_is_the_rejoin_of_each() {
    for left in SAMPLES {
        for right in SAMPLES {
            let mut both = split_segments(left);
            both.extend(split_segments(right));
            assert_eq!(rejoin(&both), format!("{left}{right}"));
        }
    }
}

struct EchoRewriter {
    fixed_output: String,
}

impl CommandRewriter for EchoRewriter {
    fn rewrite(&self, _cmd: &str) -> RewriteResult {
        RewriteResult {
            rewritten: self.fixed_output.clone(),
            probes: vec![],
        }
    }
}

#[test]
fn command_rewriter_is_deterministic() {
    for output in SAMPLES {
        let r = EchoRewriter {
            fixed_output: output.to_string(),
        };
        for input in SAMPLES {
            assert_eq!(r.rewrite(input).rewritten, r.rewrite(input).rewritten);
        }
    }
}
