//! Judging whether the attempt with a candidate succeeded.

use vstd::prelude::*;

use crate::domain::{PredicateView, SuccessPredicate};
use crate::outside::{self, regex_search};
use crate::text::{self, trim};

verus! {

/// Whether an attempt meets `pred`, where `stdout_found` and `stderr_found` tell what the search
/// for the two patterns found (`None` for a pattern that is no regular expression).
pub open spec fn meets(
    pred: PredicateView,
    exit_code: i64,
    stderr: Seq<char>,
    stdout_found: Option<bool>,
    stderr_found: Option<bool>,
) -> bool {
    &&& pred.exit_code matches Some(required) ==> exit_code == required
    &&& pred.stderr_absent ==> text::trimmed(stderr).len() == 0
    &&& pred.stdout_matches is Some ==> stdout_found == Some(true)
    &&& pred.stderr_matches is Some ==> stderr_found == Some(true)
}

/// What the search for an optional pattern finds in `s`.
pub open spec fn search_result(pattern: Option<Seq<char>>, s: Seq<char>) -> Option<bool> {
    match pattern {
        Some(p) => outside::regex_match(p, s),
        None => None,
    }
}

/// Whether an attempt with this exit code and output meets `pred`.
pub open spec fn succeeded(
    pred: PredicateView,
    exit_code: i64,
    stdout: Seq<char>,
    stderr: Seq<char>,
) -> bool {
    meets(
        pred,
        exit_code,
        stderr,
        search_result(pred.stdout_matches, stdout),
        search_result(pred.stderr_matches, stderr),
    )
}

/// The predicate that asks for exit code 0 and nothing else is met exactly by exit code 0.
pub proof fn law_exit_zero(exit_code: i64, stdout: Seq<char>, stderr: Seq<char>)
    ensures
        succeeded(crate::domain::exit_zero_view(), exit_code, stdout, stderr) == (exit_code == 0),
{
}

/// A predicate that asks nothing is met by every attempt.
pub proof fn law_permissive(exit_code: i64, stdout: Seq<char>, stderr: Seq<char>)
    ensures
        succeeded(
            PredicateView {
                exit_code: None,
                stdout_matches: None,
                stderr_matches: None,
                stderr_absent: false,
            },
            exit_code,
            stdout,
            stderr,
        ),
{
}

/// Judges an attempt by what the search for the two patterns found.
pub fn judge(
    pred: &SuccessPredicate,
    exit_code: i64,
    stderr: &str,
    stdout_found: Option<bool>,
    stderr_found: Option<bool>,
) -> (r: bool)
    ensures
        r == meets(pred.deep_view(), exit_code, stderr@, stdout_found, stderr_found),
{
    if let Some(required) = pred.exit_code {
        if exit_code != required as i64 {
            return false;
        }
    }
    if pred.stderr_absent && !trim(stderr).is_empty() {
        return false;
    }
    if pred.stdout_matches.is_some() {
        match stdout_found {
            Some(true) => {},
            _ => {
                return false;
            },
        }
    }
    if pred.stderr_matches.is_some() {
        match stderr_found {
            Some(true) => {},
            _ => {
                return false;
            },
        }
    }
    true
}

/// What the search for an optional pattern finds in `s`.
fn search(pattern: &Option<String>, s: &str) -> (r: Option<bool>)
    ensures
        r == search_result(pattern.deep_view(), s@),
{
    match pattern {
        Some(p) => regex_search(p.as_str(), s),
        None => None,
    }
}

/// Evaluates a [`SuccessPredicate`] against the result of running a command.
///
/// Returns `true` if all configured conditions pass. A pattern that is no regular expression
/// does not pass.
pub fn evaluate_predicate(
    pred: &SuccessPredicate,
    exit_code: i64,
    stdout: &str,
    stderr: &str,
) -> (r: bool)
    ensures
        r == succeeded(pred.deep_view(), exit_code, stdout@, stderr@),
{
    let stdout_found = search(&pred.stdout_matches, stdout);
    let stderr_found = search(&pred.stderr_matches, stderr);
    judge(pred, exit_code, stderr, stdout_found, stderr_found)
}

/// An attempt succeeds exactly where its exit code is the one asked for, if one is; where nothing
/// but white space stands in the error output, if that is asked for; and where each pattern that
/// is given is a regular expression and is found in its output.
pub proof fn law_succeeded(
    pred: PredicateView,
    exit_code: i64,
    stdout: Seq<char>,
    stderr: Seq<char>,
)
    ensures
        succeeded(pred, exit_code, stdout, stderr) <==> {
            &&& pred.exit_code is None || exit_code == pred.exit_code->0
            &&& !pred.stderr_absent || forall|i: int|
                0 <= i < stderr.len() ==> text::white_space(#[trigger] stderr[i])
            &&& pred.stdout_matches is None || outside::regex_match(pred.stdout_matches->0, stdout)
                == Some(true)
            &&& pred.stderr_matches is None || outside::regex_match(pred.stderr_matches->0, stderr)
                == Some(true)
        },
{
    lemma_blank(stderr);
}

/// Nothing is left of a text where it is all white space, and only there.
proof fn lemma_blank(s: Seq<char>)
    ensures
        text::trimmed(s).len() == 0 <==> forall|i: int|
            0 <= i < s.len() ==> text::white_space(#[trigger] s[i]),
{
    if forall|i: int| 0 <= i < s.len() ==> text::white_space(#[trigger] s[i]) {
        text::law_trim_blank(s);
    } else {
        text::lemma_trimmed(s);
    }
}

/// The same, where what the search for the two patterns found is given.
pub proof fn law_judged(
    pred: PredicateView,
    exit_code: i64,
    stderr: Seq<char>,
    stdout_found: Option<bool>,
    stderr_found: Option<bool>,
)
    ensures
        meets(pred, exit_code, stderr, stdout_found, stderr_found) <==> {
            &&& pred.exit_code is None || exit_code == pred.exit_code->0
            &&& !pred.stderr_absent || forall|i: int|
                0 <= i < stderr.len() ==> text::white_space(#[trigger] stderr[i])
            &&& pred.stdout_matches is None || stdout_found == Some(true)
            &&& pred.stderr_matches is None || stderr_found == Some(true)
        },
{
    lemma_blank(stderr);
}

} // verus!
