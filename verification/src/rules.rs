//! Conditional rules: when a rule applies, and which of several wins.

use vstd::prelude::*;

use crate::domain::{ConditionView, PrefixRule, RuleCondition, RuleView};
use crate::outside::{self, glob_search, Platform};
use crate::rewrite::{self, prepend, split_words, RewriteResult};
use crate::segment::{self, rejoin, split_segments, Segment, SegmentView};
use crate::table::Table;
use crate::text::{self, contains_substitution, same_text, trim};

verus! {

/// What the conditions of a rule are held against.
#[derive(Debug, Clone)]
pub struct Surroundings {
    /// The environment variables that are set, with their values.
    pub env: Table<String>,
    /// The working directory, if it is known.
    pub cwd: Option<String>,
    /// For the working directory and for each of its ancestors, whether it holds `.git`.
    pub git_markers: Vec<bool>,
    /// The platform that the program runs on.
    pub platform: Platform,
}

/// What a [`Surroundings`] holds.
pub struct SurroundingsView {
    pub env: Map<Seq<char>, Seq<char>>,
    pub cwd: Option<Seq<char>>,
    pub git_markers: Seq<bool>,
    pub windows: bool,
}

impl DeepView for Surroundings {
    type V = SurroundingsView;

    open spec fn deep_view(&self) -> SurroundingsView {
        SurroundingsView {
            env: self.env.deep_view(),
            cwd: self.cwd.deep_view(),
            git_markers: self.git_markers@,
            windows: self.platform.windows(),
        }
    }
}

/// Whether a condition holds, where `found` tells what matching the working directory against
/// its glob pattern gave (`None` for a text that is no pattern).
pub open spec fn holds(
    condition: ConditionView,
    around: SurroundingsView,
    found: Option<bool>,
) -> bool {
    match condition {
        ConditionView::EnvVarSet(name) => around.env.contains_key(name) && around.env[name].len()
            > 0,
        ConditionView::CwdGlob(_) => around.cwd is Some && found == Some(true),
        ConditionView::GitRoot => around.cwd is Some && around.git_markers.contains(true),
    }
}

/// What matching the working directory against the pattern of a condition gives.
pub open spec fn glob_found(condition: ConditionView, around: SurroundingsView) -> Option<bool> {
    match (condition, around.cwd) {
        (ConditionView::CwdGlob(pattern), Some(cwd)) => outside::glob_match(
            pattern,
            cwd,
            around.windows,
        ),
        _ => None,
    }
}

/// Whether a condition is answered alike on Windows and elsewhere, by what separates the
/// components of its pattern and of the working directory.
pub open spec fn portable(condition: ConditionView, around: SurroundingsView) -> bool {
    match (condition, around.cwd) {
        (ConditionView::CwdGlob(pattern), Some(cwd)) => outside::same_everywhere(pattern, cwd),
        _ => true,
    }
}

/// The same surroundings on Windows, or elsewhere.
pub open spec fn moved_to(around: SurroundingsView, windows: bool) -> SurroundingsView {
    SurroundingsView { windows, ..around }
}

/// Whether all conditions hold, where `found` tells for each what its pattern gave.
pub open spec fn all_hold(
    conditions: Seq<ConditionView>,
    around: SurroundingsView,
    found: Seq<Option<bool>>,
) -> bool {
    forall|i: int|
        0 <= i < conditions.len() ==> holds(#[trigger] conditions[i], around, found[i])
}

/// What the patterns of the conditions give.
pub open spec fn globs_found(
    conditions: Seq<ConditionView>,
    around: SurroundingsView,
) -> Seq<Option<bool>> {
    Seq::new(conditions.len(), |i: int| glob_found(conditions[i], around))
}

/// Whether all conditions hold in these surroundings.
pub open spec fn met(conditions: Seq<ConditionView>, around: SurroundingsView) -> bool {
    all_hold(conditions, around, globs_found(conditions, around))
}

/// Of each rule, whether its conditions hold.
pub open spec fn judged(rules: Seq<RuleView>, around: SurroundingsView) -> Seq<bool> {
    Seq::new(rules.len(), |i: int| met(rules[i].conditions, around))
}

/// Whether `key` is the first word of a command, or its first two with a space between.
pub open spec fn is_key_of(key: Seq<char>, words: Seq<Seq<char>>) -> bool {
    ||| words.len() >= 1 && key == words[0]
    ||| words.len() >= 2 && key == rewrite::two_word_key(words)
}

/// Whether rule `i` applies to a command with these words.
pub open spec fn applies(
    rules: Seq<RuleView>,
    verdicts: Seq<bool>,
    words: Seq<Seq<char>>,
    i: int,
) -> bool {
    0 <= i < rules.len() && is_key_of(rules[i].key, words) && verdicts[i]
}

/// Whether rule `i` is tried before rule `j`: by its priority, and where these are the same, by
/// its place.
pub open spec fn goes_before(rules: Seq<RuleView>, i: int, j: int) -> bool {
    rules[i].priority > rules[j].priority || (rules[i].priority == rules[j].priority && i < j)
}

/// Whether rule `i` applies and is tried before every other that does.
pub open spec fn wins(
    rules: Seq<RuleView>,
    verdicts: Seq<bool>,
    words: Seq<Seq<char>>,
    i: int,
) -> bool {
    &&& applies(rules, verdicts, words, i)
    &&& forall|j: int|
        j != i && #[trigger] applies(rules, verdicts, words, j) ==> goes_before(rules, i, j)
}

/// Whether a rule wins.
pub open spec fn has_winner(
    rules: Seq<RuleView>,
    verdicts: Seq<bool>,
    words: Seq<Seq<char>>,
) -> bool {
    exists|i: int| wins(rules, verdicts, words, i)
}

/// The rule that wins, where one does.
pub open spec fn winner(
    rules: Seq<RuleView>,
    verdicts: Seq<bool>,
    words: Seq<Seq<char>>,
) -> int {
    choose|i: int| wins(rules, verdicts, words, i)
}

/// The text of a segment whose words are `words`, with the prefix of the rule that wins.
pub open spec fn ruled_as(
    s: Seq<char>,
    words: Option<Seq<Seq<char>>>,
    rules: Seq<RuleView>,
    verdicts: Seq<bool>,
) -> Seq<char> {
    if rewrite::left_alone(s) {
        s
    } else {
        match words {
            Some(w) => if has_winner(rules, verdicts, w) {
                rewrite::with_prefix(s, rules[winner(rules, verdicts, w)].prefix)
            } else {
                s
            },
            None => s,
        }
    }
}

/// The segments with the prefixes of the rules that win, where the words of each are those in
/// `words`.
pub open spec fn ruled_segments(
    segs: Seq<SegmentView>,
    words: Seq<Option<Seq<Seq<char>>>>,
    rules: Seq<RuleView>,
    verdicts: Seq<bool>,
) -> Seq<SegmentView> {
    Seq::new(
        segs.len(),
        |i: int|
            SegmentView {
                text: ruled_as(segs[i].text, words[i], rules, verdicts),
                sep: segs[i].sep,
            },
    )
}

/// The command with, before each segment, the prefix of the rule that wins for it.
pub open spec fn ruled(cmd: Seq<char>, rules: Seq<RuleView>, verdicts: Seq<bool>) -> Seq<char> {
    let segs = segment::segments(cmd);
    segment::rejoined(ruled_segments(segs, rewrite::words_of(segs), rules, verdicts))
}

/// No conditions always hold.
pub proof fn law_no_conditions(around: SurroundingsView)
    ensures
        met(seq![], around),
{
}

/// Conditions are taken together: in the same surroundings two lists of them behind one another
/// hold exactly where both do.
pub proof fn law_joined_conditions(
    a: Seq<ConditionView>,
    b: Seq<ConditionView>,
    around: SurroundingsView,
)
    ensures
        met(a + b, around) == (met(a, around) && met(b, around)),
{
    let both = a + b;
    let n = a.len() as int;
    if met(both, around) {
        assert forall|i: int| 0 <= i < a.len() implies holds(
            #[trigger] a[i],
            around,
            globs_found(a, around)[i],
        ) by {
            assert(both[i] == a[i]);
        }
        assert forall|i: int| 0 <= i < b.len() implies holds(
            #[trigger] b[i],
            around,
            globs_found(b, around)[i],
        ) by {
            assert(both[i + n] == b[i]);
        }
    }
    if met(a, around) && met(b, around) {
        assert forall|i: int| 0 <= i < both.len() implies holds(
            #[trigger] both[i],
            around,
            globs_found(both, around)[i],
        ) by {
            if i < n {
                assert(both[i] == a[i]);
                assert(holds(a[i], around, globs_found(a, around)[i]));
            } else {
                assert(both[i] == b[i - n]);
                assert(holds(b[i - n], around, globs_found(b, around)[i - n]));
            }
        }
    }
}

/// The order of conditions does not matter, nor does it matter whether one is given twice: they
/// hold where each that is given holds on its own.
pub proof fn law_conditions_each(conditions: Seq<ConditionView>, around: SurroundingsView)
    ensures
        met(conditions, around) == forall|c: ConditionView| #[trigger]
            conditions.contains(c) ==> holds(c, around, glob_found(c, around)),
{
    if met(conditions, around) {
        assert forall|c: ConditionView| #[trigger] conditions.contains(c) implies holds(
            c,
            around,
            glob_found(c, around),
        ) by {
            let i = choose|i: int| 0 <= i < conditions.len() && conditions[i] == c;
            assert(holds(conditions[i], around, globs_found(conditions, around)[i]));
        }
    }
    if forall|c: ConditionView| #[trigger]
        conditions.contains(c) ==> holds(c, around, glob_found(c, around)) {
        assert forall|i: int| 0 <= i < conditions.len() implies holds(
            #[trigger] conditions[i],
            around,
            globs_found(conditions, around)[i],
        ) by {
            assert(conditions.contains(conditions[i]));
        }
    }
}

/// At most one rule wins.
pub proof fn law_winner_unique(
    rules: Seq<RuleView>,
    verdicts: Seq<bool>,
    words: Seq<Seq<char>>,
    i: int,
    j: int,
)
    requires
        wins(rules, verdicts, words, i),
        wins(rules, verdicts, words, j),
    ensures
        i == j,
{
}

/// Where a rule applies, one wins.
pub proof fn law_winner_exists(
    rules: Seq<RuleView>,
    verdicts: Seq<bool>,
    words: Seq<Seq<char>>,
    i: int,
)
    requires
        applies(rules, verdicts, words, i),
    ensures
        has_winner(rules, verdicts, words),
        wins(rules, verdicts, words, winner(rules, verdicts, words)),
{
    lemma_best(rules, verdicts, words, rules.len() as int);
    let b = best(rules, verdicts, words, rules.len() as int);
    assert(b >= 0);
    assert(wins(rules, verdicts, words, b));
}

/// Trying the rules in any order that puts higher priorities first, and keeps the order of
/// definition among equals, the first that applies is the one that wins.
pub proof fn law_first_match_wins(
    rules: Seq<RuleView>,
    verdicts: Seq<bool>,
    words: Seq<Seq<char>>,
    order: Seq<int>,
    k: int,
)
    requires
        forall|i: int| 0 <= i < rules.len() ==> #[trigger] order.contains(i),
        forall|a: int, b: int|
            0 <= a < b < order.len() ==> goes_before(
                rules,
                #[trigger] order[a],
                #[trigger] order[b],
            ),
        0 <= k < order.len(),
        applies(rules, verdicts, words, order[k]),
        forall|a: int| 0 <= a < k ==> !applies(rules, verdicts, words, #[trigger] order[a]),
    ensures
        wins(rules, verdicts, words, order[k]),
{
    assert forall|j: int|
        j != order[k] && #[trigger] applies(rules, verdicts, words, j) implies goes_before(
        rules,
        order[k],
        j,
    ) by {
        assert(order.contains(j));
        let b = choose|b: int| 0 <= b < order.len() && order[b] == j;
        assert(!(b < k));
        assert(goes_before(rules, order[k], order[b]));
    }
}

/// A rule of higher priority that applies beats one of lower priority; of two with the same
/// priority the one defined first does.
pub proof fn law_priority(
    rules: Seq<RuleView>,
    verdicts: Seq<bool>,
    words: Seq<Seq<char>>,
    i: int,
    j: int,
)
    requires
        applies(rules, verdicts, words, i),
        0 <= j < rules.len(),
        rules[i].priority > rules[j].priority || (rules[i].priority == rules[j].priority && i < j),
    ensures
        !wins(rules, verdicts, words, j),
{
}

/// A segment for which no rule applies stays as it is.
pub proof fn law_no_rule_unchanged(
    s: Seq<char>,
    words: Seq<Seq<char>>,
    rules: Seq<RuleView>,
    verdicts: Seq<bool>,
)
    requires
        forall|i: int| !applies(rules, verdicts, words, i),
    ensures
        ruled_as(s, Some(words), rules, verdicts) == s,
{
    assert forall|i: int| !wins(rules, verdicts, words, i) by {
        assert(!applies(rules, verdicts, words, i));
    }
}

/// Without rules every command passes through unchanged.
pub proof fn law_no_rules_unchanged(cmd: Seq<char>)
    ensures
        ruled(cmd, seq![], seq![]) == cmd,
{
    let segs = segment::segments(cmd);
    let words = rewrite::words_of(segs);
    assert(ruled_segments(segs, words, seq![], seq![]) =~= segs);
    segment::law_split_rejoin(cmd);
}

/// The rule that wins among the first `n`; -1 where none of them applies.
spec fn best(
    rules: Seq<RuleView>,
    verdicts: Seq<bool>,
    words: Seq<Seq<char>>,
    n: int,
) -> int
    decreases n,
{
    if n <= 0 {
        -1
    } else {
        let b = best(rules, verdicts, words, n - 1);
        if applies(rules, verdicts, words, n - 1) && (b < 0 || rules[n - 1].priority
            > rules[b].priority) {
            n - 1
        } else {
            b
        }
    }
}

proof fn lemma_best(
    rules: Seq<RuleView>,
    verdicts: Seq<bool>,
    words: Seq<Seq<char>>,
    n: int,
)
    requires
        0 <= n <= rules.len(),
    ensures
        -1 <= best(rules, verdicts, words, n) < n,
        best(rules, verdicts, words, n) >= 0 ==> applies(
            rules,
            verdicts,
            words,
            best(rules, verdicts, words, n),
        ),
        forall|j: int|
            0 <= j < n && j != best(rules, verdicts, words, n) && #[trigger] applies(
                rules,
                verdicts,
                words,
                j,
            ) ==> best(rules, verdicts, words, n) >= 0 && goes_before(
                rules,
                best(rules, verdicts, words, n),
                j,
            ),
    decreases n,
{
    if n > 0 {
        lemma_best(rules, verdicts, words, n - 1);
    }
}

/// Whether a condition holds, where `found` tells what its pattern gave.
pub fn condition_holds(
    condition: &RuleCondition,
    around: &Surroundings,
    found: Option<bool>,
) -> (r: bool)
    ensures
        r == holds(condition.deep_view(), around.deep_view(), found),
{
    match condition {
        RuleCondition::EnvVarSet(name) => match around.env.get(name.as_str()) {
            Some(value) => !value.as_str().is_empty(),
            None => false,
        },
        RuleCondition::CwdGlob(_) => around.cwd.is_some() && match found {
            Some(matched) => matched,
            None => false,
        },
        RuleCondition::GitRoot => around.cwd.is_some() && any(around.git_markers.as_slice()),
    }
}

/// Whether one of `flags` is set.
fn any(flags: &[bool]) -> (r: bool)
    ensures
        r == flags@.contains(true),
{
    let mut i: usize = 0;
    while i < flags.len()
        invariant
            i <= flags.len(),
            forall|k: int| 0 <= k < i ==> !#[trigger] flags@[k],
        decreases flags.len() - i,
    {
        if flags[i] {
            assert(flags@[i as int]);
            return true;
        }
        i += 1;
    }
    false
}

/// Matches the working directory against the pattern of a condition.
fn find_glob(condition: &RuleCondition, around: &Surroundings) -> (r: Option<bool>)
    ensures
        r == glob_found(condition.deep_view(), around.deep_view()),
        portable(condition.deep_view(), around.deep_view()) ==> forall|windows: bool|
            r == #[trigger] glob_found(
                condition.deep_view(),
                moved_to(around.deep_view(), windows),
            ),
{
    match condition {
        RuleCondition::CwdGlob(pattern) => match &around.cwd {
            Some(cwd) => glob_search(&around.platform, pattern.as_str(), cwd.as_str()),
            None => None,
        },
        _ => None,
    }
}

/// Whether all conditions hold, where `found` tells for each what its pattern gave.
pub fn judge_conditions(
    conditions: &[RuleCondition],
    around: &Surroundings,
    found: &[Option<bool>],
) -> (r: bool)
    requires
        found@.len() == conditions@.len(),
    ensures
        r == all_hold(conditions.deep_view(), around.deep_view(), found@),
{
    let ghost all = conditions.deep_view();
    let mut i: usize = 0;
    while i < conditions.len()
        invariant
            all == conditions.deep_view(),
            found@.len() == conditions@.len(),
            i <= conditions.len(),
            forall|k: int|
                0 <= k < i ==> holds(#[trigger] all[k], around.deep_view(), found@[k]),
        decreases conditions.len() - i,
    {
        assert(all[i as int] == conditions@[i as int].deep_view());
        if !condition_holds(&conditions[i], around, found[i]) {
            return false;
        }
        i += 1;
    }
    true
}

/// Whether all conditions hold; an empty list always does. Where every condition is portable, the
/// answer is the same on every platform.
pub fn conditions_hold(conditions: &[RuleCondition], around: &Surroundings) -> (r: bool)
    ensures
        r == met(conditions.deep_view(), around.deep_view()),
        (forall|i: int|
            0 <= i < conditions@.len() ==> portable(
                #[trigger] conditions.deep_view()[i],
                around.deep_view(),
            )) ==> forall|windows: bool|
            r == #[trigger] met(conditions.deep_view(), moved_to(around.deep_view(), windows)),
{
    let ghost all = conditions.deep_view();
    let ghost here = around.deep_view();
    let mut found: Vec<Option<bool>> = Vec::new();
    let mut i: usize = 0;
    while i < conditions.len()
        invariant
            all == conditions.deep_view(),
            here == around.deep_view(),
            i <= conditions.len(),
            found@.len() == i,
            forall|k: int| 0 <= k < i ==> #[trigger] found@[k] == glob_found(all[k], here),
            forall|k: int, windows: bool|
                0 <= k < i && portable(#[trigger] all[k], here) ==> found@[k] == #[trigger]
                glob_found(all[k], moved_to(here, windows)),
        decreases conditions.len() - i,
    {
        assert(all[i as int] == conditions@[i as int].deep_view());
        found.push(find_glob(&conditions[i], around));
        i += 1;
    }
    let r = judge_conditions(conditions, around, found.as_slice());
    proof {
        assert(found@ =~= globs_found(all, here));
        if forall|k: int| 0 <= k < all.len() ==> portable(#[trigger] all[k], here) {
            assert forall|windows: bool| r == #[trigger] met(all, moved_to(here, windows)) by {
                let there = moved_to(here, windows);
                assert(globs_found(all, there) =~= found@) by {
                    assert forall|k: int| 0 <= k < all.len() implies #[trigger] globs_found(
                        all,
                        there,
                    )[k] == found@[k] by {
                        assert(portable(all[k], here));
                        assert(found@[k] == glob_found(all[k], moved_to(here, windows)));
                    }
                }
                assert forall|k: int| 0 <= k < all.len() implies holds(
                    #[trigger] all[k],
                    there,
                    found@[k],
                ) == holds(all[k], here, found@[k]) by {}
                if all_hold(all, here, found@) {
                    assert(all_hold(all, there, found@));
                }
                if all_hold(all, there, found@) {
                    assert(all_hold(all, here, found@)) by {
                        assert forall|k: int| 0 <= k < all.len() implies holds(
                            #[trigger] all[k],
                            here,
                            found@[k],
                        ) by {
                            assert(holds(all[k], there, found@[k]));
                        }
                    }
                }
            }
        }
    }
    r
}

/// Whether `key` is the first word of a command, or its first two with a space between.
pub fn key_matches(key: &str, words: &[String]) -> (r: bool)
    ensures
        r == is_key_of(key@, words.deep_view()),
{
    if words.len() == 0 {
        return false;
    }
    if same_text(key, words[0].as_str()) {
        return true;
    }
    if words.len() == 1 {
        return false;
    }
    let mut two_word = words[0].clone();
    two_word.append(" ");
    two_word.append(words[1].as_str());
    proof {
        reveal_strlit(" ");
        assert(" "@ =~= seq![' ']);
        assert(two_word@ =~= rewrite::two_word_key(words.deep_view()));
    }
    same_text(key, two_word.as_str())
}

/// The index of the rule that wins for a command with these words, where `verdicts` tells of
/// each rule whether its conditions hold.
pub fn winning_rule(rules: &[PrefixRule], verdicts: &[bool], words: &[String]) -> (r: Option<usize>)
    requires
        verdicts@.len() == rules@.len(),
    ensures
        match r {
            Some(i) => wins(rules.deep_view(), verdicts@, words.deep_view(), i as int),
            None => forall|i: int|
                !#[trigger] applies(rules.deep_view(), verdicts@, words.deep_view(), i),
        },
{
    let ghost all = rules.deep_view();
    let ghost w = words.deep_view();
    let mut found: Option<usize> = None;
    let mut i: usize = 0;
    while i < rules.len()
        invariant
            all == rules.deep_view(),
            w == words.deep_view(),
            verdicts@.len() == rules@.len(),
            i <= rules.len(),
            found matches Some(b) ==> b < i && b == best(all, verdicts@, w, i as int),
            found is None ==> best(all, verdicts@, w, i as int) == -1,
        decreases rules.len() - i,
    {
        proof {
            assert(all[i as int] == rules@[i as int].deep_view());
            lemma_best(all, verdicts@, w, i as int);
        }
        if key_matches(rules[i].key.as_str(), words) && verdicts[i] {
            let beaten = match found {
                Some(b) => {
                    assert(all[b as int] == rules@[b as int].deep_view());
                    rules[i].priority > rules[b].priority
                },
                None => true,
            };
            if beaten {
                found = Some(i);
            }
        }
        i += 1;
    }
    proof {
        lemma_best(all, verdicts@, w, rules@.len() as int);
    }
    found
}

/// Puts the prefix of the rule that wins before the text of a segment whose words are `words`.
pub fn rule_text(
    s: &str,
    words: &Option<Vec<String>>,
    rules: &[PrefixRule],
    verdicts: &[bool],
) -> (r: String)
    requires
        verdicts@.len() == rules@.len(),
    ensures
        r@ == ruled_as(s@, words.deep_view(), rules.deep_view(), verdicts@),
{
    let t = trim(s);
    if t.is_empty() || contains_substitution(t) {
        return s.to_owned();
    }
    match words {
        Some(words) => {
            let ghost w = words.deep_view();
            let ghost all = rules.deep_view();
            let words = words.as_slice();
            assert(words.deep_view() =~= w);
            match winning_rule(rules, verdicts, words) {
                Some(i) => {
                    proof {
                        law_winner_unique(
                            all,
                            verdicts@,
                            w,
                            i as int,
                            winner(all, verdicts@, w),
                        );
                        assert(all[i as int] == rules@[i as int].deep_view());
                    }
                    let prefix = rules[i].prefix.as_slice();
                    assert(prefix.deep_view() =~= all[i as int].prefix);
                    assert(has_winner(all, verdicts@, w));
                    prepend(s, prefix)
                },
                None => {
                    proof {
                        law_no_rule_unchanged(s@, w, all, verdicts@);
                    }
                    s.to_owned()
                },
            }
        },
        None => s.to_owned(),
    }
}

/// Rewrites `segs` by rules, where `words` holds the words of each segment and `verdicts` tells
/// of each rule whether its conditions hold.
pub fn rule_segments(
    segs: &[Segment],
    words: &[Option<Vec<String>>],
    rules: &[PrefixRule],
    verdicts: &[bool],
) -> (r: RewriteResult)
    requires
        words@.len() == segs@.len(),
        verdicts@.len() == rules@.len(),
    ensures
        r.rewritten@ == segment::rejoined(
            ruled_segments(segs.deep_view(), words.deep_view(), rules.deep_view(), verdicts@),
        ),
        r.probes@.len() == 0,
{
    let mut done: Vec<Segment> = Vec::new();
    let ghost goal = ruled_segments(
        segs.deep_view(),
        words.deep_view(),
        rules.deep_view(),
        verdicts@,
    );
    let mut i: usize = 0;
    while i < segs.len()
        invariant
            words@.len() == segs@.len(),
            verdicts@.len() == rules@.len(),
            i <= segs.len(),
            goal == ruled_segments(
                segs.deep_view(),
                words.deep_view(),
                rules.deep_view(),
                verdicts@,
            ),
            done@.len() == i,
            forall|k: int| 0 <= k < i ==> (#[trigger] done@[k]).deep_view() == goal[k],
        decreases segs.len() - i,
    {
        let text = rule_text(segs[i].text.as_str(), &words[i], rules, verdicts);
        done.push(Segment { text, sep: segs[i].sep.clone() });
        i += 1;
    }
    assert(done.deep_view() =~= goal);
    RewriteResult { rewritten: rejoin(done.as_slice()), probes: Vec::new() }
}

/// Rewrites `cmd` by rules, where `verdicts` tells of each rule whether its conditions hold.
pub fn rewrite_by_rules(cmd: &str, rules: &[PrefixRule], verdicts: &[bool]) -> (r: RewriteResult)
    requires
        verdicts@.len() == rules@.len(),
    ensures
        r.rewritten@ == ruled(cmd@, rules.deep_view(), verdicts@),
        r.probes@.len() == 0,
{
    let segs = split_segments(cmd);
    let words = split_words(segs.as_slice());
    proof {
        assert(words.deep_view().len() == segs.deep_view().len());
    }
    rule_segments(segs.as_slice(), words.as_slice(), rules, verdicts)
}

/// Of each rule, whether its conditions hold.
pub fn judge_rules(rules: &[PrefixRule], around: &Surroundings) -> (r: Vec<bool>)
    ensures
        r@ == judged(rules.deep_view(), around.deep_view()),
{
    let ghost all = rules.deep_view();
    let mut verdicts: Vec<bool> = Vec::new();
    let mut i: usize = 0;
    while i < rules.len()
        invariant
            all == rules.deep_view(),
            i <= rules.len(),
            verdicts@.len() == i,
            forall|k: int|
                0 <= k < i ==> #[trigger] verdicts@[k] == met(
                    all[k].conditions,
                    around.deep_view(),
                ),
        decreases rules.len() - i,
    {
        assert(all[i as int] == rules@[i as int].deep_view());
        verdicts.push(conditions_hold(rules[i].conditions.as_slice(), around));
        i += 1;
    }
    assert(verdicts@ =~= judged(all, around.deep_view()));
    verdicts
}

/// A text that is not blank, and holds neither a backtick nor a dollar sign directly before an
/// opening bracket, gets the prefix of rule `i` where that rule's conditions hold, its key is the
/// first word or the first two with a space between, and every other such rule has a lower
/// priority, or the same and a later place. The prefix and a space go between the white space
/// before the text and the text; nothing else changes.
pub proof fn law_rule_prefixes(
    a: Seq<char>,
    t: Seq<char>,
    b: Seq<char>,
    words: Seq<Seq<char>>,
    rules: Seq<RuleView>,
    verdicts: Seq<bool>,
    i: int,
)
    requires
        forall|k: int| 0 <= k < a.len() ==> text::white_space(#[trigger] a[k]),
        forall|k: int| 0 <= k < b.len() ==> text::white_space(#[trigger] b[k]),
        t.len() > 0,
        !text::white_space(t[0]),
        !text::white_space(t[t.len() - 1]),
        forall|k: int| 0 <= k < t.len() ==> #[trigger] t[k] != '`',
        forall|k: int| 0 <= k < t.len() - 1 ==> !(#[trigger] t[k] == '$' && t[k + 1] == '('),
        0 <= i < rules.len(),
        verdicts[i],
        words.len() >= 1 && rules[i].key == words[0] || words.len() >= 2 && rules[i].key == words[0]
            + seq![' '] + words[1],
        forall|j: int|
            0 <= j < rules.len() && j != i && verdicts[j] && (words.len() >= 1 && (
            #[trigger] rules[j]).key == words[0] || words.len() >= 2 && rules[j].key == words[0]
                + seq![' '] + words[1]) ==> rules[i].priority > rules[j].priority || (
            rules[i].priority == rules[j].priority && i < j),
    ensures
        ruled_as(a + t + b, Some(words), rules, verdicts) == a + text::joined(rules[i].prefix)
            + seq![' '] + t + b,
{
    text::law_trim(a, t, b);
    text::law_substitution(t);
    assert(wins(rules, verdicts, words, i)) by {
        assert forall|j: int|
            j != i && #[trigger] applies(rules, verdicts, words, j) implies goes_before(
            rules,
            i,
            j,
        ) by {
            assert(is_key_of(rules[j].key, words));
        }
    }
    law_winner_exists(rules, verdicts, words, i);
    law_winner_unique(rules, verdicts, words, i, winner(rules, verdicts, words));
    assert(rewrite::with_prefix(a + t + b, rules[i].prefix) =~= a + text::joined(rules[i].prefix)
        + seq![' '] + t + b);
}

/// A text stays as it is where it is blank, where a backtick occurs in it or a dollar sign
/// directly before an opening bracket, where it cannot be split into words, and where no rule
/// whose conditions hold has its first word, or its first two with a space between, as its key.
pub proof fn law_rule_spares(
    s: Seq<char>,
    words: Option<Seq<Seq<char>>>,
    rules: Seq<RuleView>,
    verdicts: Seq<bool>,
)
    ensures
        (forall|k: int| 0 <= k < s.len() ==> text::white_space(#[trigger] s[k])) ==> ruled_as(
            s,
            words,
            rules,
            verdicts,
        ) == s,
        (exists|k: int| 0 <= k < s.len() && #[trigger] s[k] == '`') || (exists|k: int|
            0 <= k < s.len() - 1 && #[trigger] s[k] == '$' && s[k + 1] == '(') ==> ruled_as(
            s,
            words,
            rules,
            verdicts,
        ) == s,
        words is None ==> ruled_as(s, words, rules, verdicts) == s,
        (forall|j: int|
            0 <= j < rules.len() && verdicts[j] ==> !(words->0.len() >= 1 && (
            #[trigger] rules[j]).key == words->0[0]) && !(words->0.len() >= 2 && rules[j].key
                == words->0[0] + seq![' '] + words->0[1])) ==> ruled_as(s, words, rules, verdicts)
            == s,
{
    rewrite::lemma_substitution_trimmed(s);
    text::law_substitution(s);
    if forall|k: int| 0 <= k < s.len() ==> text::white_space(#[trigger] s[k]) {
        text::law_trim_blank(s);
    }
    if words is Some && has_winner(rules, verdicts, words->0) {
        let i = winner(rules, verdicts, words->0);
        assert(wins(rules, verdicts, words->0, i));
        assert(is_key_of(rules[i].key, words->0));
    }
}

/// Each segment is ruled by its own words, and keeps its separator.
pub proof fn law_rule_each_segment(
    segs: Seq<SegmentView>,
    words: Seq<Option<Seq<Seq<char>>>>,
    rules: Seq<RuleView>,
    verdicts: Seq<bool>,
    i: int,
)
    requires
        0 <= i < segs.len(),
    ensures
        ruled_segments(segs, words, rules, verdicts).len() == segs.len(),
        ruled_segments(segs, words, rules, verdicts)[i].text == ruled_as(
            segs[i].text,
            words[i],
            rules,
            verdicts,
        ),
        ruled_segments(segs, words, rules, verdicts)[i].sep == segs[i].sep,
{
}

/// What stands on the two sides of a separator is ruled on its own: where a command is `left`, a
/// separator and `right`, the result is `left` ruled, the separator and `right` ruled.
pub proof fn law_ruled_compound(
    left: Seq<char>,
    sep: Seq<char>,
    right: Seq<char>,
    rules: Seq<RuleView>,
    verdicts: Seq<bool>,
)
    requires
        segment::is_separator(sep),
        segment::stands_alone(left, sep, right),
    ensures
        ruled(left + sep + right, rules, verdicts) == ruled(left, rules, verdicts) + sep + ruled(
            right,
            rules,
            verdicts,
        ),
{
    let head = segment::segments(left);
    let first = segment::ended(head, sep);
    let tail = segment::segments(right);
    let segs = first + tail;
    segment::law_split_compound(left, sep, right);
    segment::law_split_canonical(left);
    let done_first = ruled_segments(first, rewrite::words_of(first), rules, verdicts);
    let done_tail = ruled_segments(tail, rewrite::words_of(tail), rules, verdicts);
    let done_head = ruled_segments(head, rewrite::words_of(head), rules, verdicts);
    let done = ruled_segments(segs, rewrite::words_of(segs), rules, verdicts);
    assert(done =~= done_first + done_tail) by {
        assert forall|i: int| 0 <= i < segs.len() implies #[trigger] done[i] == (done_first
            + done_tail)[i] by {
            if i < first.len() {
                assert(segs[i] == first[i]);
            } else {
                assert(segs[i] == tail[i - first.len()]);
            }
        }
    }
    segment::law_rejoin_concat(done_first, done_tail);
    assert(done_first =~= segment::ended(done_head, sep)) by {
        assert forall|i: int| 0 <= i < head.len() implies #[trigger] done_first[i]
            == segment::ended(done_head, sep)[i] by {
            if i < head.len() - 1 {
                assert(first[i] == head[i]);
            }
        }
    }
    segment::lemma_last(head);
    segment::lemma_ended(done_head, sep);
    assert(ruled(left + sep + right, rules, verdicts) =~= ruled(left, rules, verdicts) + sep
        + ruled(right, rules, verdicts));
}

/// A whole command is ruled segment by segment. One in which no separator occurs is ruled as a
/// text; and what stands on the two sides of its first separator is ruled on its own, with the
/// separator between, whichever of the four it is.
pub proof fn law_ruled(
    left: Seq<char>,
    sep: Seq<char>,
    right: Seq<char>,
    rules: Seq<RuleView>,
    verdicts: Seq<bool>,
)
    requires
        forall|i: int| 0 <= i < left.len() ==> #[trigger] left[i] != ';' && left[i] != '|',
        forall|i: int|
            0 <= i < left.len() - 1 ==> !(#[trigger] left[i] == '&' && left[i + 1] == '&'),
        sep == seq!['&', '&'] || sep == seq!['|', '|'] || sep == seq![';'] || sep == seq!['|'],
        sep == seq!['&', '&'] && left.len() > 0 ==> left[left.len() - 1] != '&',
        sep == seq!['|'] && right.len() > 0 ==> right[0] != '|',
    ensures
        ruled(left, rules, verdicts) == ruled_as(
            left,
            outside::shell_words_of(text::trimmed(left)),
            rules,
            verdicts,
        ),
        ruled(left + sep + right, rules, verdicts) == ruled(left, rules, verdicts) + sep + ruled(
            right,
            rules,
            verdicts,
        ),
{
    segment::law_split_plain(left);
    let segs = segment::segments(left);
    let done = ruled_segments(segs, rewrite::words_of(segs), rules, verdicts);
    let after = done.drop_first();
    assert(after.len() == 0);
    assert(segment::rejoined(after) =~= seq![]);
    assert(segment::rejoined(done) =~= done[0].text);
    segment::law_split_first(left, sep, right);
    law_ruled_compound(left, sep, right, rules, verdicts);
}

/// Conditions hold where each does: a variable is set, and not to nothing; the working directory
/// is known and matches the pattern; the working directory is known, and it or one of its
/// ancestors holds `.git`.
pub proof fn law_conditions(conditions: Seq<ConditionView>, around: SurroundingsView)
    ensures
        met(conditions, around) <==> forall|i: int|
            0 <= i < conditions.len() ==> match #[trigger] conditions[i] {
                ConditionView::EnvVarSet(name) => around.env.contains_key(name)
                    && around.env[name] != Seq::<char>::empty(),
                ConditionView::CwdGlob(pattern) => around.cwd is Some && outside::glob_match(
                    pattern,
                    around.cwd->0,
                    around.windows,
                ) == Some(true),
                ConditionView::GitRoot => around.cwd is Some && exists|k: int|
                    0 <= k < around.git_markers.len() && #[trigger] around.git_markers[k],
            },
{
    let found = globs_found(conditions, around);
    assert forall|i: int| 0 <= i < conditions.len() implies holds(
        #[trigger] conditions[i],
        around,
        found[i],
    ) == match conditions[i] {
        ConditionView::EnvVarSet(name) => around.env.contains_key(name) && around.env[name]
            != Seq::<char>::empty(),
        ConditionView::CwdGlob(pattern) => around.cwd is Some && outside::glob_match(
            pattern,
            around.cwd->0,
            around.windows,
        ) == Some(true),
        ConditionView::GitRoot => around.cwd is Some && exists|k: int|
            0 <= k < around.git_markers.len() && #[trigger] around.git_markers[k],
    } by {
        match conditions[i] {
            ConditionView::EnvVarSet(name) => {
                if around.env[name].len() == 0 {
                    assert(around.env[name] =~= Seq::<char>::empty());
                }
            },
            ConditionView::CwdGlob(_) => {},
            ConditionView::GitRoot => {
                if around.git_markers.contains(true) {
                    let k = choose|k: int|
                        0 <= k < around.git_markers.len() && around.git_markers[k] == true;
                    assert(around.git_markers[k]);
                }
                if exists|k: int| 0 <= k < around.git_markers.len() && #[trigger]
                    around.git_markers[k] {
                    let k = choose|k: int| 0 <= k < around.git_markers.len() && #[trigger]
                        around.git_markers[k];
                    assert(around.git_markers[k] == true);
                }
            },
        }
    }
}

/// Of each rule its own conditions are judged.
pub proof fn law_judged(rules: Seq<RuleView>, around: SurroundingsView, i: int)
    requires
        0 <= i < rules.len(),
    ensures
        judged(rules, around).len() == rules.len(),
        judged(rules, around)[i] == met(rules[i].conditions, around),
{
}

/// A condition on a variable, or on a repository, does not go by what a pattern gave; one on the
/// working directory goes by that alone, where the directory is known. Conditions taken together
/// hold where each does with what its own pattern gave.
pub proof fn law_condition(
    conditions: Seq<ConditionView>,
    around: SurroundingsView,
    found: Seq<Option<bool>>,
    name: Seq<char>,
    matched: Option<bool>,
)
    ensures
        holds(ConditionView::EnvVarSet(name), around, matched) <==> around.env.contains_key(name)
            && around.env[name].len() > 0,
        holds(ConditionView::CwdGlob(name), around, matched) <==> around.cwd is Some && matched
            == Some(true),
        holds(ConditionView::GitRoot, around, matched) <==> around.cwd is Some && exists|k: int|
            0 <= k < around.git_markers.len() && #[trigger] around.git_markers[k],
        all_hold(conditions, around, found) <==> forall|i: int|
            0 <= i < conditions.len() ==> holds(#[trigger] conditions[i], around, found[i]),
{
    if around.git_markers.contains(true) {
        let k = choose|k: int| 0 <= k < around.git_markers.len() && around.git_markers[k] == true;
        assert(around.git_markers[k]);
    }
    if exists|k: int| 0 <= k < around.git_markers.len() && #[trigger] around.git_markers[k] {
        let k = choose|k: int| 0 <= k < around.git_markers.len() && #[trigger]
            around.git_markers[k];
        assert(around.git_markers[k] == true);
    }
}

/// What contracts see of surroundings is what they hold, field by field.
pub proof fn law_seen_as_held(around: Surroundings)
    ensures
        around.deep_view().env == around.env.deep_view(),
        around.deep_view().cwd == around.cwd.deep_view(),
        around.deep_view().git_markers == around.git_markers@,
        around.deep_view().windows == around.platform.windows(),
{
}

/// A command in which no separator, no backtick and no dollar sign directly before an opening
/// bracket occurs, and which is not blank, gets the prefix of rule `i` where that rule's conditions
/// hold, its key is the first word or the first two, and every other such rule has a lower
/// priority, or the same and a later place.
pub proof fn law_simple_ruled(
    a: Seq<char>,
    t: Seq<char>,
    b: Seq<char>,
    words: Seq<Seq<char>>,
    rules: Seq<RuleView>,
    verdicts: Seq<bool>,
    i: int,
)
    requires
        forall|k: int| 0 <= k < a.len() ==> text::white_space(#[trigger] a[k]),
        forall|k: int| 0 <= k < b.len() ==> text::white_space(#[trigger] b[k]),
        t.len() > 0,
        !text::white_space(t[0]),
        !text::white_space(t[t.len() - 1]),
        forall|k: int|
            0 <= k < t.len() ==> #[trigger] t[k] != ';' && t[k] != '|' && t[k] != '`',
        forall|k: int|
            0 <= k < t.len() - 1 ==> !(#[trigger] t[k] == '&' && t[k + 1] == '&') && !(t[k] == '$'
                && t[k + 1] == '('),
        outside::shell_words_of(t) == Some(words),
        0 <= i < rules.len(),
        verdicts[i],
        words.len() >= 1 && rules[i].key == words[0] || words.len() >= 2 && rules[i].key == words[0]
            + seq![' '] + words[1],
        forall|j: int|
            0 <= j < rules.len() && j != i && verdicts[j] && (words.len() >= 1 && (
            #[trigger] rules[j]).key == words[0] || words.len() >= 2 && rules[j].key == words[0]
                + seq![' '] + words[1]) ==> rules[i].priority > rules[j].priority || (
            rules[i].priority == rules[j].priority && i < j),
    ensures
        ruled(a + t + b, rules, verdicts) == a + text::joined(rules[i].prefix) + seq![' '] + t + b,
{
    segment::lemma_plain_around(a, t, b);
    text::law_trim(a, t, b);
    law_rule_prefixes(a, t, b, words, rules, verdicts, i);
    let segs = segment::segments(a + t + b);
    let done = ruled_segments(segs, rewrite::words_of(segs), rules, verdicts);
    assert(done[0].text == ruled_as(a + t + b, Some(words), rules, verdicts));
    let after = done.drop_first();
    assert(after.len() == 0);
    assert(segment::rejoined(after) =~= seq![]);
    assert(segment::rejoined(done) =~= done[0].text);
}

} // verus!
