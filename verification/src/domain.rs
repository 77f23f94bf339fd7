//! The domain types: rules, predicates, candidates, commands and the config.

use vstd::prelude::*;

use crate::table::Table;

verus! {

/// A single condition that must hold for a [`PrefixRule`] to apply.
///
/// All conditions of a rule must hold together.
#[derive(Debug, Clone, PartialEq)]
pub enum RuleCondition {
    /// The named environment variable is set to a non-empty value.
    EnvVarSet(String),
    /// The current working directory matches the given glob pattern.
    CwdGlob(String),
    /// The working directory lies inside a git repository (`.git` in it or in an ancestor).
    GitRoot,
}

/// What a [`RuleCondition`] says.
pub enum ConditionView {
    EnvVarSet(Seq<char>),
    CwdGlob(Seq<char>),
    GitRoot,
}

impl DeepView for RuleCondition {
    type V = ConditionView;

    open spec fn deep_view(&self) -> ConditionView {
        match self {
            RuleCondition::EnvVarSet(name) => ConditionView::EnvVarSet(name@),
            RuleCondition::CwdGlob(pattern) => ConditionView::CwdGlob(pattern@),
            RuleCondition::GitRoot => ConditionView::GitRoot,
        }
    }
}

/// A prefix for a command word, with conditions and a priority.
///
/// Rules are tried in descending order of priority; the first that matches wins.
#[derive(Debug, Clone)]
pub struct PrefixRule {
    /// The command word (or two-word phrase) this rule targets.
    pub key: String,
    /// Prefix tokens to prepend when this rule matches.
    pub prefix: Vec<String>,
    /// Conditions that must all hold for this rule to apply.
    /// An empty list means that the rule always applies.
    pub conditions: Vec<RuleCondition>,
    /// Higher values are tried first.
    pub priority: u32,
}

/// What a [`PrefixRule`] says.
pub struct RuleView {
    pub key: Seq<char>,
    pub prefix: Seq<Seq<char>>,
    pub conditions: Seq<ConditionView>,
    pub priority: u32,
}

impl DeepView for PrefixRule {
    type V = RuleView;

    open spec fn deep_view(&self) -> RuleView {
        RuleView {
            key: self.key@,
            prefix: self.prefix.deep_view(),
            conditions: self.conditions.deep_view(),
            priority: self.priority,
        }
    }
}

/// When the attempt with a candidate counts as a success.
///
/// By default: exit code 0, and nothing else is asked.
#[derive(Debug, PartialEq)]
pub struct SuccessPredicate {
    /// Required exit code; `None` admits any.
    pub exit_code: Option<i32>,
    /// Regular expression that stdout must match, if any.
    pub stdout_matches: Option<String>,
    /// Regular expression that stderr must match, if any.
    pub stderr_matches: Option<String>,
    /// Whether stderr must be blank.
    pub stderr_absent: bool,
}

/// What a [`SuccessPredicate`] asks.
pub struct PredicateView {
    pub exit_code: Option<i32>,
    pub stdout_matches: Option<Seq<char>>,
    pub stderr_matches: Option<Seq<char>>,
    pub stderr_absent: bool,
}

impl DeepView for SuccessPredicate {
    type V = PredicateView;

    open spec fn deep_view(&self) -> PredicateView {
        PredicateView {
            exit_code: self.exit_code,
            stdout_matches: self.stdout_matches.deep_view(),
            stderr_matches: self.stderr_matches.deep_view(),
            stderr_absent: self.stderr_absent,
        }
    }
}

/// The predicate that asks for exit code 0 and nothing else.
pub open spec fn exit_zero_view() -> PredicateView {
    PredicateView {
        exit_code: Some(0),
        stdout_matches: None,
        stderr_matches: None,
        stderr_absent: false,
    }
}

impl SuccessPredicate {
    /// The predicate that asks for exit code 0 and nothing else.
    pub fn exit_zero() -> (r: Self)
        ensures
            r.deep_view() == exit_zero_view(),
    {
        SuccessPredicate {
            exit_code: Some(0),
            stdout_matches: None,
            stderr_matches: None,
            stderr_absent: false,
        }
    }
}

impl Default for SuccessPredicate {
    fn default() -> (r: Self)
        ensures
            r.deep_view() == exit_zero_view(),
    {
        SuccessPredicate::exit_zero()
    }
}

impl Clone for SuccessPredicate {
    fn clone(&self) -> (r: Self)
        ensures
            r.deep_view() == self.deep_view(),
    {
        SuccessPredicate {
            exit_code: self.exit_code,
            stdout_matches: self.stdout_matches.clone(),
            stderr_matches: self.stderr_matches.clone(),
            stderr_absent: self.stderr_absent,
        }
    }
}

/// A prefix to try when a command fails bare, and how to tell whether it helped.
#[derive(Debug, Clone, PartialEq)]
pub struct CandidatePrefix {
    pub prefix: Vec<String>,
    pub success_when: SuccessPredicate,
}

/// What a [`CandidatePrefix`] says.
pub struct CandidateView {
    pub prefix: Seq<Seq<char>>,
    pub success_when: PredicateView,
}

impl DeepView for CandidatePrefix {
    type V = CandidateView;

    open spec fn deep_view(&self) -> CandidateView {
        CandidateView {
            prefix: self.prefix.deep_view(),
            success_when: self.success_when.deep_view(),
        }
    }
}

impl CandidatePrefix {
    /// The candidate with `prefix`, judged by `success_when`; where that is not given, by exit
    /// code 0.
    pub fn new(prefix: Vec<String>, success_when: Option<SuccessPredicate>) -> (r: Self)
        ensures
            r.prefix == prefix,
            r.success_when.deep_view() == match success_when {
                Some(pred) => pred.deep_view(),
                None => exit_zero_view(),
            },
    {
        let success_when = match success_when {
            Some(pred) => pred,
            None => SuccessPredicate::default(),
        };
        CandidatePrefix { prefix, success_when }
    }
}

/// The prefix config: confirmed mappings and candidates.
#[derive(Debug, Clone)]
pub struct PrefixConfig {
    /// The confirmed prefix of each command word (or two-word phrase).
    pub mappings: Table<Vec<String>>,
    /// Candidates to try, in this order, when a command fails bare.
    pub candidate_prefixes: Vec<CandidatePrefix>,
}

/// What a [`PrefixConfig`] holds.
#[verifier::ext_equal]
pub struct ConfigView {
    pub mappings: Map<Seq<char>, Seq<Seq<char>>>,
    pub candidate_prefixes: Seq<CandidateView>,
}

impl DeepView for PrefixConfig {
    type V = ConfigView;

    open spec fn deep_view(&self) -> ConfigView {
        ConfigView {
            mappings: self.mappings.deep_view(),
            candidate_prefixes: self.candidate_prefixes.deep_view(),
        }
    }
}

/// The config that maps nothing and has no candidates.
pub open spec fn empty_config() -> ConfigView {
    ConfigView { mappings: Map::empty(), candidate_prefixes: seq![] }
}

/// `config` with `prefix` confirmed for `key`.
pub open spec fn with_mapping(
    config: ConfigView,
    key: Seq<char>,
    prefix: Seq<Seq<char>>,
) -> ConfigView {
    ConfigView { mappings: config.mappings.insert(key, prefix), ..config }
}

/// `config` without a mapping for `key`.
pub open spec fn without_mapping(config: ConfigView, key: Seq<char>) -> ConfigView {
    ConfigView { mappings: config.mappings.remove(key), ..config }
}

impl Default for PrefixConfig {
    fn default() -> (r: Self)
        ensures
            r.deep_view() == empty_config(),
    {
        let r = PrefixConfig { mappings: Table::new(), candidate_prefixes: Vec::new() };
        assert(r.deep_view() =~= empty_config());
        r
    }
}

/// A copy of `words`.
pub fn copy_words(words: &[String]) -> (r: Vec<String>)
    ensures
        r.deep_view() == words.deep_view(),
{
    let mut out: Vec<String> = Vec::new();
    let mut i: usize = 0;
    while i < words.len()
        invariant
            i <= words.len(),
            out@.len() == i,
            forall|k: int| 0 <= k < i ==> (#[trigger] out@[k])@ == words@[k]@,
        decreases words.len() - i,
    {
        out.push(words[i].clone());
        i += 1;
    }
    assert(out.deep_view() =~= words.deep_view());
    out
}

impl PrefixConfig {
    /// Confirms `prefix` for `key`, next to the other mappings.
    pub fn confirm_mapping(&mut self, key: &str, prefix: &[String])
        ensures
            final(self).deep_view() == with_mapping(
                old(self).deep_view(),
                key@,
                prefix.deep_view(),
            ),
    {
        self.mappings.insert(key.to_owned(), copy_words(prefix));
    }

    /// Takes the mapping of `key` out. Returns whether there was one.
    pub fn remove_mapping(&mut self, key: &str) -> (r: bool)
        ensures
            r == old(self).deep_view().mappings.contains_key(key@),
            final(self).deep_view() == without_mapping(old(self).deep_view(), key@),
    {
        self.mappings.remove(key)
    }
}

/// A shell command as it was before any rewriting.
#[derive(Debug, Clone, PartialEq, Eq, Hash)]
pub struct OriginalCommand(pub String);

impl View for OriginalCommand {
    type V = Seq<char>;

    open spec fn view(&self) -> Seq<char> {
        self.0@
    }
}

impl OriginalCommand {
    /// The command as text.
    pub fn as_str(&self) -> (r: &str)
        ensures
            r@ == self@,
    {
        self.0.as_str()
    }

    /// The command as text of its own.
    pub fn to_string(&self) -> (r: String)
        ensures
            r@ == self@,
    {
        self.0.clone()
    }
}

impl From<String> for OriginalCommand {
    fn from(s: String) -> Self {
        OriginalCommand(s)
    }
}

impl vstd::std_specs::convert::FromSpecImpl<String> for OriginalCommand {
    open spec fn obeys_from_spec() -> bool {
        true
    }

    open spec fn from_spec(s: String) -> Self {
        OriginalCommand(s)
    }
}

impl From<&str> for OriginalCommand {
    fn from(s: &str) -> (r: Self)
        ensures
            r@ == s@,
    {
        OriginalCommand(s.to_owned())
    }
}

// A contract cannot make a `String` of a text, so `from` says itself what the command is.
impl vstd::std_specs::convert::FromSpecImpl<&str> for OriginalCommand {
    open spec fn obeys_from_spec() -> bool {
        false
    }

    open spec fn from_spec(s: &str) -> Self {
        arbitrary()
    }
}

/// The empty config maps no key and has no candidates.
pub proof fn law_empty_config(key: Seq<char>)
    ensures
        !empty_config().mappings.contains_key(key),
        empty_config().candidate_prefixes.len() == 0,
{
}

/// The predicate that holds where none is given asks for exit code 0 and for nothing else.
pub proof fn law_default_predicate()
    ensures
        exit_zero_view().exit_code == Some(0i32),
        exit_zero_view().stdout_matches is None,
        exit_zero_view().stderr_matches is None,
        !exit_zero_view().stderr_absent,
{
}

/// What contracts see of a predicate, a candidate, a condition, a rule and a config is what they
/// hold, field by field.
pub proof fn law_seen_as_held(
    pred: SuccessPredicate,
    candidate: CandidatePrefix,
    name: String,
    rule: PrefixRule,
    config: PrefixConfig,
)
    ensures
        pred.deep_view().exit_code == pred.exit_code,
        pred.deep_view().stdout_matches == pred.stdout_matches.deep_view(),
        pred.deep_view().stderr_matches == pred.stderr_matches.deep_view(),
        pred.deep_view().stderr_absent == pred.stderr_absent,
        candidate.deep_view().prefix == candidate.prefix.deep_view(),
        candidate.deep_view().success_when == candidate.success_when.deep_view(),
        RuleCondition::EnvVarSet(name).deep_view() == ConditionView::EnvVarSet(name@),
        RuleCondition::CwdGlob(name).deep_view() == ConditionView::CwdGlob(name@),
        RuleCondition::GitRoot.deep_view() == ConditionView::GitRoot,
        rule.deep_view().key == rule.key@,
        rule.deep_view().prefix == rule.prefix.deep_view(),
        rule.deep_view().conditions == rule.conditions.deep_view(),
        rule.deep_view().priority == rule.priority,
        config.deep_view().mappings == config.mappings.deep_view(),
        config.deep_view().candidate_prefixes == config.candidate_prefixes.deep_view(),
{
}

} // verus!
