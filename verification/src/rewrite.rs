//! Looking up the confirmed prefix of a command, and rewriting commands with it.

use vstd::prelude::*;

use crate::domain::{copy_words, ConfigView, PrefixConfig};
use crate::outside::{self, shell_split};
use crate::ports::PrefixStore;
use crate::probe::{ProbeEntry, ProbeView};
use crate::segment::{self, rejoin, split_segments, Segment, SegmentView};
use crate::text::{self, contains_substitution, join, lead_len, trim};

verus! {

/// Result of a prefix lookup for a single segment's base command.
#[derive(Debug, Clone, PartialEq)]
pub enum PrefixMatch {
    /// A confirmed mapping exists.
    Confirmed { key: String, prefix: Vec<String> },
}

/// What a [`PrefixMatch`] holds.
pub struct MatchView {
    pub key: Seq<char>,
    pub prefix: Seq<Seq<char>>,
}

impl DeepView for PrefixMatch {
    type V = MatchView;

    open spec fn deep_view(&self) -> MatchView {
        match self {
            PrefixMatch::Confirmed { key, prefix } => MatchView {
                key: key@,
                prefix: prefix.deep_view(),
            },
        }
    }
}

/// Result of rewriting a full command.
#[derive(Debug, Clone)]
pub struct RewriteResult {
    /// The command with its prefixes.
    pub rewritten: String,
    /// Probes that the rewriting started. Probes start when a command fails, so there are none.
    pub probes: Vec<ProbeEntry>,
}

/// The key that the first two words of a command make.
pub open spec fn two_word_key(words: Seq<Seq<char>>) -> Seq<char> {
    words[0] + seq![' '] + words[1]
}

/// The confirmed mapping for a command with these words: that of its first two words, else that
/// of its first.
pub open spec fn match_words(
    words: Option<Seq<Seq<char>>>,
    mappings: Map<Seq<char>, Seq<Seq<char>>>,
) -> Option<MatchView> {
    match words {
        None => None,
        Some(w) => if w.len() >= 2 && mappings.contains_key(two_word_key(w)) {
            Some(MatchView { key: two_word_key(w), prefix: mappings[two_word_key(w)] })
        } else if w.len() >= 1 && mappings.contains_key(w[0]) {
            Some(MatchView { key: w[0], prefix: mappings[w[0]] })
        } else {
            None
        },
    }
}

/// The confirmed mapping for a segment, which has none where a command substitution occurs.
pub open spec fn match_segment(
    segment: Seq<char>,
    mappings: Map<Seq<char>, Seq<Seq<char>>>,
) -> Option<MatchView> {
    let t = text::trimmed(segment);
    if text::has_substitution(t) {
        None
    } else {
        match_words(outside::shell_words_of(t), mappings)
    }
}

/// `s` with `prefix` and a space put before its first character that is not white space.
pub open spec fn with_prefix(s: Seq<char>, prefix: Seq<Seq<char>>) -> Seq<char> {
    text::leading(s) + text::joined(prefix) + seq![' '] + text::trimmed(s) + text::trailing(s)
}

/// Whether the text of a segment is never rewritten: it is blank or holds a substitution.
pub open spec fn left_alone(s: Seq<char>) -> bool {
    text::trimmed(s).len() == 0 || text::has_substitution(text::trimmed(s))
}

/// The text of a segment whose words are `words`, rewritten.
pub open spec fn rewritten_as(
    s: Seq<char>,
    words: Option<Seq<Seq<char>>>,
    mappings: Map<Seq<char>, Seq<Seq<char>>>,
) -> Seq<char> {
    if left_alone(s) {
        s
    } else {
        match match_words(words, mappings) {
            Some(m) => with_prefix(s, m.prefix),
            None => s,
        }
    }
}

/// The words of each segment.
pub open spec fn words_of(segs: Seq<SegmentView>) -> Seq<Option<Seq<Seq<char>>>> {
    Seq::new(segs.len(), |i: int| outside::shell_words_of(text::trimmed(segs[i].text)))
}

/// The segments with their texts rewritten, where the words of each are those in `words`.
pub open spec fn rewritten_segments(
    segs: Seq<SegmentView>,
    words: Seq<Option<Seq<Seq<char>>>>,
    mappings: Map<Seq<char>, Seq<Seq<char>>>,
) -> Seq<SegmentView> {
    Seq::new(
        segs.len(),
        |i: int|
            SegmentView { text: rewritten_as(segs[i].text, words[i], mappings), sep: segs[i].sep },
    )
}

/// The text of a segment, rewritten.
pub open spec fn rewritten_text(
    s: Seq<char>,
    mappings: Map<Seq<char>, Seq<Seq<char>>>,
) -> Seq<char> {
    rewritten_as(s, outside::shell_words_of(text::trimmed(s)), mappings)
}

/// The command with the prefix of each segment's mapping put before that segment.
pub open spec fn rewritten(cmd: Seq<char>, mappings: Map<Seq<char>, Seq<Seq<char>>>) -> Seq<char> {
    let segs = segment::segments(cmd);
    segment::rejoined(rewritten_segments(segs, words_of(segs), mappings))
}

/// The confirmed mapping for a command with these words.
pub fn lookup_words(words: &[String], config: &PrefixConfig) -> (r: Option<PrefixMatch>)
    ensures
        r.deep_view() == match_words(Some(words.deep_view()), config.deep_view().mappings),
{
    if words.len() >= 2 {
        let mut two_word = words[0].clone();
        two_word.append(" ");
        two_word.append(words[1].as_str());
        proof {
            reveal_strlit(" ");
            assert(" "@ =~= seq![' ']);
            assert(two_word@ =~= two_word_key(words.deep_view()));
        }
        if let Some(prefix) = config.mappings.get(two_word.as_str()) {
            let prefix = copy_words(prefix.as_slice());
            return Some(PrefixMatch::Confirmed { key: two_word, prefix });
        }
    }
    if words.len() >= 1 {
        if let Some(prefix) = config.mappings.get(words[0].as_str()) {
            let prefix = copy_words(prefix.as_slice());
            return Some(PrefixMatch::Confirmed { key: words[0].clone(), prefix });
        }
    }
    None
}

/// Looks up the prefix for the leading command word(s) of `segment`.
///
/// Returns `None` if `segment` holds `$(` or a backtick, if it cannot be split into words, or if
/// no mapping applies. A two-word key is tried before a single-word one.
pub fn lookup_prefix(segment: &str, config: &PrefixConfig) -> (r: Option<PrefixMatch>)
    ensures
        r.deep_view() == match_segment(segment@, config.deep_view().mappings),
{
    let t = trim(segment);
    if contains_substitution(t) {
        return None;
    }
    match shell_split(t) {
        Some(words) => lookup_words(words.as_slice(), config),
        None => None,
    }
}

/// `s` with `prefix` and a space put before its first character that is not white space.
pub fn prepend(s: &str, prefix: &[String]) -> (r: String)
    ensures
        r@ == with_prefix(s@, prefix.deep_view()),
{
    proof {
        text::lemma_trimmed(s@);
        reveal_strlit(" ");
        assert(" "@ =~= seq![' ']);
    }
    let len = s.unicode_len();
    let from = lead_len(s);
    let t = trim(s);
    let to = from + t.unicode_len();
    let mut out = s.substring_char(0, from).to_owned();
    out.append(join(prefix).as_str());
    out.append(" ");
    out.append(t);
    out.append(s.substring_char(to, len));
    assert(out@ =~= with_prefix(s@, prefix.deep_view()));
    out
}

/// Rewrites the text of a segment whose words are `words`.
pub fn rewrite_text(s: &str, words: &Option<Vec<String>>, config: &PrefixConfig) -> (r: String)
    ensures
        r@ == rewritten_as(s@, words.deep_view(), config.deep_view().mappings),
{
    let t = trim(s);
    if t.is_empty() || contains_substitution(t) {
        return s.to_owned();
    }
    match words {
        Some(words) => match lookup_words(words.as_slice(), config) {
            Some(PrefixMatch::Confirmed { key: _, prefix }) => prepend(s, prefix.as_slice()),
            None => s.to_owned(),
        },
        None => s.to_owned(),
    }
}

/// Rewrites `segs`, where `words` holds the words of each segment.
pub fn rewrite_segments(
    segs: &[Segment],
    words: &[Option<Vec<String>>],
    config: &PrefixConfig,
) -> (r: RewriteResult)
    requires
        words@.len() == segs@.len(),
    ensures
        r.rewritten@ == segment::rejoined(
            rewritten_segments(segs.deep_view(), words.deep_view(), config.deep_view().mappings),
        ),
        r.probes@.len() == 0,
{
    let mut done: Vec<Segment> = Vec::new();
    let ghost goal = rewritten_segments(
        segs.deep_view(),
        words.deep_view(),
        config.deep_view().mappings,
    );
    let mut i: usize = 0;
    while i < segs.len()
        invariant
            words@.len() == segs@.len(),
            i <= segs.len(),
            goal == rewritten_segments(
                segs.deep_view(),
                words.deep_view(),
                config.deep_view().mappings,
            ),
            done@.len() == i,
            forall|k: int| 0 <= k < i ==> (#[trigger] done@[k]).deep_view() == goal[k],
        decreases segs.len() - i,
    {
        let text = rewrite_text(segs[i].text.as_str(), &words[i], config);
        done.push(Segment { text, sep: segs[i].sep.clone() });
        i += 1;
    }
    assert(done.deep_view() =~= goal);
    RewriteResult { rewritten: rejoin(done.as_slice()), probes: Vec::new() }
}

/// The words of each segment.
pub fn split_words(segs: &[Segment]) -> (r: Vec<Option<Vec<String>>>)
    ensures
        r.deep_view() == words_of(segs.deep_view()),
{
    let mut words: Vec<Option<Vec<String>>> = Vec::new();
    let ghost goal = words_of(segs.deep_view());
    let mut i: usize = 0;
    while i < segs.len()
        invariant
            i <= segs.len(),
            goal == words_of(segs.deep_view()),
            words@.len() == i,
            forall|k: int| 0 <= k < i ==> (#[trigger] words@[k]).deep_view() == goal[k],
        decreases segs.len() - i,
    {
        words.push(shell_split(trim(segs[i].text.as_str())));
        i += 1;
    }
    assert(words.deep_view() =~= goal);
    words
}

/// Rewrites `cmd` by prepending the confirmed prefix to each shell segment.
pub fn rewrite_command(cmd: &str, config: &PrefixConfig) -> (r: RewriteResult)
    ensures
        r.rewritten@ == rewritten(cmd@, config.deep_view().mappings),
        r.probes@.len() == 0,
{
    let segs = split_segments(cmd);
    let words = split_words(segs.as_slice());
    proof {
        assert(words.deep_view().len() == segs.deep_view().len());
    }
    rewrite_segments(segs.as_slice(), words.as_slice(), config)
}

/// Rewrites `cmd` with the mappings of `store`.
pub fn rewrite_via_store<P: PrefixStore + ?Sized>(cmd: &str, store: &P) -> (r: RewriteResult)
    ensures
        exists|config: ConfigView| #[trigger]
            store.may_load(config) && r.rewritten@ == rewritten(cmd@, config.mappings),
        r.probes@.len() == 0,
{
    let config = store.load();
    rewrite_command(cmd, &config)
}

/// Port: strategy for rewriting a command.
pub trait CommandRewriter {
    /// Whether `rewrite` of `cmd` may answer with `rewritten` and `probes`.
    open spec fn may_rewrite(
        &self,
        cmd: Seq<char>,
        rewritten: Seq<char>,
        probes: Seq<ProbeView>,
    ) -> bool {
        true
    }

    /// Rewrites a command.
    fn rewrite(&self, cmd: &str) -> (r: RewriteResult)
        ensures
            self.may_rewrite(cmd@, r.rewritten@, r.probes.deep_view()),
    ;
}

/// White space is no part of a substitution: trimming neither makes one nor breaks one.
pub proof fn lemma_substitution_trimmed(s: Seq<char>)
    ensures
        text::has_substitution(text::trimmed(s)) == text::has_substitution(s),
{
    let t = text::trimmed(s);
    let n = text::lead(s);
    text::lemma_trimmed(s);
    if s.contains('`') {
        let i = choose|i: int| 0 <= i < s.len() && s[i] == '`';
        assert(!text::white_space(s[i]));
        assert(t[i - n] == '`');
    }
    if t.contains('`') {
        let i = choose|i: int| 0 <= i < t.len() && t[i] == '`';
        assert(s[i + n] == '`');
    }
    if exists|i: int| 0 <= i < s.len() - 1 && #[trigger] s[i] == '$' && s[i + 1] == '(' {
        let i = choose|i: int| 0 <= i < s.len() - 1 && #[trigger] s[i] == '$' && s[i + 1] == '(';
        assert(!text::white_space(s[i]));
        assert(!text::white_space(s[i + 1]));
        assert(t[i - n] == '$' && t[i - n + 1] == '(');
    }
    if exists|i: int| 0 <= i < t.len() - 1 && #[trigger] t[i] == '$' && t[i + 1] == '(' {
        let i = choose|i: int| 0 <= i < t.len() - 1 && #[trigger] t[i] == '$' && t[i + 1] == '(';
        assert(s[i + n] == '$' && s[i + n + 1] == '(');
    }
}

/// A text with a command substitution has no mapping and is never rewritten.
pub proof fn law_substitution_left_alone(
    s: Seq<char>,
    mappings: Map<Seq<char>, Seq<Seq<char>>>,
)
    requires
        text::has_substitution(s),
    ensures
        match_segment(s, mappings) is None,
        rewritten_text(s, mappings) == s,
{
    lemma_substitution_trimmed(s);
}

/// White space around a segment does not matter to its mapping.
pub proof fn law_lookup_trimmed(s: Seq<char>, mappings: Map<Seq<char>, Seq<Seq<char>>>)
    ensures
        match_segment(text::trimmed(s), mappings) == match_segment(s, mappings),
{
    text::lemma_trimmed_idempotent(s);
}

/// The mapping of the first two words wins over that of the first word.
pub proof fn law_two_words_win(
    words: Seq<Seq<char>>,
    mappings: Map<Seq<char>, Seq<Seq<char>>>,
)
    requires
        words.len() >= 2,
        mappings.contains_key(two_word_key(words)),
    ensures
        match_words(Some(words), mappings) == Some(
            MatchView { key: two_word_key(words), prefix: mappings[two_word_key(words)] },
        ),
{
}

/// What is found is a confirmed mapping, under the key that it was found by.
pub proof fn law_found_is_mapped(segment: Seq<char>, mappings: Map<Seq<char>, Seq<Seq<char>>>)
    ensures
        match_segment(segment, mappings) matches Some(m) ==> mappings.contains_key(m.key)
            && mappings[m.key] == m.prefix,
{
}

/// Candidates rewrite nothing: only the confirmed mappings of a config count.
pub proof fn law_candidates_rewrite_nothing(cmd: Seq<char>, a: ConfigView, b: ConfigView)
    requires
        a.mappings == b.mappings,
    ensures
        rewritten(cmd, a.mappings) == rewritten(cmd, b.mappings),
        match_segment(cmd, a.mappings) == match_segment(cmd, b.mappings),
{
}

/// A command of which no segment has a mapping passes through unchanged.
pub proof fn law_unmatched_unchanged(cmd: Seq<char>, mappings: Map<Seq<char>, Seq<Seq<char>>>)
    requires
        forall|i: int|
            0 <= i < segment::segments(cmd).len() ==> match_segment(
                (#[trigger] segment::segments(cmd)[i]).text,
                mappings,
            ) is None,
    ensures
        rewritten(cmd, mappings) == cmd,
{
    let segs = segment::segments(cmd);
    assert(rewritten_segments(segs, words_of(segs), mappings) =~= segs) by {
        assert forall|i: int| 0 <= i < segs.len() implies #[trigger] rewritten_segments(
            segs,
            words_of(segs),
            mappings,
        )[i] == segs[i] by {
            assert(match_segment(segs[i].text, mappings) is None);
        }
    }
    segment::law_split_rejoin(cmd);
}

/// Without mappings every command passes through unchanged.
pub proof fn law_no_mappings_unchanged(cmd: Seq<char>)
    ensures
        rewritten(cmd, Map::empty()) == cmd,
{
    law_unmatched_unchanged(cmd, Map::empty());
}

/// Rewriting a segment only ever inserts: the prefix goes between the leading white space and
/// the rest, and nothing of the segment is lost or moved.
pub proof fn law_only_inserts(s: Seq<char>, mappings: Map<Seq<char>, Seq<Seq<char>>>)
    ensures
        rewritten_text(s, mappings) == s || (match_segment(s, mappings) matches Some(m)
            && rewritten_text(s, mappings) == text::leading(s) + (text::joined(m.prefix)
            + seq![' ']) + s.skip(text::lead(s))),
{
    text::lemma_trimmed(s);
    if rewritten_text(s, mappings) != s {
        let m = match_segment(s, mappings)->0;
        assert(s.skip(text::lead(s)) =~= text::trimmed(s) + text::trailing(s));
        assert(rewritten_text(s, mappings) =~= text::leading(s) + (text::joined(m.prefix)
            + seq![' ']) + s.skip(text::lead(s)));
    }
}

/// A segment with a mapping gets its prefix.
pub proof fn law_matched_is_prefixed(s: Seq<char>, mappings: Map<Seq<char>, Seq<Seq<char>>>)
    requires
        text::trimmed(s).len() > 0,
        match_segment(s, mappings) is Some,
    ensures
        rewritten_text(s, mappings) == with_prefix(s, match_segment(s, mappings)->0.prefix),
{
}

/// Each segment of a compound command is rewritten on its own: where a command is `left`, a
/// separator and `right`, the rewritten command is `left` rewritten, the separator and `right`
/// rewritten.
pub proof fn law_compound(
    left: Seq<char>,
    sep: Seq<char>,
    right: Seq<char>,
    mappings: Map<Seq<char>, Seq<Seq<char>>>,
)
    requires
        segment::is_separator(sep),
        segment::stands_alone(left, sep, right),
    ensures
        rewritten(left + sep + right, mappings) == rewritten(left, mappings) + sep + rewritten(
            right,
            mappings,
        ),
{
    let head = segment::segments(left);
    let first = segment::ended(head, sep);
    let tail = segment::segments(right);
    let segs = first + tail;
    segment::law_split_compound(left, sep, right);
    segment::law_split_canonical(left);
    let done_first = rewritten_segments(first, words_of(first), mappings);
    let done_tail = rewritten_segments(tail, words_of(tail), mappings);
    let done_head = rewritten_segments(head, words_of(head), mappings);
    assert(rewritten_segments(segs, words_of(segs), mappings) =~= done_first + done_tail) by {
        assert forall|i: int| 0 <= i < segs.len() implies #[trigger] rewritten_segments(
            segs,
            words_of(segs),
            mappings,
        )[i] == (done_first + done_tail)[i] by {
            if i < first.len() {
                assert(segs[i] == first[i]);
            } else {
                assert(segs[i] == tail[i - first.len()]);
            }
        }
    }
    segment::law_rejoin_concat(done_first, done_tail);
    assert(done_first =~= segment::ended(done_head, sep)) by {
        assert forall|i: int| 0 <= i < head.len() implies #[trigger] done_first[i]
            == segment::ended(done_head, sep)[i] by {
            if i < head.len() - 1 {
                assert(first[i] == head[i]);
            }
        }
    }
    segment::lemma_last(head);
    segment::lemma_ended(done_head, sep);
    assert(rewritten(left + sep + right, mappings) =~= rewritten(left, mappings) + sep + rewritten(
        right,
        mappings,
    ));
}

/// What stands on the two sides of a semicolon is rewritten on its own.
pub proof fn law_compound_semicolon(
    left: Seq<char>,
    right: Seq<char>,
    mappings: Map<Seq<char>, Seq<Seq<char>>>,
)
    ensures
        rewritten(left + seq![';'] + right, mappings) == rewritten(left, mappings) + seq![';']
            + rewritten(right, mappings),
{
    let sep = seq![';'];
    assert(sep[0] == ';');
    assert(sep.len() == 1);
    assert(seq!['|'][0] == '|');
    law_compound(left, sep, right, mappings);
}

/// A command without a separator is rewritten as one segment.
pub proof fn law_simple(cmd: Seq<char>, mappings: Map<Seq<char>, Seq<Seq<char>>>)
    requires
        segment::separator_free(cmd),
    ensures
        rewritten(cmd, mappings) == rewritten_text(cmd, mappings),
{
    let segs = seq![SegmentView { text: cmd, sep: None }];
    let rest = segs.drop_first();
    assert(rest.len() == 0);
    assert(segment::rejoined(rest) =~= seq![]);
    assert(segment::rejoined(segs) =~= cmd);
    assert(segment::canonical(segs));
    segment::law_rejoin_split(segs);
    let done = rewritten_segments(segs, words_of(segs), mappings);
    let after = done.drop_first();
    assert(after.len() == 0);
    assert(segment::rejoined(after) =~= seq![]);
    assert(rewritten(cmd, mappings) =~= rewritten_text(cmd, mappings));
}

/// A text that is not blank, and holds neither a backtick nor a dollar sign directly before an
/// opening bracket, gets the prefix of its mapping: that of its first two words with a space
/// between them where there is one, and else that of its first word. The prefix and a space go
/// between the white space before the text and the text; nothing else changes.
pub proof fn law_prefixed(
    a: Seq<char>,
    t: Seq<char>,
    b: Seq<char>,
    words: Seq<Seq<char>>,
    key: Seq<char>,
    mappings: Map<Seq<char>, Seq<Seq<char>>>,
)
    requires
        forall|i: int| 0 <= i < a.len() ==> text::white_space(#[trigger] a[i]),
        forall|i: int| 0 <= i < b.len() ==> text::white_space(#[trigger] b[i]),
        t.len() > 0,
        !text::white_space(t[0]),
        !text::white_space(t[t.len() - 1]),
        forall|i: int| 0 <= i < t.len() ==> #[trigger] t[i] != '`',
        forall|i: int| 0 <= i < t.len() - 1 ==> !(#[trigger] t[i] == '$' && t[i + 1] == '('),
        mappings.contains_key(key),
        words.len() >= 2 && key == words[0] + seq![' '] + words[1] || words.len() >= 1 && key
            == words[0] && (words.len() >= 2 ==> !mappings.contains_key(
            words[0] + seq![' '] + words[1],
        )),
    ensures
        match_words(Some(words), mappings) == Some(MatchView { key, prefix: mappings[key] }),
        rewritten_as(a + t + b, Some(words), mappings) == a + text::joined(mappings[key])
            + seq![' '] + t + b,
        outside::shell_words_of(t) == Some(words) ==> match_segment(a + t + b, mappings) == Some(
            MatchView { key, prefix: mappings[key] },
        ),
        outside::shell_words_of(t) == Some(words) ==> rewritten_text(a + t + b, mappings) == a
            + text::joined(mappings[key]) + seq![' '] + t + b,
{
    text::law_trim(a, t, b);
    text::law_substitution(t);
    let s = a + t + b;
    if words.len() >= 2 && key == words[0] {
        assert(two_word_key(words).len() > key.len());
    }
    assert(with_prefix(s, mappings[key]) =~= a + text::joined(mappings[key]) + seq![' '] + t + b);
}

/// A text stays as it is, and has no mapping, where a backtick occurs in it or a dollar sign
/// directly before an opening bracket, where it cannot be split into words or has none, and where
/// neither its first word nor its first two are mapped.
pub proof fn law_unprefixed(
    s: Seq<char>,
    words: Option<Seq<Seq<char>>>,
    mappings: Map<Seq<char>, Seq<Seq<char>>>,
)
    ensures
        (exists|i: int| 0 <= i < s.len() && #[trigger] s[i] == '`') || (exists|i: int|
            0 <= i < s.len() - 1 && #[trigger] s[i] == '$' && s[i + 1] == '(') ==> rewritten_as(
            s,
            words,
            mappings,
        ) == s && match_segment(s, mappings) is None,
        (forall|i: int| 0 <= i < s.len() ==> text::white_space(#[trigger] s[i])) ==> rewritten_as(
            s,
            words,
            mappings,
        ) == s,
        words is None || words->0.len() == 0 || (!mappings.contains_key(words->0[0]) && (
        words->0.len() >= 2 ==> !mappings.contains_key(
            words->0[0] + seq![' '] + words->0[1],
        ))) ==> rewritten_as(s, words, mappings) == s && match_words(words, mappings) is None && (
        words == outside::shell_words_of(text::trimmed(s)) ==> match_segment(s, mappings) is None),
{
    lemma_substitution_trimmed(s);
    text::law_substitution(s);
    if forall|i: int| 0 <= i < s.len() ==> text::white_space(#[trigger] s[i]) {
        text::law_trim_blank(s);
    }
}

/// A whole command is rewritten segment by segment. One in which no separator occurs is rewritten
/// as a text; and what stands on the two sides of its first separator is rewritten on its own,
/// with the separator between.
pub proof fn law_rewritten(
    left: Seq<char>,
    sep: Seq<char>,
    right: Seq<char>,
    mappings: Map<Seq<char>, Seq<Seq<char>>>,
)
    requires
        forall|i: int| 0 <= i < left.len() ==> #[trigger] left[i] != ';' && left[i] != '|',
        forall|i: int|
            0 <= i < left.len() - 1 ==> !(#[trigger] left[i] == '&' && left[i + 1] == '&'),
        sep == seq!['&', '&'] || sep == seq!['|', '|'] || sep == seq![';'] || sep == seq!['|'],
        sep == seq!['&', '&'] && left.len() > 0 ==> left[left.len() - 1] != '&',
        sep == seq!['|'] && right.len() > 0 ==> right[0] != '|',
    ensures
        rewritten(left, mappings) == rewritten_as(
            left,
            outside::shell_words_of(text::trimmed(left)),
            mappings,
        ),
        rewritten(left + sep + right, mappings) == rewritten(left, mappings) + sep + rewritten(
            right,
            mappings,
        ),
{
    segment::law_split_plain(left);
    law_simple(left, mappings);
    segment::law_split_first(left, sep, right);
    law_compound(left, sep, right, mappings);
}

/// Given the words of each segment, each is rewritten by its own words, and keeps its separator.
pub proof fn law_each_segment(
    segs: Seq<SegmentView>,
    words: Seq<Option<Seq<Seq<char>>>>,
    mappings: Map<Seq<char>, Seq<Seq<char>>>,
    i: int,
)
    requires
        0 <= i < segs.len(),
    ensures
        rewritten_segments(segs, words, mappings).len() == segs.len(),
        rewritten_segments(segs, words, mappings)[i].text == rewritten_as(
            segs[i].text,
            words[i],
            mappings,
        ),
        rewritten_segments(segs, words, mappings)[i].sep == segs[i].sep,
        words_of(segs).len() == segs.len(),
        words_of(segs)[i] == outside::shell_words_of(text::trimmed(segs[i].text)),
{
}

/// A prefix and a space go between the white space before a text and the text, and behind a text
/// that is all white space.
pub proof fn law_with_prefix(
    a: Seq<char>,
    t: Seq<char>,
    b: Seq<char>,
    prefix: Seq<Seq<char>>,
)
    requires
        forall|i: int| 0 <= i < a.len() ==> text::white_space(#[trigger] a[i]),
        forall|i: int| 0 <= i < b.len() ==> text::white_space(#[trigger] b[i]),
        t.len() > 0,
        !text::white_space(t[0]),
        !text::white_space(t[t.len() - 1]),
    ensures
        with_prefix(a + t + b, prefix) == a + text::joined(prefix) + seq![' '] + t + b,
        with_prefix(a, prefix) == a + text::joined(prefix) + seq![' '],
{
    text::law_trim(a, t, b);
    text::law_trim_blank(a);
    assert(with_prefix(a + t + b, prefix) =~= a + text::joined(prefix) + seq![' '] + t + b);
    assert(with_prefix(a, prefix) =~= a + text::joined(prefix) + seq![' ']);
}

/// What contracts see of a match is its key and its prefix.
pub proof fn law_seen_as_held(key: String, prefix: Vec<String>)
    ensures
        (PrefixMatch::Confirmed { key, prefix }).deep_view() == (MatchView {
            key: key@,
            prefix: prefix.deep_view(),
        }),
{
}

/// A command in which no separator, no backtick and no dollar sign directly before an opening
/// bracket occurs, and which is not blank, is rewritten to the command with the prefix of its
/// mapping: that of its first two words, or else of its first.
pub proof fn law_simple_prefixed(
    a: Seq<char>,
    t: Seq<char>,
    b: Seq<char>,
    words: Seq<Seq<char>>,
    key: Seq<char>,
    mappings: Map<Seq<char>, Seq<Seq<char>>>,
)
    requires
        forall|i: int| 0 <= i < a.len() ==> text::white_space(#[trigger] a[i]),
        forall|i: int| 0 <= i < b.len() ==> text::white_space(#[trigger] b[i]),
        t.len() > 0,
        !text::white_space(t[0]),
        !text::white_space(t[t.len() - 1]),
        forall|i: int|
            0 <= i < t.len() ==> #[trigger] t[i] != ';' && t[i] != '|' && t[i] != '`',
        forall|i: int|
            0 <= i < t.len() - 1 ==> !(#[trigger] t[i] == '&' && t[i + 1] == '&') && !(t[i] == '$'
                && t[i + 1] == '('),
        outside::shell_words_of(t) == Some(words),
        mappings.contains_key(key),
        words.len() >= 2 && key == words[0] + seq![' '] + words[1] || words.len() >= 1 && key
            == words[0] && (words.len() >= 2 ==> !mappings.contains_key(
            words[0] + seq![' '] + words[1],
        )),
    ensures
        rewritten(a + t + b, mappings) == a + text::joined(mappings[key]) + seq![' '] + t + b,
{
    segment::lemma_plain_around(a, t, b);
    law_prefixed(a, t, b, words, key, mappings);
    let segs = segment::segments(a + t + b);
    let done = rewritten_segments(segs, words_of(segs), mappings);
    assert(done[0].text == rewritten_text(a + t + b, mappings));
    let after = done.drop_first();
    assert(after.len() == 0);
    assert(segment::rejoined(after) =~= seq![]);
    assert(segment::rejoined(done) =~= done[0].text);
}

} // verus!
