//! Splitting a compound command into its segments, and joining them again.

use vstd::prelude::*;

use crate::text::{self, chars_of};

verus! {

/// One shell segment plus the separator that followed it (if any).
#[derive(Debug, Clone, PartialEq)]
pub struct Segment {
    /// The raw text of this segment (may have leading/trailing spaces).
    pub text: String,
    /// The separator that ended this segment: `&&`, `||`, `;`, or `|`.
    pub sep: Option<String>,
}

/// What a [`Segment`] holds.
#[verifier::ext_equal]
pub struct SegmentView {
    pub text: Seq<char>,
    pub sep: Option<Seq<char>>,
}

impl DeepView for Segment {
    type V = SegmentView;

    open spec fn deep_view(&self) -> SegmentView {
        SegmentView { text: self.text@, sep: self.sep.deep_view() }
    }
}

/// The length of the separator that starts at `i` in `s`: the longest of `&&`, `||`, `;` and `|`
/// that stands there, or 0 where none does.
pub open spec fn sep_len(s: Seq<char>, i: int) -> int {
    if i < 0 || i >= s.len() {
        0
    } else if i + 1 < s.len() && s[i] == s[i + 1] && (s[i] == '&' || s[i] == '|') {
        2
    } else if s[i] == ';' || s[i] == '|' {
        1
    } else {
        0
    }
}

/// Where the first separator at or after `i` starts in `s`, or the end of `s`.
pub open spec fn sep_from(s: Seq<char>, i: int) -> int
    decreases s.len() - i,
{
    if i >= s.len() {
        s.len() as int
    } else if sep_len(s, i) > 0 {
        i
    } else {
        sep_from(s, i + 1)
    }
}

/// The segments of `s`: the text before each separator with that separator, and the text after
/// the last.
pub open spec fn segments(s: Seq<char>) -> Seq<SegmentView>
    decreases s.len(),
{
    let p = sep_from(s, 0);
    let n = sep_len(s, p);
    if n <= 0 || p < 0 {
        seq![SegmentView { text: s, sep: None }]
    } else {
        seq![SegmentView { text: s.take(p), sep: Some(s.subrange(p, p + n)) }] + segments(
            s.skip(p + n),
        )
    }
}

/// The text of one segment together with its separator.
pub open spec fn segment_text(seg: SegmentView) -> Seq<char> {
    match seg.sep {
        Some(sep) => seg.text + sep,
        None => seg.text,
    }
}

/// The segments put behind one another, each followed by its separator.
pub open spec fn rejoined(segs: Seq<SegmentView>) -> Seq<char>
    decreases segs.len(),
{
    if segs.len() == 0 {
        seq![]
    } else {
        segment_text(segs[0]) + rejoined(segs.drop_first())
    }
}

/// Whether no separator stands in `s`.
pub open spec fn separator_free(s: Seq<char>) -> bool {
    forall|i: int| 0 <= i < s.len() ==> #[trigger] sep_len(s, i) == 0
}

/// Whether `s` is one of the separators.
pub open spec fn is_separator(s: Seq<char>) -> bool {
    ||| s == seq!['&', '&']
    ||| s == seq!['|', '|']
    ||| s == seq![';']
    ||| s == seq!['|']
}

/// Whether `segs` are the segments of some command: at least one; each but the last ends in a
/// separator, the last in none; no text holds a separator; and no separator could be read
/// elsewhere or longer where the pieces meet.
pub open spec fn canonical(segs: Seq<SegmentView>) -> bool
    decreases segs.len(),
{
    if segs.len() == 0 {
        false
    } else if segs.len() == 1 {
        segs[0].sep is None && separator_free(segs[0].text)
    } else {
        let text = segs[0].text;
        let rest = segs.drop_first();
        &&& separator_free(text)
        &&& segs[0].sep is Some
        &&& is_separator(segs[0].sep->0)
        &&& segs[0].sep->0 == seq!['&', '&'] ==> (text.len() == 0 || text.last() != '&')
        &&& segs[0].sep->0 == seq!['|'] ==> (rejoined(rest).len() == 0 || rejoined(rest)[0] != '|')
        &&& canonical(rest)
    }
}

proof fn lemma_sep_from(s: Seq<char>, i: int)
    requires
        0 <= i <= s.len(),
    ensures
        i <= sep_from(s, i) <= s.len(),
        sep_from(s, i) < s.len() ==> sep_len(s, sep_from(s, i)) > 0,
        forall|j: int| i <= j < sep_from(s, i) ==> #[trigger] sep_len(s, j) == 0,
    decreases s.len() - i,
{
    if i < s.len() && sep_len(s, i) <= 0 {
        lemma_sep_from(s, i + 1);
    }
}

proof fn lemma_sep_from_is(s: Seq<char>, i: int, p: int)
    requires
        0 <= i <= p <= s.len(),
        forall|j: int| i <= j < p ==> #[trigger] sep_len(s, j) == 0,
        p < s.len() ==> sep_len(s, p) > 0,
    ensures
        sep_from(s, i) == p,
    decreases p - i,
{
    if i < p {
        assert(sep_len(s, i) == 0);
        lemma_sep_from_is(s, i + 1, p);
    }
}

/// Splitting loses nothing: joining the segments of a command gives the command back.
pub proof fn law_split_rejoin(s: Seq<char>)
    ensures
        rejoined(segments(s)) == s,
    decreases s.len(),
{
    lemma_sep_from(s, 0);
    let p = sep_from(s, 0);
    let n = sep_len(s, p);
    if n <= 0 {
        let rest = segments(s).drop_first();
        assert(rest.len() == 0);
        assert(rejoined(rest) =~= seq![]);
        assert(rejoined(segments(s)) =~= s);
    } else {
        law_split_rejoin(s.skip(p + n));
        assert(segments(s).drop_first() =~= segments(s.skip(p + n)));
        assert(rejoined(segments(s)) =~= s.take(p) + s.subrange(p, p + n) + s.skip(p + n));
        assert(rejoined(segments(s)) =~= s);
    }
}

/// Every command has at least one segment, and its segments are canonical: separators stand
/// only between them, and `||` is never taken for `|`.
pub proof fn law_split_canonical(s: Seq<char>)
    ensures
        segments(s).len() >= 1,
        canonical(segments(s)),
    decreases s.len(),
{
    lemma_sep_from(s, 0);
    let p = sep_from(s, 0);
    let n = sep_len(s, p);
    if n <= 0 {
        assert(separator_free(s));
    } else {
        let text = s.take(p);
        let sep = s.subrange(p, p + n);
        let rest = s.skip(p + n);
        law_split_canonical(rest);
        law_split_rejoin(rest);
        assert(segments(s).drop_first() =~= segments(rest));
        assert forall|i: int| 0 <= i < text.len() implies #[trigger] sep_len(text, i) == 0 by {
            assert(sep_len(s, i) == 0);
        }
        if n == 2 {
            assert(sep =~= seq![s[p], s[p]]);
            if p > 0 && s[p - 1] == '&' && s[p] == '&' {
                assert(sep_len(s, p - 1) == 2);
            }
            assert(text.len() > 0 ==> text.last() == s[p - 1]);
        } else {
            assert(sep =~= seq![s[p]]);
            assert(sep[0] == s[p]);
            assert(seq!['|'][0] == '|');
            if rest.len() > 0 {
                assert(rest[0] == s[p + 1]);
            }
            assert(sep != seq!['&', '&']) by {
                assert(sep.len() == 1);
            }
        }
        assert(is_separator(sep));
    }
}

/// Joining undoes splitting the other way round too: canonical segments come back when what
/// they join to is split.
pub proof fn law_rejoin_split(segs: Seq<SegmentView>)
    requires
        canonical(segs),
    ensures
        segments(rejoined(segs)) == segs,
    decreases segs.len(),
{
    let text = segs[0].text;
    let rest = segs.drop_first();
    let s = rejoined(segs);
    if segs.len() == 1 {
        assert(rejoined(rest) =~= seq![]);
        assert(s =~= text);
        lemma_sep_from_is(s, 0, s.len() as int);
        assert(segments(s) =~= segs);
    } else {
        let sep = segs[0].sep->0;
        let p = text.len() as int;
        let n = sep.len() as int;
        law_rejoin_split(rest);
        assert(s =~= text + sep + rejoined(rest));
        assert(s.skip(p + n) =~= rejoined(rest));
        assert(s.take(p) =~= text);
        assert(s.subrange(p, p + n) =~= sep);
        assert(s[p] == sep[0]);
        assert(n == 2 ==> s[p + 1] == sep[1]);
        assert(n == 1 && rejoined(rest).len() > 0 ==> s[p + 1] == rejoined(rest)[0]);
        assert(sep == seq!['&', '&'] ==> sep[0] == '&' && sep[1] == '&');
        assert(sep == seq!['|', '|'] ==> sep[0] == '|' && sep[1] == '|');
        assert(sep == seq![';'] ==> sep[0] == ';');
        assert(sep == seq!['|'] ==> sep[0] == '|');
        assert(sep_len(s, p) == n);
        assert forall|j: int| 0 <= j < p implies #[trigger] sep_len(s, j) == 0 by {
            assert(sep_len(text, j) == 0);
            assert(s[j] == text[j]);
            if j + 1 < p {
                assert(s[j + 1] == text[j + 1]);
            } else {
                assert(text[j] == text.last());
            }
        }
        lemma_sep_from_is(s, 0, p);
        assert(segments(s) =~= segs);
    }
}

/// Joining two lists of segments behind one another joins each and puts the results behind one
/// another.
pub proof fn law_rejoin_concat(a: Seq<SegmentView>, b: Seq<SegmentView>)
    ensures
        rejoined(a + b) == rejoined(a) + rejoined(b),
    decreases a.len(),
{
    if a.len() == 0 {
        assert(a + b =~= b);
        assert(rejoined(a) + rejoined(b) =~= rejoined(b));
    } else {
        assert((a + b).drop_first() =~= a.drop_first() + b);
        law_rejoin_concat(a.drop_first(), b);
        assert(rejoined(a + b) =~= rejoined(a) + rejoined(b));
    }
}

/// The segments with `sep` behind the last.
pub open spec fn ended(segs: Seq<SegmentView>, sep: Seq<char>) -> Seq<SegmentView> {
    segs.drop_last().push(SegmentView { text: segs.last().text, sep: Some(sep) })
}

/// Whether `sep` between `left` and `right` is read as the separator that it is: it makes no `&&`
/// with an ampersand before it, and no `||` with a bar before or behind it.
pub open spec fn stands_alone(left: Seq<char>, sep: Seq<char>, right: Seq<char>) -> bool {
    let segs = segments(left);
    let text = segs.last().text;
    &&& sep == seq!['&', '&'] ==> (text.len() == 0 || text.last() != '&')
    &&& sep == seq!['|'] ==> (right.len() == 0 || right[0] != '|')
    &&& sep[0] == '|' && text.len() == 0 && segs.len() >= 2 ==> segs[segs.len() - 2].sep != Some(
        seq!['|'],
    )
}

/// A command of two with a separator between them has the segments of the first, the last ended
/// by the separator, and those of the second.
pub proof fn law_split_compound(left: Seq<char>, sep: Seq<char>, right: Seq<char>)
    requires
        is_separator(sep),
        stands_alone(left, sep, right),
    ensures
        segments(left + sep + right) == ended(segments(left), sep) + segments(right),
{
    let segs = segments(left);
    law_split_canonical(left);
    law_split_rejoin(left);
    law_split_canonical(right);
    law_split_rejoin(right);
    lemma_canonical_join(segs, sep, segments(right));
    let whole = ended(segs, sep) + segments(right);
    lemma_last(segs);
    lemma_ended(segs, sep);
    law_rejoin_concat(ended(segs, sep), segments(right));
    assert(rejoined(whole) =~= left + sep + right);
    law_rejoin_split(whole);
}

/// A semicolon always splits: the segments on its two sides are those of the two sides.
pub proof fn law_split_semicolon(left: Seq<char>, right: Seq<char>)
    ensures
        segments(left + seq![';'] + right) == ended(segments(left), seq![';']) + segments(right),
{
    let sep = seq![';'];
    assert(sep[0] == ';');
    assert(sep.len() == 1);
    assert(seq!['|'][0] == '|');
    law_split_compound(left, sep, right);
}

/// A separator behind the last segment comes behind what the segments join to.
pub proof fn lemma_ended(segs: Seq<SegmentView>, sep: Seq<char>)
    requires
        segs.len() > 0,
        segs.last().sep is None,
    ensures
        rejoined(ended(segs, sep)) == rejoined(segs) + sep,
    decreases segs.len(),
{
    let rest = segs.drop_first();
    let all = ended(segs, sep);
    if segs.len() == 1 {
        assert(rejoined(rest) =~= seq![]);
        assert(rejoined(all.drop_first()) =~= seq![]);
        assert(rejoined(all) =~= rejoined(segs) + sep);
    } else {
        lemma_ended(rest, sep);
        assert(all.drop_first() =~= ended(rest, sep));
        assert(rejoined(all) =~= rejoined(segs) + sep);
    }
}

proof fn lemma_canonical_join(segs: Seq<SegmentView>, sep: Seq<char>, tail: Seq<SegmentView>)
    requires
        canonical(segs),
        canonical(tail),
        is_separator(sep),
        sep == seq!['&', '&'] ==> (segs.last().text.len() == 0 || segs.last().text.last() != '&'),
        sep == seq!['|'] ==> (rejoined(tail).len() == 0 || rejoined(tail)[0] != '|'),
        sep[0] == '|' && segs.last().text.len() == 0 && segs.len() >= 2 ==> segs[segs.len()
            - 2].sep != Some(seq!['|']),
    ensures
        canonical(ended(segs, sep) + tail),
        segs.len() >= 2 || segs[0].text.len() > 0 ==> rejoined(ended(segs, sep) + tail).len() > 0
            && (rejoined(segs).len() > 0 ==> rejoined(ended(segs, sep) + tail)[0] == rejoined(
            segs,
        )[0]),
        segs.len() == 1 && segs[0].text.len() == 0 ==> rejoined(ended(segs, sep) + tail).len() > 0
            && rejoined(ended(segs, sep) + tail)[0] == sep[0],
    decreases segs.len(),
{
    let all = ended(segs, sep) + tail;
    let rest = segs.drop_first();
    law_rejoin_concat(ended(segs, sep), tail);
    lemma_last(segs);
    lemma_ended(segs, sep);
    assert(rejoined(all) =~= rejoined(segs) + sep + rejoined(tail));
    assert(sep.len() > 0) by {
        assert(seq!['&', '&'].len() == 2);
        assert(seq!['|', '|'].len() == 2);
    }
    if segs.len() == 1 {
        assert(rejoined(rest) =~= seq![]);
        assert(rejoined(segs) =~= segs[0].text);
        assert(all.drop_first() =~= tail);
        assert(all[0] == (SegmentView { text: segs[0].text, sep: Some(sep) }));
    } else {
        assert(rest.last() == segs.last());
        if rest.len() >= 2 {
            assert(rest[rest.len() - 2] == segs[segs.len() - 2]);
        }
        lemma_canonical_join(rest, sep, tail);
        assert(all.drop_first() =~= ended(rest, sep) + tail);
        assert(all[0] == segs[0]);
        if segs[0].sep == Some(seq!['|']) {
            if rest.len() == 1 && rest[0].text.len() == 0 {
                assert(segs[segs.len() - 2] == segs[0]);
                assert(sep[0] != '|');
            } else if rejoined(rest).len() == 0 {
                lemma_not_empty(rest);
            }
        }
    }
}

/// The last of canonical segments has no separator.
pub proof fn lemma_last(segs: Seq<SegmentView>)
    requires
        canonical(segs),
    ensures
        segs.last().sep is None,
    decreases segs.len(),
{
    if segs.len() >= 2 {
        lemma_last(segs.drop_first());
    }
}

proof fn lemma_not_empty(segs: Seq<SegmentView>)
    requires
        canonical(segs),
        segs.len() >= 2 || segs[0].text.len() > 0,
    ensures
        rejoined(segs).len() > 0,
{
    if segs.len() >= 2 {
        assert(segs[0].sep->0.len() > 0) by {
            assert(seq!['&', '&'].len() == 2);
            assert(seq!['|', '|'].len() == 2);
        }
    }
}

/// Splits a command into segments on `&&`, `||`, `;`, `|`.
///
/// White space stays in the segments, so that [`rejoin`] loses nothing. Quotes are not
/// considered: the splitting is purely textual. Where two separators match at the same place
/// the longer one wins (`||` beats `|`).
pub fn split_segments(cmd: &str) -> (r: Vec<Segment>)
    ensures
        r.deep_view() == segments(cmd@),
        r@.len() >= 1,
{
    let chars = chars_of(cmd);
    let mut result: Vec<Segment> = Vec::new();
    let mut start: usize = 0;
    let mut p: usize = 0;
    proof {
        assert(cmd@.skip(0) =~= cmd@);
        assert(result.deep_view() + segments(cmd@) =~= segments(cmd@));
    }
    while p < chars.len()
        invariant
            chars@ == cmd@,
            start <= p <= chars.len(),
            segments(cmd@) == result.deep_view() + segments(cmd@.skip(start as int)),
            forall|j: int| start <= j < p ==> #[trigger] sep_len(cmd@, j) == 0,
        decreases chars.len() - p,
    {
        let n: usize = if p + 1 < chars.len() && chars[p] == chars[p + 1] && (chars[p] == '&'
            || chars[p] == '|') {
            2
        } else if chars[p] == ';' || chars[p] == '|' {
            1
        } else {
            0
        };
        assert(n == sep_len(cmd@, p as int));
        if n == 0 {
            p += 1;
        } else {
            let ghost before = result.deep_view();
            let seg = Segment {
                text: cmd.substring_char(start, p).to_owned(),
                sep: Some(cmd.substring_char(p, p + n).to_owned()),
            };
            let ghost v = seg.deep_view();
            result.push(seg);
            proof {
                let t = cmd@.skip(start as int);
                lemma_shift(cmd@, start as int, p as int);
                let q = p - start;
                assert(t.take(q) =~= cmd@.subrange(start as int, p as int));
                assert(t.subrange(q, q + n) =~= cmd@.subrange(p as int, p + n));
                assert(t.skip(q + n) =~= cmd@.skip(p + n));
                assert(result.deep_view() =~= before.push(v));
                assert(v == (SegmentView { text: t.take(q), sep: Some(t.subrange(q, q + n)) }));
                assert(before + segments(t) =~= result.deep_view() + segments(cmd@.skip(p + n)));
            }
            p += n;
            start = p;
        }
    }
    let ghost before = result.deep_view();
    result.push(Segment { text: cmd.substring_char(start, chars.len()).to_owned(), sep: None });
    proof {
        let t = cmd@.skip(start as int);
        lemma_shift(cmd@, start as int, p as int);
        assert(t =~= cmd@.subrange(start as int, cmd@.len() as int));
        assert(result.deep_view() =~= before + segments(t));
    }
    result
}

/// Where the first separator of `s` from `start` on stands, seen from `start`.
proof fn lemma_shift(s: Seq<char>, start: int, p: int)
    requires
        0 <= start <= p <= s.len(),
        forall|j: int| start <= j < p ==> #[trigger] sep_len(s, j) == 0,
        p < s.len() ==> sep_len(s, p) > 0,
    ensures
        sep_from(s.skip(start), 0) == p - start,
        sep_len(s.skip(start), p - start) == sep_len(s, p),
{
    let t = s.skip(start);
    assert forall|j: int| 0 <= j < p - start implies #[trigger] sep_len(t, j) == 0 by {
        assert(sep_len(s, j + start) == 0);
    }
    lemma_sep_from_is(t, 0, p - start);
}

/// Puts the segments behind one another, each followed by its separator.
pub fn rejoin(segs: &[Segment]) -> (r: String)
    ensures
        r@ == rejoined(segs.deep_view()),
{
    let mut out = String::new();
    let ghost all = segs.deep_view();
    let mut i: usize = 0;
    proof {
        assert(all.skip(0) =~= all);
        assert(out@ + rejoined(all) =~= rejoined(all));
    }
    while i < segs.len()
        invariant
            all == segs.deep_view(),
            i <= segs.len(),
            rejoined(all) == out@ + rejoined(all.skip(i as int)),
        decreases segs.len() - i,
    {
        let ghost before = out@;
        proof {
            assert(all.skip(i as int)[0] == segs@[i as int].deep_view());
            assert(all.skip(i as int).drop_first() =~= all.skip(i + 1));
        }
        out.append(segs[i].text.as_str());
        if let Some(sep) = &segs[i].sep {
            out.append(sep.as_str());
        }
        assert(out@ =~= before + segment_text(segs@[i as int].deep_view()));
        assert(before + (segment_text(segs@[i as int].deep_view()) + rejoined(all.skip(i + 1)))
            =~= out@ + rejoined(all.skip(i + 1)));
        i += 1;
    }
    assert(out@ + rejoined(all.skip(i as int)) =~= out@);
    out
}

/// Port: strategy for splitting and rejoining compound commands.
pub trait CommandSplitter {
    /// Whether `split` of `cmd` may answer with `segs`.
    open spec fn may_split(&self, cmd: Seq<char>, segs: Seq<SegmentView>) -> bool {
        true
    }

    /// Whether `rejoin` of `segs` may answer with `cmd`.
    open spec fn may_rejoin(&self, segs: Seq<SegmentView>, cmd: Seq<char>) -> bool {
        true
    }

    /// Splits a command into segments.
    fn split(&self, cmd: &str) -> (r: Vec<Segment>)
        ensures
            self.may_split(cmd@, r.deep_view()),
    ;

    /// Makes a command of segments.
    fn rejoin(&self, segs: &[Segment]) -> (r: String)
        ensures
            self.may_rejoin(segs.deep_view(), r@),
    ;
}

/// The default splitter: purely textual, so that a quoted separator splits too.
pub struct TextualSplitter;

impl CommandSplitter for TextualSplitter {
    open spec fn may_split(&self, cmd: Seq<char>, segs: Seq<SegmentView>) -> bool {
        segs == segments(cmd)
    }

    open spec fn may_rejoin(&self, segs: Seq<SegmentView>, cmd: Seq<char>) -> bool {
        cmd == rejoined(segs)
    }

    fn split(&self, cmd: &str) -> (r: Vec<Segment>)
        ensures
            r@.len() >= 1,
    {
        split_segments(cmd)
    }

    fn rejoin(&self, segs: &[Segment]) -> (r: String) {
        self::rejoin(segs)
    }
}

/// A command in which no separator occurs is one segment: without a semicolon, a bar, or two
/// ampersands side by side.
pub proof fn law_split_plain(cmd: Seq<char>)
    requires
        forall|i: int| 0 <= i < cmd.len() ==> #[trigger] cmd[i] != ';' && cmd[i] != '|',
        forall|i: int|
            0 <= i < cmd.len() - 1 ==> !(#[trigger] cmd[i] == '&' && cmd[i + 1] == '&'),
    ensures
        separator_free(cmd),
        segments(cmd) == seq![SegmentView { text: cmd, sep: None }],
{
    let segs = seq![SegmentView { text: cmd, sep: None }];
    let rest = segs.drop_first();
    assert(rest.len() == 0);
    assert(rejoined(rest) =~= seq![]);
    assert(rejoined(segs) =~= cmd);
    assert forall|i: int| 0 <= i < cmd.len() implies #[trigger] sep_len(cmd, i) == 0 by {
        assert(cmd[i] != ';');
    }
    law_rejoin_split(segs);
}

/// A command is split at its first separator: what stands before it, in which none occurs, is the
/// first segment, and the others are those of what stands behind it. `&&`, `||`, `;` and `|`
/// separate, and two bars are never taken for one.
pub proof fn law_split_first(left: Seq<char>, sep: Seq<char>, right: Seq<char>)
    requires
        forall|i: int| 0 <= i < left.len() ==> #[trigger] left[i] != ';' && left[i] != '|',
        forall|i: int|
            0 <= i < left.len() - 1 ==> !(#[trigger] left[i] == '&' && left[i + 1] == '&'),
        sep == seq!['&', '&'] || sep == seq!['|', '|'] || sep == seq![';'] || sep == seq!['|'],
        sep == seq!['&', '&'] && left.len() > 0 ==> left[left.len() - 1] != '&',
        sep == seq!['|'] && right.len() > 0 ==> right[0] != '|',
    ensures
        is_separator(sep),
        stands_alone(left, sep, right),
        segments(left + sep + right) == seq![SegmentView { text: left, sep: Some(sep) }]
            + segments(right),
{
    law_split_plain(left);
    law_split_compound(left, sep, right);
    assert(ended(segments(left), sep) =~= seq![SegmentView { text: left, sep: Some(sep) }]);
}

/// Joining puts the text of each segment, and its separator where it has one, behind one another.
pub proof fn law_rejoin(text: Seq<char>, sep: Seq<char>, rest: Seq<SegmentView>)
    ensures
        rejoined(Seq::empty()) == Seq::<char>::empty(),
        rejoined(seq![SegmentView { text, sep: None }] + rest) == text + rejoined(rest),
        rejoined(seq![SegmentView { text, sep: Some(sep) }] + rest) == text + sep + rejoined(rest),
{
    let a = seq![SegmentView { text, sep: None }] + rest;
    let b = seq![SegmentView { text, sep: Some(sep) }] + rest;
    assert(a.drop_first() =~= rest);
    assert(b.drop_first() =~= rest);
    assert(rejoined(Seq::empty()) =~= Seq::<char>::empty());
    assert(rejoined(a) =~= text + rejoined(rest));
    assert(rejoined(b) =~= text + sep + rejoined(rest));
}

/// The splitter of plain text splits a command into its segments and joins segments behind one
/// another, and in no other way.
pub proof fn law_textual(splitter: TextualSplitter, cmd: Seq<char>, segs: Seq<SegmentView>)
    ensures
        splitter.may_split(cmd, segs) <==> segs == segments(cmd),
        splitter.may_rejoin(segs, cmd) <==> cmd == rejoined(segs),
{
}

/// What contracts see of a segment is what it holds.
pub proof fn law_seen_as_held(segment: Segment)
    ensures
        segment.deep_view().text == segment.text@,
        segment.deep_view().sep == segment.sep.deep_view(),
{
}

/// White space around a command in which no separator occurs brings none in.
pub proof fn lemma_plain_around(a: Seq<char>, t: Seq<char>, b: Seq<char>)
    requires
        forall|i: int| 0 <= i < a.len() ==> text::white_space(#[trigger] a[i]),
        forall|i: int| 0 <= i < b.len() ==> text::white_space(#[trigger] b[i]),
        forall|i: int| 0 <= i < t.len() ==> #[trigger] t[i] != ';' && t[i] != '|',
        forall|i: int| 0 <= i < t.len() - 1 ==> !(#[trigger] t[i] == '&' && t[i + 1] == '&'),
    ensures
        segments(a + t + b) == seq![SegmentView { text: a + t + b, sep: None }],
{
    let s = a + t + b;
    let n = a.len() as int;
    let m = t.len() as int;
    assert forall|i: int| 0 <= i < s.len() implies #[trigger] s[i] != ';' && s[i] != '|' && (i < n
        || i >= n + m ==> s[i] != '&') by {
        if i < n {
            assert(text::white_space(a[i]));
        } else if i < n + m {
            assert(s[i] == t[i - n]);
        } else {
            assert(text::white_space(b[i - n - m]));
        }
    }
    assert forall|i: int| 0 <= i < s.len() - 1 implies !(#[trigger] s[i] == '&' && s[i + 1]
        == '&') by {
        if s[i] == '&' && s[i + 1] == '&' {
            assert(s[i + 1] != ';');
            assert(t[i - n] == '&' && t[i - n + 1] == '&');
        }
    }
    law_split_plain(s);
}

} // verus!
