//! Text as a sequence of characters: trimming, searching, joining and ordering.

use vstd::prelude::*;

verus! {

/// Whether `c` has the Unicode property `White_Space`.
pub open spec fn white_space(c: char) -> bool {
    let n = c as u32;
    ||| 0x9 <= n <= 0xd
    ||| n == 0x20
    ||| n == 0x85
    ||| n == 0xa0
    ||| n == 0x1680
    ||| 0x2000 <= n <= 0x200a
    ||| n == 0x2028
    ||| n == 0x2029
    ||| n == 0x202f
    ||| n == 0x205f
    ||| n == 0x3000
}

/// `s` without its leading white space.
pub open spec fn trimmed_start(s: Seq<char>) -> Seq<char>
    decreases s.len(),
{
    if s.len() > 0 && white_space(s[0]) {
        trimmed_start(s.drop_first())
    } else {
        s
    }
}

/// `s` without its trailing white space.
pub open spec fn trimmed_end(s: Seq<char>) -> Seq<char>
    decreases s.len(),
{
    if s.len() > 0 && white_space(s.last()) {
        trimmed_end(s.drop_last())
    } else {
        s
    }
}

/// `s` without its leading and trailing white space.
pub open spec fn trimmed(s: Seq<char>) -> Seq<char> {
    trimmed_end(trimmed_start(s))
}

/// How many characters of `s` are leading white space.
pub open spec fn lead(s: Seq<char>) -> int {
    s.len() - trimmed_start(s).len()
}

/// The leading white space of `s`.
pub open spec fn leading(s: Seq<char>) -> Seq<char> {
    s.take(lead(s))
}

/// What follows the trimmed part of `s`.
pub open spec fn trailing(s: Seq<char>) -> Seq<char> {
    s.skip(lead(s) + trimmed(s).len())
}

/// Whether `s` holds a command substitution: `$(` or a backtick.
pub open spec fn has_substitution(s: Seq<char>) -> bool {
    ||| exists|i: int| 0 <= i < s.len() - 1 && #[trigger] s[i] == '$' && s[i + 1] == '('
    ||| s.contains('`')
}

/// The words of `words` with one space between neighbours.
pub open spec fn joined(words: Seq<Seq<char>>) -> Seq<char>
    decreases words.len(),
{
    if words.len() == 0 {
        seq![]
    } else if words.len() == 1 {
        words[0]
    } else {
        joined(words.drop_last()) + seq![' '] + words.last()
    }
}

/// Whether `a` comes before `b` in lexicographic order of code points.
pub open spec fn text_lt(a: Seq<char>, b: Seq<char>) -> bool
    decreases a.len(),
{
    if b.len() == 0 {
        false
    } else if a.len() == 0 {
        true
    } else if a[0] == b[0] {
        text_lt(a.drop_first(), b.drop_first())
    } else {
        a[0] < b[0]
    }
}

proof fn lemma_trimmed_start(s: Seq<char>, n: int)
    requires
        0 <= n <= s.len(),
        forall|i: int| 0 <= i < n ==> white_space(#[trigger] s[i]),
        n < s.len() ==> !white_space(s[n]),
    ensures
        trimmed_start(s) == s.skip(n),
    decreases n,
{
    if n == 0 {
        assert(s.skip(0) =~= s);
    } else {
        let rest = s.drop_first();
        assert forall|i: int| 0 <= i < n - 1 implies white_space(#[trigger] rest[i]) by {
            assert(rest[i] == s[i + 1]);
        }
        lemma_trimmed_start(rest, n - 1);
        assert(rest.skip(n - 1) =~= s.skip(n));
    }
}

proof fn lemma_trimmed_end(s: Seq<char>, n: int)
    requires
        0 <= n <= s.len(),
        forall|i: int| n <= i < s.len() ==> white_space(#[trigger] s[i]),
        n > 0 ==> !white_space(s[n - 1]),
    ensures
        trimmed_end(s) == s.take(n),
    decreases s.len() - n,
{
    if n == s.len() {
        assert(s.take(n) =~= s);
    } else {
        let rest = s.drop_last();
        lemma_trimmed_end(rest, n);
        assert(rest.take(n) =~= s.take(n));
    }
}

/// `trimmed(s)` is the stretch of `s` between its leading and its trailing white space, and
/// neither of its ends is white space.
pub proof fn lemma_trimmed(s: Seq<char>)
    ensures
        0 <= lead(s),
        lead(s) + trimmed(s).len() <= s.len(),
        trimmed(s) == s.subrange(lead(s), lead(s) + trimmed(s).len()),
        trimmed_start(s) == s.skip(lead(s)),
        forall|i: int| 0 <= i < lead(s) ==> white_space(#[trigger] s[i]),
        forall|i: int| lead(s) + trimmed(s).len() <= i < s.len() ==> white_space(#[trigger] s[i]),
        trimmed(s).len() > 0 ==> !white_space(trimmed(s)[0]) && !white_space(trimmed(s).last()),
        s == leading(s) + trimmed(s) + trailing(s),
    decreases s.len(),
{
    lemma_trimmed_start_shape(s);
    lemma_trimmed_end_shape(trimmed_start(s));
    let t = trimmed_start(s);
    let n = lead(s);
    let m = trimmed(s).len();
    assert(trimmed(s) =~= s.subrange(n, n + m));
    assert forall|i: int| n + m <= i < s.len() implies white_space(#[trigger] s[i]) by {
        assert(s[i] == t[i - n]);
    }
    assert(s =~= leading(s) + trimmed(s) + trailing(s));
}

proof fn lemma_trimmed_start_shape(s: Seq<char>)
    ensures
        0 <= lead(s) <= s.len(),
        trimmed_start(s) == s.skip(lead(s)),
        forall|i: int| 0 <= i < lead(s) ==> white_space(#[trigger] s[i]),
        lead(s) < s.len() ==> !white_space(s[lead(s)]),
    decreases s.len(),
{
    if s.len() > 0 && white_space(s[0]) {
        let rest = s.drop_first();
        lemma_trimmed_start_shape(rest);
        assert(lead(s) == lead(rest) + 1);
        assert(rest.skip(lead(rest)) =~= s.skip(lead(s)));
        assert forall|i: int| 0 <= i < lead(s) implies white_space(#[trigger] s[i]) by {
            if i > 0 {
                assert(s[i] == rest[i - 1]);
            }
        }
    } else {
        assert(s.skip(0) =~= s);
    }
}

proof fn lemma_trimmed_end_shape(s: Seq<char>)
    ensures
        trimmed_end(s).len() <= s.len(),
        trimmed_end(s) == s.take(trimmed_end(s).len() as int),
        forall|i: int| trimmed_end(s).len() <= i < s.len() ==> white_space(#[trigger] s[i]),
        trimmed_end(s).len() > 0 ==> !white_space(trimmed_end(s).last()),
    decreases s.len(),
{
    if s.len() > 0 && white_space(s.last()) {
        let rest = s.drop_last();
        lemma_trimmed_end_shape(rest);
        assert(rest.take(trimmed_end(s).len() as int) =~= s.take(trimmed_end(s).len() as int));
        assert forall|i: int| trimmed_end(s).len() <= i < s.len() implies white_space(
            #[trigger] s[i],
        ) by {
            if i < rest.len() {
                assert(rest[i] == s[i]);
            }
        }
    } else {
        assert(s.take(s.len() as int) =~= s);
    }
}

/// Trimming twice is trimming once.
pub proof fn lemma_trimmed_idempotent(s: Seq<char>)
    ensures
        trimmed(trimmed(s)) == trimmed(s),
{
    let t = trimmed(s);
    lemma_trimmed(s);
    assert(trimmed_start(t) == t);
    assert(trimmed_end(t) == t);
}

/// No text comes before itself.
pub proof fn lemma_text_lt_irreflexive(a: Seq<char>)
    ensures
        !text_lt(a, a),
    decreases a.len(),
{
    if a.len() > 0 {
        lemma_text_lt_irreflexive(a.drop_first());
    }
}

/// The order on texts is transitive.
pub proof fn lemma_text_lt_transitive(a: Seq<char>, b: Seq<char>, c: Seq<char>)
    requires
        text_lt(a, b),
        text_lt(b, c),
    ensures
        text_lt(a, c),
    decreases a.len(),
{
    if a.len() > 0 && a[0] == b[0] && b[0] == c[0] {
        lemma_text_lt_transitive(a.drop_first(), b.drop_first(), c.drop_first());
    }
}

/// Of two different texts one comes before the other.
pub proof fn lemma_text_lt_total(a: Seq<char>, b: Seq<char>)
    ensures
        text_lt(a, b) || a == b || text_lt(b, a),
    decreases a.len(),
{
    if a.len() > 0 && b.len() > 0 && a[0] == b[0] {
        lemma_text_lt_total(a.drop_first(), b.drop_first());
        if a.drop_first() == b.drop_first() {
            assert(a =~= seq![a[0]] + a.drop_first());
            assert(b =~= seq![b[0]] + b.drop_first());
        }
    } else if a.len() == 0 && b.len() == 0 {
        assert(a =~= b);
    }
}

/// Whether `c` has the Unicode property `White_Space`.
pub fn is_white_space(c: char) -> (r: bool)
    ensures
        r == white_space(c),
{
    let n: u32 = c as u32;
    (0x9 <= n && n <= 0xd) || n == 0x20 || n == 0x85 || n == 0xa0 || n == 0x1680 || (0x2000 <= n
        && n <= 0x200a) || n == 0x2028 || n == 0x2029 || n == 0x202f || n == 0x205f || n == 0x3000
}

/// The characters of `s`.
pub fn chars_of(s: &str) -> (r: Vec<char>)
    ensures
        r@ == s@,
{
    let mut out: Vec<char> = Vec::new();
    for c in it: s.chars()
        invariant
            it.seq() == s@,
            out@ == it.seq().take(it.index() as int),
    {
        out.push(c);
    }
    out
}

/// `s` without its leading and trailing white space.
pub fn trim(s: &str) -> (r: &str)
    ensures
        r@ == trimmed(s@),
{
    let chars = chars_of(s);
    let mut i: usize = 0;
    while i < chars.len() && is_white_space(chars[i])
        invariant
            chars@ == s@,
            i <= chars.len(),
            forall|k: int| 0 <= k < i ==> white_space(#[trigger] s@[k]),
        decreases chars.len() - i,
    {
        i += 1;
    }
    let mut j: usize = chars.len();
    while i < j && is_white_space(chars[j - 1])
        invariant
            chars@ == s@,
            i <= j <= chars.len(),
            forall|k: int| j <= k < s@.len() ==> white_space(#[trigger] s@[k]),
        decreases j,
    {
        j -= 1;
    }
    proof {
        lemma_trimmed_start(s@, i as int);
        let t = s@.skip(i as int);
        assert forall|k: int| j - i <= k < t.len() implies white_space(#[trigger] t[k]) by {
            assert(t[k] == s@[k + i]);
        }
        lemma_trimmed_end(t, j - i);
        assert(t.take(j - i) =~= s@.subrange(i as int, j as int));
    }
    s.substring_char(i, j)
}

/// How many characters of `s` are leading white space.
pub fn lead_len(s: &str) -> (r: usize)
    ensures
        r == lead(s@),
{
    let chars = chars_of(s);
    let mut i: usize = 0;
    while i < chars.len() && is_white_space(chars[i])
        invariant
            chars@ == s@,
            i <= chars.len(),
            forall|k: int| 0 <= k < i ==> white_space(#[trigger] s@[k]),
        decreases chars.len() - i,
    {
        i += 1;
    }
    proof {
        lemma_trimmed_start(s@, i as int);
    }
    i
}

/// Whether `s` holds `$(` or a backtick.
pub fn contains_substitution(s: &str) -> (r: bool)
    ensures
        r == has_substitution(s@),
{
    let chars = chars_of(s);
    let mut i: usize = 0;
    while i < chars.len()
        invariant
            chars@ == s@,
            i <= chars.len(),
            forall|k: int| 0 <= k < i ==> #[trigger] s@[k] != '`',
            forall|k: int|
                0 <= k < i && k < s@.len() - 1 ==> !(#[trigger] s@[k] == '$' && s@[k + 1] == '('),
        decreases chars.len() - i,
    {
        if chars[i] == '`' {
            assert(s@[i as int] == '`');
            return true;
        }
        if chars[i] == '$' && i + 1 < chars.len() && chars[i + 1] == '(' {
            assert(s@[i as int] == '$');
            return true;
        }
        i += 1;
    }
    false
}

/// Whether `a` and `b` are the same text.
pub fn same_text(a: &str, b: &str) -> (r: bool)
    ensures
        r == (a@ == b@),
{
    let x = chars_of(a);
    let y = chars_of(b);
    if x.len() != y.len() {
        return false;
    }
    let mut i: usize = 0;
    while i < x.len()
        invariant
            x@ == a@,
            y@ == b@,
            x.len() == y.len(),
            i <= x.len(),
            forall|k: int| 0 <= k < i ==> #[trigger] x@[k] == y@[k],
        decreases x.len() - i,
    {
        if x[i] != y[i] {
            return false;
        }
        i += 1;
    }
    assert(x@ =~= y@);
    true
}

/// Whether `a` comes before `b` in lexicographic order of code points.
pub fn is_before(a: &str, b: &str) -> (r: bool)
    ensures
        r == text_lt(a@, b@),
{
    let x = chars_of(a);
    let y = chars_of(b);
    let mut i: usize = 0;
    proof {
        assert(x@.skip(0) =~= x@);
        assert(y@.skip(0) =~= y@);
    }
    while i < x.len() && i < y.len()
        invariant
            x@ == a@,
            y@ == b@,
            i <= x.len(),
            i <= y.len(),
            text_lt(x@, y@) == text_lt(x@.skip(i as int), y@.skip(i as int)),
        decreases x.len() - i,
    {
        if x[i] != y[i] {
            return x[i] < y[i];
        }
        proof {
            assert(x@.skip(i as int).drop_first() =~= x@.skip(i + 1));
            assert(y@.skip(i as int).drop_first() =~= y@.skip(i + 1));
        }
        i += 1;
    }
    i < y.len()
}

/// The words of `words` with one space between neighbours.
pub fn join(words: &[String]) -> (r: String)
    ensures
        r@ == joined(words.deep_view()),
{
    let mut out = String::new();
    let ghost all = words.deep_view();
    let mut i: usize = 0;
    while i < words.len()
        invariant
            all == words.deep_view(),
            i <= words.len(),
            out@ == joined(all.take(i as int)),
        decreases words.len() - i,
    {
        proof {
            reveal_strlit(" ");
            assert(" "@ =~= seq![' ']);
            assert(all.take(i + 1).drop_last() =~= all.take(i as int));
            assert(all.take(i + 1).last() == words@[i as int]@);
        }
        if i > 0 {
            out.append(" ");
        }
        out.append(words[i].as_str());
        i += 1;
    }
    assert(all.take(i as int) =~= all);
    out
}

/// Trimming takes off exactly the white space around a text: what is left of `a + t + b`, where
/// `a` and `b` are white space and `t` neither starts nor ends with any, is `t`.
pub proof fn law_trim(a: Seq<char>, t: Seq<char>, b: Seq<char>)
    requires
        forall|i: int| 0 <= i < a.len() ==> white_space(#[trigger] a[i]),
        forall|i: int| 0 <= i < b.len() ==> white_space(#[trigger] b[i]),
        t.len() > 0,
        !white_space(t[0]),
        !white_space(t[t.len() - 1]),
    ensures
        trimmed(a + t + b) == t,
        leading(a + t + b) == a,
        trailing(a + t + b) == b,
{
    let s = a + t + b;
    let n = a.len() as int;
    let m = t.len() as int;
    assert forall|i: int| 0 <= i < n implies white_space(#[trigger] s[i]) by {
        assert(s[i] == a[i]);
    }
    assert(s[n] == t[0]);
    lemma_trimmed_start(s, n);
    let u = s.skip(n);
    assert(u =~= t + b);
    assert forall|i: int| m <= i < u.len() implies white_space(#[trigger] u[i]) by {
        assert(u[i] == b[i - m]);
    }
    assert(u[m - 1] == t[m - 1]);
    lemma_trimmed_end(u, m);
    assert(u.take(m) =~= t);
    assert(s.take(n) =~= a);
    assert(s.skip(n + m) =~= b);
}

/// Nothing is left of white space: all of it counts as standing before a text.
pub proof fn law_trim_blank(s: Seq<char>)
    requires
        forall|i: int| 0 <= i < s.len() ==> white_space(#[trigger] s[i]),
    ensures
        trimmed(s) == Seq::<char>::empty(),
        leading(s) == s,
        trailing(s) == Seq::<char>::empty(),
{
    lemma_trimmed_start(s, s.len() as int);
    assert(s.skip(s.len() as int) =~= Seq::<char>::empty());
    lemma_trimmed_end(Seq::<char>::empty(), 0);
    assert(trimmed(s) =~= Seq::<char>::empty());
}

/// Words are joined with one space between neighbours and nothing else.
pub proof fn law_joined(words: Seq<Seq<char>>, word: Seq<char>)
    ensures
        joined(Seq::empty()) == Seq::<char>::empty(),
        joined(seq![word]) == word,
        words.len() > 0 ==> joined(words.push(word)) == joined(words) + seq![' '] + word,
{
    assert(words.push(word).drop_last() =~= words);
    assert(joined(Seq::empty()) =~= Seq::<char>::empty());
}

/// A text holds a command substitution exactly where a backtick occurs in it, or a dollar sign
/// directly before an opening bracket.
pub proof fn law_substitution(s: Seq<char>)
    ensures
        has_substitution(s) <==> (exists|i: int| 0 <= i < s.len() && #[trigger] s[i] == '`') || (
        exists|i: int| 0 <= i < s.len() - 1 && #[trigger] s[i] == '$' && s[i + 1] == '('),
{
    if s.contains('`') {
        let i = choose|i: int| 0 <= i < s.len() && s[i] == '`';
        assert(s[i] == '`');
    }
    if exists|i: int| 0 <= i < s.len() && #[trigger] s[i] == '`' {
        let i = choose|i: int| 0 <= i < s.len() && #[trigger] s[i] == '`';
        assert(s.contains('`'));
    }
}

/// A text comes before another exactly where, behind what they begin with alike, it ends and the
/// other goes on, or its next character is the lower one.
pub proof fn law_text_order(a: Seq<char>, b: Seq<char>)
    ensures
        text_lt(a, b) <==> exists|n: int|
            {
                &&& 0 <= n <= a.len()
                &&& n < b.len()
                &&& #[trigger] a.take(n) == b.take(n)
                &&& n == a.len() || a[n] < b[n]
            },
    decreases a.len(),
{
    if b.len() > 0 && a.len() > 0 && a[0] == b[0] {
        let x = a.drop_first();
        let y = b.drop_first();
        law_text_order(x, y);
        if text_lt(x, y) {
            let n = choose|n: int|
                {
                    &&& 0 <= n <= x.len()
                    &&& n < y.len()
                    &&& #[trigger] x.take(n) == y.take(n)
                    &&& n == x.len() || x[n] < y[n]
                };
            assert(a.take(n + 1) =~= b.take(n + 1)) by {
                assert forall|i: int| 0 <= i < n + 1 implies a[i] == b[i] by {
                    if i > 0 {
                        assert(x.take(n)[i - 1] == y.take(n)[i - 1]);
                    }
                }
            }
        }
        if exists|n: int|
            {
                &&& 0 <= n <= a.len()
                &&& n < b.len()
                &&& #[trigger] a.take(n) == b.take(n)
                &&& n == a.len() || a[n] < b[n]
            } {
            let n = choose|n: int|
                {
                    &&& 0 <= n <= a.len()
                    &&& n < b.len()
                    &&& #[trigger] a.take(n) == b.take(n)
                    &&& n == a.len() || a[n] < b[n]
                };
            assert(n > 0);
            assert(x.take(n - 1) =~= y.take(n - 1)) by {
                assert forall|i: int| 0 <= i < n - 1 implies x[i] == y[i] by {
                    assert(a.take(n)[i + 1] == b.take(n)[i + 1]);
                }
            }
        }
    } else if b.len() > 0 {
        assert(a.take(0) =~= b.take(0));
        assert forall|n: int|
            0 <= n <= a.len() && n < b.len() && #[trigger] a.take(n) == b.take(n) implies n == 0 by {
            if n > 0 {
                assert(a.take(n)[0] == b.take(n)[0]);
            }
        }
    }
}

} // verus!
