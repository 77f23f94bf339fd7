//! A map from text to values, kept in the order of its keys.

use vstd::prelude::*;

use crate::text::{self, is_before, same_text};

verus! {

/// Whether the keys of `rows` come in strictly increasing order.
pub open spec fn increasing<W>(rows: Seq<(Seq<char>, W)>) -> bool {
    forall|i: int, j: int|
        0 <= i < j < rows.len() ==> text::text_lt(
            (#[trigger] rows[i]).0,
            (#[trigger] rows[j]).0,
        )
}

/// Whether `key` is the key of a row.
pub open spec fn has_row<W>(rows: Seq<(Seq<char>, W)>, key: Seq<char>) -> bool {
    exists|i: int| 0 <= i < rows.len() && (#[trigger] rows[i]).0 == key
}

/// The map from the keys of `rows` to their values.
pub open spec fn map_of<W>(rows: Seq<(Seq<char>, W)>) -> Map<Seq<char>, W> {
    Map::new(
        |key: Seq<char>| has_row(rows, key),
        |key: Seq<char>|
            rows[choose|i: int| 0 <= i < rows.len() && (#[trigger] rows[i]).0 == key].1,
    )
}

/// In a table that is in order each key stands in one row.
pub proof fn lemma_row<W>(rows: Seq<(Seq<char>, W)>, i: int)
    requires
        increasing(rows),
        0 <= i < rows.len(),
    ensures
        map_of(rows).contains_key(rows[i].0),
        map_of(rows)[rows[i].0] == rows[i].1,
        forall|j: int| 0 <= j < rows.len() && (#[trigger] rows[j]).0 == rows[i].0 ==> j == i,
{
    text::lemma_text_lt_irreflexive(rows[i].0);
    assert(has_row(rows, rows[i].0));
}

/// The map that comes of putting the rows in one after another: of rows with the same key the
/// last counts.
pub open spec fn collected<W>(rows: Seq<(Seq<char>, W)>) -> Map<Seq<char>, W>
    decreases rows.len(),
{
    if rows.len() == 0 {
        Map::empty()
    } else {
        collected(rows.drop_last()).insert(rows.last().0, rows.last().1)
    }
}

/// Rows that are in order make their map when they are put in one after another.
pub proof fn lemma_collected<W>(rows: Seq<(Seq<char>, W)>)
    requires
        increasing(rows),
    ensures
        collected(rows) == map_of(rows),
    decreases rows.len(),
{
    if rows.len() == 0 {
        assert(map_of(rows) =~= Map::empty());
    } else {
        let front = rows.drop_last();
        let n = front.len() as int;
        lemma_collected(front);
        assert(front.insert(n, (rows.last().0, rows.last().1)) =~= rows);
        lemma_insert(front, n, rows.last().0, rows.last().1);
    }
}

/// Rows that are in order are determined by the map that they make.
pub proof fn lemma_rows_unique<W>(a: Seq<(Seq<char>, W)>, b: Seq<(Seq<char>, W)>)
    requires
        increasing(a),
        increasing(b),
        map_of(a) == map_of(b),
    ensures
        a == b,
    decreases a.len(),
{
    if a.len() == 0 {
        if b.len() > 0 {
            lemma_row(b, 0);
            assert(!has_row(a, b[0].0));
        }
        assert(a =~= b);
    } else {
        let i = a.len() - 1;
        lemma_row(a, i);
        assert(has_row(b, a[i].0));
        let j = b.len() - 1;
        lemma_row(b, j);
        assert(has_row(a, b[j].0));
        let p = choose|p: int| 0 <= p < b.len() && (#[trigger] b[p]).0 == a[i].0;
        let q = choose|q: int| 0 <= q < a.len() && (#[trigger] a[q]).0 == b[j].0;
        assert(p == j) by {
            if p < j {
                assert(text::text_lt(b[p].0, b[j].0));
                if q < i {
                    assert(text::text_lt(a[q].0, a[i].0));
                    text::lemma_text_lt_transitive(b[p].0, b[j].0, a[i].0);
                }
                text::lemma_text_lt_irreflexive(a[i].0);
            }
        }
        lemma_remove(a, i);
        lemma_remove(b, j);
        lemma_rows_unique(a.remove(i), b.remove(j));
        assert(a =~= a.remove(i).push(a[i]));
        assert(b =~= b.remove(j).push(b[j]));
    }
}

/// A map from text to values.
///
/// Each key occurs once; the entries are held in the order of their keys.
#[derive(Debug)]
pub struct Table<V> {
    entries: Vec<(String, V)>,
}

impl<V: DeepView> DeepView for Table<V> {
    type V = Map<Seq<char>, V::V>;

    closed spec fn deep_view(&self) -> Map<Seq<char>, V::V> {
        map_of(self.entries.deep_view())
    }
}

/// Whether the keys of `entries` come in strictly increasing order.
spec fn ordered<V>(entries: Seq<(String, V)>) -> bool {
    forall|i: int, j: int|
        0 <= i < j < entries.len() ==> text::text_lt(
            (#[trigger] entries[i]).0@,
            (#[trigger] entries[j]).0@,
        )
}

impl<V> Table<V> {
    #[verifier::type_invariant]
    spec fn in_order(self) -> bool {
        ordered(self.entries@)
    }
}

/// Where `key` stands in `entries`, or where it belongs: how many keys come before it.
fn place<V>(entries: &Vec<(String, V)>, key: &str) -> (r: usize)
    requires
        ordered(entries@),
    ensures
        r <= entries@.len(),
        forall|i: int|
            0 <= i < r ==> text::text_lt((#[trigger] entries@[i]).0@, key@),
        forall|i: int|
            r <= i < entries@.len() ==> !text::text_lt((#[trigger] entries@[i]).0@, key@),
{
    let mut i: usize = 0;
    while i < entries.len() && is_before(entries[i].0.as_str(), key)
        invariant
            i <= entries.len(),
            forall|k: int|
                0 <= k < i ==> text::text_lt((#[trigger] entries@[k]).0@, key@),
        decreases entries.len() - i,
    {
        i += 1;
    }
    assert forall|k: int| i <= k < entries@.len() implies !text::text_lt(
        (#[trigger] entries@[k]).0@,
        key@,
    ) by {
        if k > i && text::text_lt(entries@[k].0@, key@) {
            text::lemma_text_lt_transitive(
                entries@[i as int].0@,
                entries@[k].0@,
                key@,
            );
        }
    }
    i
}

/// Whether `after` holds a clone of each value of `before`, under the same key.
pub open spec fn clone_of<V: DeepView + Clone>(
    before: Map<Seq<char>, V::V>,
    after: Map<Seq<char>, V::V>,
) -> bool {
    &&& before.dom() == after.dom()
    &&& forall|key: Seq<char>| #[trigger]
        before.contains_key(key) ==> exists|a: V, b: V| #[trigger]
            cloned(a, b) && a.deep_view() == before[key] && b.deep_view() == after[key]
}

impl<V: DeepView + Clone> Clone for Table<V> {
    fn clone(&self) -> (r: Self)
        ensures
            clone_of::<V>(self.deep_view(), r.deep_view()),
    {
        proof {
            use_type_invariant(self);
        }
        let mut entries: Vec<(String, V)> = Vec::new();
        let mut i: usize = 0;
        while i < self.entries.len()
            invariant
                i <= self.entries@.len(),
                entries@.len() == i,
                forall|k: int|
                    0 <= k < i ==> (#[trigger] entries@[k]).0@ == self.entries@[k].0@ && cloned(
                        self.entries@[k].1,
                        entries@[k].1,
                    ),
            decreases self.entries.len() - i,
        {
            let key = self.entries[i].0.clone();
            let value = self.entries[i].1.clone();
            entries.push((key, value));
            i += 1;
        }
        proof {
            let old_rows = self.entries.deep_view();
            let rows = entries.deep_view();
            assert forall|key: Seq<char>|
                #![trigger map_of(rows).contains_key(key)]
                map_of(rows).contains_key(key) == map_of(old_rows).contains_key(key) by {
                if has_row(old_rows, key) {
                    let k = choose|k: int|
                        0 <= k < old_rows.len() && (#[trigger] old_rows[k]).0 == key;
                    assert(entries@[k].0@ == key);
                    assert(rows[k].0 == key);
                }
                if has_row(rows, key) {
                    let k = choose|k: int| 0 <= k < rows.len() && (#[trigger] rows[k]).0 == key;
                    assert(entries@[k].0@ == key);
                    assert(old_rows[k].0 == key);
                }
            }
            assert(map_of(old_rows).dom() =~= map_of(rows).dom());
            assert(increasing(rows)) by {
                assert forall|a: int, b: int| 0 <= a < b < rows.len() implies text::text_lt(
                    (#[trigger] rows[a]).0,
                    (#[trigger] rows[b]).0,
                ) by {
                    assert(entries@[a].0@ == self.entries@[a].0@);
                    assert(entries@[b].0@ == self.entries@[b].0@);
                }
            }
            assert forall|key: Seq<char>| #[trigger]
                map_of(old_rows).contains_key(key) implies exists|a: V, b: V| #[trigger]
                cloned(a, b) && a.deep_view() == map_of(old_rows)[key] && b.deep_view() == map_of(
                    rows,
                )[key] by {
                let k = choose|k: int| 0 <= k < old_rows.len() && (#[trigger] old_rows[k]).0 == key;
                assert(entries@[k].0@ == key);
                lemma_row(old_rows, k);
                lemma_row(rows, k);
                assert(cloned(self.entries@[k].1, entries@[k].1));
            }
        }
        Table { entries }
    }
}

impl<V: DeepView> Default for Table<V> {
    fn default() -> (r: Self)
        ensures
            r.deep_view() == Map::<Seq<char>, V::V>::empty(),
    {
        Table::new()
    }
}

impl<V: DeepView> Table<V> {
    /// The empty table.
    pub fn new() -> (r: Self)
        ensures
            r.deep_view() == Map::<Seq<char>, V::V>::empty(),
    {
        let r = Table { entries: Vec::new() };
        assert(r.deep_view() =~= Map::<Seq<char>, V::V>::empty());
        r
    }

    /// The table of `entries`; of entries with the same key the last counts.
    pub fn from_entries(entries: Vec<(String, V)>) -> (r: Self)
        ensures
            r.deep_view() == collected(entries.deep_view()),
    {
        let ghost all = entries.deep_view();
        let mut left = entries;
        let mut r: Table<V> = Table::new();
        let ghost mut i: int = 0;
        proof {
            assert(all.skip(0) =~= all);
            assert(all.take(0) =~= seq![]);
        }
        while left.len() > 0
            invariant
                0 <= i <= all.len(),
                left.deep_view() == all.skip(i),
                r.deep_view() == collected(all.take(i)),
            decreases left.len(),
        {
            let ghost before = left.deep_view();
            assert(before.len() == left@.len());
            let (key, value) = left.remove(0);
            proof {
                assert(before[0] == all[i]);
                assert(left.deep_view() =~= before.remove(0));
                assert(all.skip(i).remove(0) =~= all.skip(i + 1));
                assert(all.take(i + 1).drop_last() =~= all.take(i));
                i = i + 1;
            }
            r.insert(key, value);
        }
        assert(all.take(i) =~= all);
        r
    }

    /// The entries, in the order of their keys.
    pub fn entries(&self) -> (r: &Vec<(String, V)>)
        ensures
            increasing(r.deep_view()),
            map_of(r.deep_view()) == self.deep_view(),
    {
        proof {
            use_type_invariant(self);
        }
        &self.entries
    }

    /// Whether the table holds nothing.
    pub fn is_empty(&self) -> (r: bool)
        ensures
            r == (self.deep_view() == Map::<Seq<char>, V::V>::empty()),
    {
        proof {
            if self.entries@.len() == 0 {
                assert(self.deep_view() =~= Map::<Seq<char>, V::V>::empty());
            } else {
                let rows = self.entries.deep_view();
                assert(has_row(rows, rows[0].0));
                assert(self.deep_view().contains_key(rows[0].0));
            }
        }
        self.entries.len() == 0
    }

    /// The value under `key`.
    pub fn get(&self, key: &str) -> (r: Option<&V>)
        ensures
            match r {
                Some(v) => self.deep_view().contains_key(key@) && v.deep_view()
                    == self.deep_view()[key@],
                None => !self.deep_view().contains_key(key@),
            },
    {
        proof {
            use_type_invariant(self);
        }
        let ghost rows = self.entries.deep_view();
        let mut i: usize = 0;
        while i < self.entries.len()
            invariant
                rows == self.entries.deep_view(),
                increasing(rows),
                i <= self.entries.len(),
                forall|k: int| 0 <= k < i ==> (#[trigger] rows[k]).0 != key@,
            decreases self.entries.len() - i,
        {
            if same_text(self.entries[i].0.as_str(), key) {
                proof {
                    lemma_row(rows, i as int);
                }
                return Some(&self.entries[i].1);
            }
            i += 1;
        }
        None
    }

    /// Whether `key` has a value.
    pub fn contains_key(&self, key: &str) -> (r: bool)
        ensures
            r == self.deep_view().contains_key(key@),
    {
        self.get(key).is_some()
    }

    /// Puts `value` under `key`, in place of what stood there.
    pub fn insert(&mut self, key: String, value: V)
        ensures
            final(self).deep_view() == old(self).deep_view().insert(key@, value.deep_view()),
    {
        proof {
            use_type_invariant(&*self);
        }
        let mut entries: Vec<(String, V)> = Vec::new();
        std::mem::swap(&mut entries, &mut self.entries);
        let ghost before = entries.deep_view();
        let ghost held = entries@;
        let ghost k = key@;
        let ghost v = value.deep_view();
        let at = place(&entries, key.as_str());
        proof {
            if at < entries@.len() {
                text::lemma_text_lt_total(k, entries@[at as int].0@);
            }
        }
        if at < entries.len() && same_text(entries[at].0.as_str(), key.as_str()) {
            entries.set(at, (key, value));
            proof {
                let after = entries.deep_view();
                assert(after =~= before.update(at as int, (k, v)));
                assert(ordered(entries@));
                lemma_update(before, at as int, v);
                assert(before.update(at as int, (before[at as int].0, v)) =~= after);
            }
        } else {
            entries.insert(at, (key, value));
            proof {
                let after = entries.deep_view();
                assert(after =~= before.insert(at as int, (k, v)));
                assert forall|i: int| at <= i < held.len() implies text::text_lt(
                    k,
                    (#[trigger] held[i]).0@,
                ) by {
                    if i > at {
                        text::lemma_text_lt_transitive(k, held[at as int].0@, held[i].0@);
                    }
                }
                assert(ordered(entries@));
                lemma_insert(before, at as int, k, v);
            }
        }
        self.entries = entries;
    }

    /// Takes `key` and its value out. Returns whether it was there.
    pub fn remove(&mut self, key: &str) -> (r: bool)
        ensures
            r == old(self).deep_view().contains_key(key@),
            final(self).deep_view() == old(self).deep_view().remove(key@),
    {
        proof {
            use_type_invariant(&*self);
        }
        let mut entries: Vec<(String, V)> = Vec::new();
        std::mem::swap(&mut entries, &mut self.entries);
        let ghost before = entries.deep_view();
        let at = place(&entries, key);
        let mut there: bool = false;
        if at < entries.len() && same_text(entries[at].0.as_str(), key) {
            let _gone = entries.remove(at);
            there = true;
            proof {
                assert(entries.deep_view() =~= before.remove(at as int));
                assert(before[at as int].0 == key@);
                lemma_remove(before, at as int);
            }
        } else {
            proof {
                assert forall|i: int| 0 <= i < before.len() implies (#[trigger] before[i]).0
                    != key@ by {
                    text::lemma_text_lt_irreflexive(key@);
                    if i > at {
                        assert(text::text_lt(before[at as int].0, before[i].0));
                    }
                }
                assert(!has_row(before, key@));
                assert(map_of(before).remove(key@) =~= map_of(before));
            }
        }
        self.entries = entries;
        there
    }
}

proof fn lemma_update<W>(rows: Seq<(Seq<char>, W)>, at: int, v: W)
    requires
        increasing(rows),
        0 <= at < rows.len(),
    ensures
        map_of(rows.update(at, (rows[at].0, v))) == map_of(rows).insert(rows[at].0, v),
{
    let after = rows.update(at, (rows[at].0, v));
    assert(increasing(after));
    let key = rows[at].0;
    assert(map_of(after) =~= map_of(rows).insert(key, v)) by {
        assert forall|k: Seq<char>|
            #![trigger map_of(after).contains_key(k)]
            map_of(after).contains_key(k) == map_of(rows).insert(key, v).contains_key(k) by {
            if has_row(rows, k) {
                let i = choose|i: int| 0 <= i < rows.len() && (#[trigger] rows[i]).0 == k;
                assert(after[i].0 == k);
            }
            if has_row(after, k) {
                let i = choose|i: int| 0 <= i < after.len() && (#[trigger] after[i]).0 == k;
                assert(rows[i].0 == k);
            }
        }
        assert forall|k: Seq<char>| #[trigger]
            map_of(after).contains_key(k) implies map_of(after)[k] == map_of(rows).insert(
            key,
            v,
        )[k] by {
            let i = choose|i: int| 0 <= i < after.len() && (#[trigger] after[i]).0 == k;
            lemma_row(after, i);
            lemma_row(rows, i);
            if k == key {
                lemma_row(after, at);
            }
        }
    }
}

proof fn lemma_insert<W>(rows: Seq<(Seq<char>, W)>, at: int, key: Seq<char>, v: W)
    requires
        increasing(rows),
        increasing(rows.insert(at, (key, v))),
        0 <= at <= rows.len(),
    ensures
        map_of(rows.insert(at, (key, v))) == map_of(rows).insert(key, v),
{
    let after = rows.insert(at, (key, v));
    assert(after[at] == (key, v));
    lemma_row(after, at);
    assert(map_of(after) =~= map_of(rows).insert(key, v)) by {
        assert forall|k: Seq<char>|
            #![trigger map_of(after).contains_key(k)]
            map_of(after).contains_key(k) == map_of(rows).insert(key, v).contains_key(k) by {
            if has_row(rows, k) {
                let i = choose|i: int| 0 <= i < rows.len() && (#[trigger] rows[i]).0 == k;
                assert(after[if i < at { i } else { i + 1 }].0 == k);
            }
            if has_row(after, k) {
                let i = choose|i: int| 0 <= i < after.len() && (#[trigger] after[i]).0 == k;
                if i != at {
                    assert(rows[if i < at { i } else { i - 1 }].0 == k);
                }
            }
        }
        assert forall|k: Seq<char>| #[trigger]
            map_of(after).contains_key(k) implies map_of(after)[k] == map_of(rows).insert(
            key,
            v,
        )[k] by {
            let i = choose|i: int| 0 <= i < after.len() && (#[trigger] after[i]).0 == k;
            lemma_row(after, i);
            if i != at {
                lemma_row(rows, if i < at { i } else { i - 1 });
            }
        }
    }
}

proof fn lemma_remove<W>(rows: Seq<(Seq<char>, W)>, at: int)
    requires
        increasing(rows),
        0 <= at < rows.len(),
    ensures
        increasing(rows.remove(at)),
        map_of(rows).contains_key(rows[at].0),
        map_of(rows.remove(at)) == map_of(rows).remove(rows[at].0),
{
    let after = rows.remove(at);
    let key = rows[at].0;
    lemma_row(rows, at);
    assert(increasing(after));
    assert(map_of(after) =~= map_of(rows).remove(key)) by {
        assert forall|k: Seq<char>|
            #![trigger map_of(after).contains_key(k)]
            map_of(after).contains_key(k) == map_of(rows).remove(key).contains_key(k) by {
            if has_row(rows, k) && k != key {
                let i = choose|i: int| 0 <= i < rows.len() && (#[trigger] rows[i]).0 == k;
                assert(after[if i < at { i } else { i - 1 }].0 == k);
            }
            if has_row(after, k) {
                let i = choose|i: int| 0 <= i < after.len() && (#[trigger] after[i]).0 == k;
                assert(rows[if i < at { i } else { i + 1 }].0 == k);
            }
        }
        assert forall|k: Seq<char>| #[trigger]
            map_of(after).contains_key(k) implies map_of(after)[k] == map_of(rows).remove(
            key,
        )[k] by {
            let i = choose|i: int| 0 <= i < after.len() && (#[trigger] after[i]).0 == k;
            lemma_row(after, i);
            lemma_row(rows, if i < at { i } else { i + 1 });
        }
    }
}

/// The map of rows that are in order holds each row's value under its key, and nothing else.
pub proof fn law_rows<W>(rows: Seq<(Seq<char>, W)>, key: Seq<char>)
    requires
        forall|i: int, j: int|
            0 <= i < j < rows.len() ==> text::text_lt(
                (#[trigger] rows[i]).0,
                (#[trigger] rows[j]).0,
            ),
    ensures
        increasing(rows),
        map_of(rows).contains_key(key) <==> exists|i: int|
            0 <= i < rows.len() && (#[trigger] rows[i]).0 == key,
        forall|i: int|
            0 <= i < rows.len() && (#[trigger] rows[i]).0 == key ==> map_of(rows)[key] == rows[i].1,
{
    assert forall|i: int| 0 <= i < rows.len() && (#[trigger] rows[i]).0 == key implies map_of(
        rows,
    )[key] == rows[i].1 by {
        lemma_row(rows, i);
    }
}

/// Of rows with the same key the last counts: the map that comes of putting rows in one after
/// another holds the value of that row under the key, and holds no key that no row has.
pub proof fn law_last_counts<W>(rows: Seq<(Seq<char>, W)>, i: int, key: Seq<char>)
    ensures
        0 <= i < rows.len() && rows[i].0 == key && (forall|j: int|
            i < j < rows.len() ==> (#[trigger] rows[j]).0 != key) ==> collected(rows).contains_key(
            key,
        ) && collected(rows)[key] == rows[i].1,
        (forall|j: int| 0 <= j < rows.len() ==> (#[trigger] rows[j]).0 != key) ==> !collected(
            rows,
        ).contains_key(key),
    decreases rows.len(),
{
    if rows.len() > 0 {
        let front = rows.drop_last();
        law_last_counts(front, i, key);
        if forall|j: int| 0 <= j < rows.len() ==> (#[trigger] rows[j]).0 != key {
            assert(rows[rows.len() - 1].0 != key);
            assert forall|j: int| 0 <= j < front.len() implies (#[trigger] front[j]).0 != key by {
                assert(front[j] == rows[j]);
            }
        }
        if 0 <= i < front.len() && rows[i].0 == key && (forall|j: int|
            i < j < rows.len() ==> (#[trigger] rows[j]).0 != key) {
            assert(rows[rows.len() - 1].0 != key);
            assert forall|j: int| i < j < front.len() implies (#[trigger] front[j]).0 != key by {
                assert(front[j] == rows[j]);
            }
        }
    }
}

} // verus!
