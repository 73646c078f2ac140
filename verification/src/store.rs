//! Compound-key record store.
//!
//! A point-access map from a composite key (two string components) to a
//! record value. Entries are kept strictly sorted by key, so a prefix scan
//! over the first component returns its matches as one contiguous block,
//! ascending by the trailing component.

use vstd::prelude::*;
use crate::keys::{lex_lt, lemma_lex_trichotomy, lemma_lex_lt_trans, str_lt, str_eq};

verus! {

/// One stored record with its composite key.
pub struct Entry<V> {
    pub k1: String,
    pub k2: String,
    pub v: V,
}

/// Strict order on composite keys: by first component, then by second.
pub open spec fn key_lt(a1: Seq<char>, a2: Seq<char>, b1: Seq<char>, b2: Seq<char>) -> bool {
    lex_lt(a1, b1) || (a1 == b1 && lex_lt(a2, b2))
}

/// A key strictly below another is a different key.
pub proof fn lemma_key_lt_ne(a1: Seq<char>, a2: Seq<char>, b1: Seq<char>, b2: Seq<char>)
    requires
        key_lt(a1, a2, b1, b2),
    ensures
        !(a1 == b1 && a2 == b2),
{
    lemma_lex_trichotomy(a1, b1);
    lemma_lex_trichotomy(a2, b2);
}

/// The composite-key order is transitive.
pub proof fn lemma_key_lt_trans(
    a1: Seq<char>, a2: Seq<char>,
    b1: Seq<char>, b2: Seq<char>,
    c1: Seq<char>, c2: Seq<char>,
)
    requires
        key_lt(a1, a2, b1, b2),
        key_lt(b1, b2, c1, c2),
    ensures
        key_lt(a1, a2, c1, c2),
{
    if lex_lt(a1, b1) && lex_lt(b1, c1) {
        lemma_lex_lt_trans(a1, b1, c1);
    }
    if lex_lt(a2, b2) && lex_lt(b2, c2) && a1 == b1 && b1 == c1 {
        lemma_lex_lt_trans(a2, b2, c2);
    }
}

/// Of two distinct composite keys, exactly one precedes the other.
pub proof fn lemma_key_trichotomy(a1: Seq<char>, a2: Seq<char>, b1: Seq<char>, b2: Seq<char>)
    ensures
        key_lt(a1, a2, b1, b2) || key_lt(b1, b2, a1, a2) || (a1 == b1 && a2 == b2),
        key_lt(a1, a2, b1, b2) ==> !key_lt(b1, b2, a1, a2),
{
    lemma_lex_trichotomy(a1, b1);
    lemma_lex_trichotomy(a2, b2);
}

/// The value stored under a key: the first entry that carries the key, if any.
pub open spec fn seq_find<V>(s: Seq<Entry<V>>, k1: Seq<char>, k2: Seq<char>) -> Option<V>
    decreases s.len(),
{
    if s.len() == 0 {
        None
    } else if s[0].k1@ == k1 && s[0].k2@ == k2 {
        Some(s[0].v)
    } else {
        seq_find(s.drop_first(), k1, k2)
    }
}

/// If position `i` holds the key and no earlier position does, the lookup
/// lands on position `i`.
pub proof fn lemma_seq_find_hit<V>(s: Seq<Entry<V>>, k1: Seq<char>, k2: Seq<char>, i: int)
    requires
        0 <= i < s.len(),
        s[i].k1@ == k1 && s[i].k2@ == k2,
        forall|j: int| 0 <= j < i ==> !(s[j].k1@ == k1 && s[j].k2@ == k2),
    ensures
        seq_find(s, k1, k2) == Some(s[i].v),
    decreases i,
{
    if i > 0 {
        assert(s.drop_first()[i - 1] == s[i]);
        assert(forall|j: int| 0 <= j < i - 1 ==> s.drop_first()[j] == s[j + 1]);
        lemma_seq_find_hit(s.drop_first(), k1, k2, i - 1);
    }
}

/// If no position holds the key, the lookup misses.
pub proof fn lemma_seq_find_miss<V>(s: Seq<Entry<V>>, k1: Seq<char>, k2: Seq<char>)
    requires
        forall|j: int| 0 <= j < s.len() ==> !(s[j].k1@ == k1 && s[j].k2@ == k2),
    ensures
        seq_find(s, k1, k2) is None,
    decreases s.len(),
{
    if s.len() > 0 {
        assert(forall|j: int| 0 <= j < s.len() - 1 ==> s.drop_first()[j] == s[j + 1]);
        lemma_seq_find_miss(s.drop_first(), k1, k2);
    }
}

/// A lookup that succeeds has a witnessing entry.
pub proof fn lemma_seq_find_witness<V>(s: Seq<Entry<V>>, k1: Seq<char>, k2: Seq<char>)
    requires
        seq_find(s, k1, k2) is Some,
    ensures
        exists|i: int|
            0 <= i < s.len() && #[trigger] s.index(i).k1@ == k1 && s.index(i).k2@ == k2
                && seq_find(s, k1, k2) == Some(s.index(i).v),
    decreases s.len(),
{
    if s[0].k1@ == k1 && s[0].k2@ == k2 {
        assert(s.index(0).k1@ == k1 && s.index(0).k2@ == k2);
    } else {
        lemma_seq_find_witness(s.drop_first(), k1, k2);
        let i = choose|i: int|
            0 <= i < s.drop_first().len() && #[trigger] s.drop_first().index(i).k1@ == k1
                && s.drop_first().index(i).k2@ == k2 && seq_find(s.drop_first(), k1, k2) == Some(
                s.drop_first().index(i).v,
            );
        assert(s.index(i + 1) == s.drop_first().index(i));
    }
}

/// Inserting an entry with a different key does not change a lookup.
pub proof fn lemma_find_insert_frame<V>(
    olds: Seq<Entry<V>>,
    e: Entry<V>,
    pos: int,
    a: Seq<char>,
    b: Seq<char>,
)
    requires
        0 <= pos <= olds.len(),
        !(e.k1@ == a && e.k2@ == b),
    ensures
        seq_find(olds.insert(pos, e), a, b) == seq_find(olds, a, b),
    decreases olds.len(),
{
    let news = olds.insert(pos, e);
    if pos == 0 {
        assert(news.drop_first() =~= olds);
    } else {
        assert(news.index(0) == olds.index(0));
        if olds.index(0).k1@ == a && olds.index(0).k2@ == b {
        } else {
            assert(news.drop_first() =~= olds.drop_first().insert(pos - 1, e));
            lemma_find_insert_frame(olds.drop_first(), e, pos - 1, a, b);
        }
    }
}

/// Removing an entry with a different key does not change a lookup.
pub proof fn lemma_find_remove_frame<V>(olds: Seq<Entry<V>>, pos: int, a: Seq<char>, b: Seq<char>)
    requires
        0 <= pos < olds.len(),
        !(olds.index(pos).k1@ == a && olds.index(pos).k2@ == b),
    ensures
        seq_find(olds.remove(pos), a, b) == seq_find(olds, a, b),
    decreases olds.len(),
{
    let news = olds.remove(pos);
    if pos == 0 {
        assert(news =~= olds.drop_first());
    } else {
        assert(news.index(0) == olds.index(0));
        if olds.index(0).k1@ == a && olds.index(0).k2@ == b {
        } else {
            assert(news.drop_first() =~= olds.drop_first().remove(pos - 1));
            lemma_find_remove_frame(olds.drop_first(), pos - 1, a, b);
        }
    }
}

/// Replacing the value behind a key does not change the lookup of a
/// different key.
pub proof fn lemma_find_update_frame<V>(
    olds: Seq<Entry<V>>,
    e: Entry<V>,
    pos: int,
    a: Seq<char>,
    b: Seq<char>,
)
    requires
        0 <= pos < olds.len(),
        e.k1@ == olds.index(pos).k1@,
        e.k2@ == olds.index(pos).k2@,
        !(e.k1@ == a && e.k2@ == b),
    ensures
        seq_find(olds.update(pos, e), a, b) == seq_find(olds, a, b),
    decreases olds.len(),
{
    let news = olds.update(pos, e);
    if pos == 0 {
        assert(news.drop_first() =~= olds.drop_first());
    } else {
        assert(news.index(0) == olds.index(0));
        if olds.index(0).k1@ == a && olds.index(0).k2@ == b {
        } else {
            assert(news.drop_first() =~= olds.drop_first().update(pos - 1, e));
            lemma_find_update_frame(olds.drop_first(), e, pos - 1, a, b);
        }
    }
}

/// Compound-key record store: entries strictly sorted by composite key.
pub struct StoreMap<V> {
    pub entries: Vec<Entry<V>>,
}

impl<V> StoreMap<V> {
    /// Entries are strictly ascending by composite key; in particular every
    /// key occurs at most once.
    pub open spec fn wf(self) -> bool {
        forall|i: int, j: int|
            0 <= i < j < self.entries@.len() ==> key_lt(
                (#[trigger] self.entries@.index(i)).k1@,
                self.entries@.index(i).k2@,
                (#[trigger] self.entries@.index(j)).k1@,
                self.entries@.index(j).k2@,
            )
    }

    /// The record stored under a composite key.
    pub open spec fn spec_get(self, k1: Seq<char>, k2: Seq<char>) -> Option<V> {
        seq_find(self.entries@, k1, k2)
    }

    /// Whether a record is stored under a composite key.
    pub open spec fn contains_key(self, k1: Seq<char>, k2: Seq<char>) -> bool {
        self.spec_get(k1, k2) is Some
    }

    /// An empty store.
    pub fn new() -> (r: Self)
        ensures
            r.wf(),
            r.entries@.len() == 0,
            forall|a: Seq<char>, b: Seq<char>| #[trigger] r.spec_get(a, b) is None,
    {
        let r = StoreMap { entries: Vec::new() };
        proof {
            assert forall|a: Seq<char>, b: Seq<char>| #[trigger] r.spec_get(a, b) is None by {
                lemma_seq_find_miss(r.entries@, a, b);
            }
        }
        r
    }

    /// Point lookup.
    pub fn get(&self, k1: &str, k2: &str) -> (r: Option<&V>)
        ensures
            match r {
                Some(v) => self.spec_get(k1@, k2@) == Some(*v),
                None => self.spec_get(k1@, k2@) is None,
            },
    {
        let n = self.entries.len();
        let mut i: usize = 0;
        proof {
            assert(self.entries@.skip(0) =~= self.entries@);
        }
        loop
            invariant
                i <= n,
                n == self.entries@.len(),
                seq_find(self.entries@, k1@, k2@) == seq_find(
                    self.entries@.skip(i as int),
                    k1@,
                    k2@,
                ),
            decreases n - i,
        {
            if i == n {
                return None;
            }
            let e = &self.entries[i];
            proof {
                assert(self.entries@.skip(i as int)[0] == self.entries@[i as int]);
            }
            if str_eq(e.k1.as_str(), k1) && str_eq(e.k2.as_str(), k2) {
                return Some(&self.entries[i].v);
            }
            proof {
                assert(self.entries@.skip(i as int).drop_first() =~= self.entries@.skip(
                    i as int + 1,
                ));
            }
            i = i + 1;
        }
    }

    /// Finds where a key sits or belongs: either the position that holds it,
    /// or the position before which it would have to be inserted.
    fn locate(&self, k1: &str, k2: &str) -> (r: (usize, bool))
        requires
            self.wf(),
        ensures
            r.0 <= self.entries@.len(),
            r.1 ==> r.0 < self.entries@.len() && self.entries@.index(r.0 as int).k1@ == k1@
                && self.entries@.index(r.0 as int).k2@ == k2@,
            forall|j: int|
                0 <= j < r.0 ==> key_lt(
                    (#[trigger] self.entries@.index(j)).k1@,
                    self.entries@.index(j).k2@,
                    k1@,
                    k2@,
                ),
            !r.1 ==> forall|j: int|
                0 <= j < r.0 ==> key_lt(
                    (#[trigger] self.entries@.index(j)).k1@,
                    self.entries@.index(j).k2@,
                    k1@,
                    k2@,
                ),
            !r.1 && r.0 < self.entries@.len() ==> key_lt(
                k1@,
                k2@,
                self.entries@.index(r.0 as int).k1@,
                self.entries@.index(r.0 as int).k2@,
            ),
            !r.1 ==> !self.contains_key(k1@, k2@),
    {
        let n = self.entries.len();
        let mut i: usize = 0;
        loop
            invariant
                i <= n,
                n == self.entries@.len(),
                self.wf(),
                forall|j: int|
                    0 <= j < i ==> key_lt(
                        (#[trigger] self.entries@.index(j)).k1@,
                        self.entries@.index(j).k2@,
                        k1@,
                        k2@,
                    ),
            decreases n - i,
        {
            if i == n {
                proof {
                    self.lemma_absent_when_all_below(k1@, k2@, n as int);
                }
                return (n, false);
            }
            let e = &self.entries[i];
            if str_eq(e.k1.as_str(), k1) && str_eq(e.k2.as_str(), k2) {
                return (i, true);
            }
            let below = if str_lt(e.k1.as_str(), k1) {
                true
            } else if str_eq(e.k1.as_str(), k1) {
                str_lt(e.k2.as_str(), k2)
            } else {
                false
            };
            if !below {
                proof {
                    let ei = self.entries@.index(i as int);
                    lemma_key_trichotomy(ei.k1@, ei.k2@, k1@, k2@);
                    self.lemma_absent_at_boundary(k1@, k2@, i as int);
                }
                return (i, false);
            }
            i = i + 1;
        }
    }

    /// If every entry is strictly below the key, the key is absent.
    proof fn lemma_absent_when_all_below(self, k1: Seq<char>, k2: Seq<char>, n: int)
        requires
            n == self.entries@.len(),
            forall|j: int|
                0 <= j < n ==> key_lt(
                    (#[trigger] self.entries@.index(j)).k1@,
                    self.entries@.index(j).k2@,
                    k1,
                    k2,
                ),
        ensures
            !self.contains_key(k1, k2),
    {
        assert forall|j: int| 0 <= j < self.entries@.len() implies !(self.entries@.index(j).k1@
            == k1 && self.entries@.index(j).k2@ == k2) by {
            lemma_key_lt_ne(self.entries@.index(j).k1@, self.entries@.index(j).k2@, k1, k2);
        }
        lemma_seq_find_miss(self.entries@, k1, k2);
    }

    /// If the entries below position `pos` are below the key and the entry
    /// at `pos` is above it, the key is absent.
    proof fn lemma_absent_at_boundary(self, k1: Seq<char>, k2: Seq<char>, pos: int)
        requires
            self.wf(),
            0 <= pos < self.entries@.len(),
            forall|j: int|
                0 <= j < pos ==> key_lt(
                    (#[trigger] self.entries@.index(j)).k1@,
                    self.entries@.index(j).k2@,
                    k1,
                    k2,
                ),
            key_lt(k1, k2, self.entries@.index(pos).k1@, self.entries@.index(pos).k2@),
        ensures
            !self.contains_key(k1, k2),
    {
        assert forall|j: int| 0 <= j < self.entries@.len() implies !(self.entries@.index(j).k1@
            == k1 && self.entries@.index(j).k2@ == k2) by {
            let ej = self.entries@.index(j);
            if j < pos {
                lemma_key_lt_ne(ej.k1@, ej.k2@, k1, k2);
            } else if j == pos {
                lemma_key_lt_ne(k1, k2, ej.k1@, ej.k2@);
            } else {
                lemma_key_lt_trans(
                    k1, k2,
                    self.entries@.index(pos).k1@, self.entries@.index(pos).k2@,
                    ej.k1@, ej.k2@,
                );
                lemma_key_lt_ne(k1, k2, ej.k1@, ej.k2@);
            }
        }
        lemma_seq_find_miss(self.entries@, k1, k2);
    }

    /// Inserts a record under a key, or replaces the record already there.
    /// Every other key keeps its record.
    pub fn set(&mut self, k1: &str, k2: &str, v: V)
        requires
            old(self).wf(),
        ensures
            final(self).wf(),
            final(self).spec_get(k1@, k2@) == Some(v),
            forall|a: Seq<char>, b: Seq<char>|
                !(a == k1@ && b == k2@) ==> #[trigger] final(self).spec_get(a, b) == old(
                    self,
                ).spec_get(a, b),
            final(self).entries@.len() == old(self).entries@.len() + (
            if old(self).contains_key(k1@, k2@) { 0int } else { 1int }),
    {
        let (pos, hit) = self.locate(k1, k2);
        if hit {
            let mut entry = self.entries.remove(pos);
            entry.v = v;
            self.entries.insert(pos, entry);
            proof {
                let olds = old(self).entries@;
                let news = self.entries@;
                let p = pos as int;
                assert(news =~= olds.update(p, news.index(p)));
                assert forall|x: int, y: int| 0 <= x < y < news.len() implies key_lt(
                    news.index(x).k1@, news.index(x).k2@,
                    news.index(y).k1@, news.index(y).k2@,
                ) by {
                    assert(news.index(x).k1@ == olds.index(x).k1@);
                    assert(news.index(x).k2@ == olds.index(x).k2@);
                    assert(news.index(y).k1@ == olds.index(y).k1@);
                    assert(news.index(y).k2@ == olds.index(y).k2@);
                }
                assert forall|j: int| 0 <= j < p implies !(news.index(j).k1@ == k1@
                    && news.index(j).k2@ == k2@) by {
                    lemma_key_lt_ne(olds.index(j).k1@, olds.index(j).k2@, k1@, k2@);
                }
                lemma_seq_find_hit(news, k1@, k2@, p);
                assert forall|a: Seq<char>, b: Seq<char>| !(a == k1@ && b == k2@) implies
                    #[trigger] seq_find(news, a, b) == seq_find(olds, a, b) by {
                    lemma_find_update_frame(olds, news.index(p), p, a, b);
                }
                assert forall|j: int| 0 <= j < p implies !(olds.index(j).k1@ == k1@
                    && olds.index(j).k2@ == k2@) by {
                    lemma_key_lt_ne(olds.index(j).k1@, olds.index(j).k2@, k1@, k2@);
                }
                lemma_seq_find_hit(olds, k1@, k2@, p);
            }
        } else {
            let entry = Entry { k1: k1.to_owned(), k2: k2.to_owned(), v };
            self.entries.insert(pos, entry);
            proof {
                let olds = old(self).entries@;
                let news = self.entries@;
                let p = pos as int;
                assert(forall|j: int| 0 <= j < p ==> news.index(j) == olds.index(j));
                assert(forall|j: int| p < j < news.len() ==> news.index(j) == olds.index(j - 1));
                assert forall|x: int, y: int| 0 <= x < y < news.len() implies key_lt(
                    news.index(x).k1@, news.index(x).k2@,
                    news.index(y).k1@, news.index(y).k2@,
                ) by {
                    if x == p {
                        // `news[y] == olds[y - 1]` with `y - 1 >= p`; the new
                        // key is below `olds[p]`, which is at or below
                        // `olds[y - 1]`
                        if y - 1 > p {
                            lemma_key_lt_trans(
                                k1@, k2@,
                                olds.index(p).k1@, olds.index(p).k2@,
                                olds.index(y - 1).k1@, olds.index(y - 1).k2@,
                            );
                        }
                    } else if y == p {
                    } else if x < p && p < y {
                        if y - 1 > p {
                            lemma_key_lt_trans(
                                k1@, k2@,
                                olds.index(p).k1@, olds.index(p).k2@,
                                olds.index(y - 1).k1@, olds.index(y - 1).k2@,
                            );
                        }
                        lemma_key_lt_trans(
                            olds.index(x).k1@, olds.index(x).k2@,
                            k1@, k2@,
                            news.index(y).k1@, news.index(y).k2@,
                        );
                    }
                }
                assert forall|j: int| 0 <= j < p implies !(news.index(j).k1@ == k1@
                    && news.index(j).k2@ == k2@) by {
                    lemma_key_lt_ne(news.index(j).k1@, news.index(j).k2@, k1@, k2@);
                }
                lemma_seq_find_hit(news, k1@, k2@, p);
                assert forall|a: Seq<char>, b: Seq<char>| !(a == k1@ && b == k2@) implies
                    #[trigger] seq_find(news, a, b) == seq_find(olds, a, b) by {
                    lemma_find_insert_frame(olds, news.index(p), p, a, b);
                }
            }
        }
    }

    /// Removes the record under a key and returns it; every other key keeps
    /// its record.
    pub fn remove(&mut self, k1: &str, k2: &str) -> (r: Option<V>)
        requires
            old(self).wf(),
        ensures
            final(self).wf(),
            final(self).spec_get(k1@, k2@) is None,
            r == old(self).spec_get(k1@, k2@),
            forall|a: Seq<char>, b: Seq<char>|
                !(a == k1@ && b == k2@) ==> #[trigger] final(self).spec_get(a, b) == old(
                    self,
                ).spec_get(a, b),
            final(self).entries@.len() == old(self).entries@.len() - (
            if old(self).contains_key(k1@, k2@) { 1int } else { 0int }),
    {
        let (pos, hit) = self.locate(k1, k2);
        if hit {
            let entry = self.entries.remove(pos);
            proof {
                let olds = old(self).entries@;
                let news = self.entries@;
                let p = pos as int;
                assert(forall|j: int| 0 <= j < p ==> news.index(j) == olds.index(j));
                assert(forall|j: int| p <= j < news.len() ==> news.index(j) == olds.index(j + 1));
                assert forall|j: int| 0 <= j < p implies !(olds.index(j).k1@ == k1@
                    && olds.index(j).k2@ == k2@) by {
                    lemma_key_lt_ne(olds.index(j).k1@, olds.index(j).k2@, k1@, k2@);
                }
                lemma_seq_find_hit(olds, k1@, k2@, p);
                assert forall|x: int, y: int| 0 <= x < y < news.len() implies key_lt(
                    news.index(x).k1@, news.index(x).k2@,
                    news.index(y).k1@, news.index(y).k2@,
                ) by {
                    let ox = if x < p { x } else { x + 1 };
                    let oy = if y < p { y } else { y + 1 };
                    assert(news.index(x) == olds.index(ox));
                    assert(news.index(y) == olds.index(oy));
                }
                assert forall|j: int| 0 <= j < news.len() implies !(news.index(j).k1@ == k1@
                    && news.index(j).k2@ == k2@) by {
                    let oj = if j < p { j } else { j + 1 };
                    assert(news.index(j) == olds.index(oj));
                    if oj < p {
                        lemma_key_lt_ne(olds.index(oj).k1@, olds.index(oj).k2@, k1@, k2@);
                    } else {
                        // `olds[p]` carries the key and sits strictly below
                        // `olds[oj]`
                        assert(key_lt(
                            olds.index(p).k1@, olds.index(p).k2@,
                            olds.index(oj).k1@, olds.index(oj).k2@,
                        ));
                        lemma_key_lt_ne(k1@, k2@, olds.index(oj).k1@, olds.index(oj).k2@);
                    }
                }
                lemma_seq_find_miss(news, k1@, k2@);
                assert forall|a: Seq<char>, b: Seq<char>| !(a == k1@ && b == k2@) implies
                    #[trigger] seq_find(news, a, b) == seq_find(olds, a, b) by {
                    lemma_find_remove_frame(olds, p, a, b);
                }
            }
            Some(entry.v)
        } else {
            None
        }
    }

    /// The contiguous block of entries whose first key component equals
    /// `k1`: positions `lo` up to (excluding) `hi`. Entries outside the
    /// block carry a different first component.
    pub fn scan_prefix(&self, k1: &str) -> (r: (usize, usize))
        requires
            self.wf(),
        ensures
            r.0 <= r.1 <= self.entries@.len(),
            forall|i: int| r.0 <= i < r.1 ==> (#[trigger] self.entries@.index(i)).k1@ == k1@,
            forall|i: int|
                0 <= i < self.entries@.len() && !(r.0 <= i < r.1)
                    ==> (#[trigger] self.entries@.index(i)).k1@ != k1@,
    {
        let n = self.entries.len();
        let lo = self.block_start(k1);
        let hi = self.block_end(k1, lo);
        proof {
            assert forall|i: int| 0 <= i < lo implies self.entries@.index(i).k1@ != k1@ by {
                lemma_lex_trichotomy(self.entries@.index(i).k1@, k1@);
            }
            assert forall|i: int| hi <= i < n implies self.entries@.index(i).k1@ != k1@ by {
                self.lemma_beyond_block(k1@, lo as int, hi as int, i);
            }
        }
        (lo, hi)
    }

    /// First position whose entry's leading key component is not strictly
    /// below `k1`.
    fn block_start(&self, k1: &str) -> (lo: usize)
        ensures
            lo <= self.entries@.len(),
            forall|j: int| 0 <= j < lo ==> lex_lt((#[trigger] self.entries@.index(j)).k1@, k1@),
            lo < self.entries@.len() ==> !lex_lt(self.entries@.index(lo as int).k1@, k1@),
    {
        let n = self.entries.len();
        let mut i: usize = 0;
        loop
            invariant
                i <= n,
                n == self.entries@.len(),
                forall|j: int| 0 <= j < i ==> lex_lt((#[trigger] self.entries@.index(j)).k1@, k1@),
            decreases n - i,
        {
            if i == n {
                return i;
            }
            let e = &self.entries[i];
            if !str_lt(e.k1.as_str(), k1) {
                return i;
            }
            i = i + 1;
        }
    }

    /// First position at or after `lo` whose entry's leading key component
    /// differs from `k1`.
    fn block_end(&self, k1: &str, lo: usize) -> (hi: usize)
        requires
            lo <= self.entries@.len(),
        ensures
            lo <= hi <= self.entries@.len(),
            forall|j: int| lo <= j < hi ==> (#[trigger] self.entries@.index(j)).k1@ == k1@,
            hi < self.entries@.len() ==> self.entries@.index(hi as int).k1@ != k1@,
    {
        let n = self.entries.len();
        let mut i: usize = lo;
        loop
            invariant
                lo <= i <= n,
                n == self.entries@.len(),
                forall|j: int| lo <= j < i ==> (#[trigger] self.entries@.index(j)).k1@ == k1@,
            decreases n - i,
        {
            if i == n {
                return i;
            }
            let e = &self.entries[i];
            if !str_eq(e.k1.as_str(), k1) {
                return i;
            }
            i = i + 1;
        }
    }

    /// Entries at or beyond the end of a prefix block do not carry the
    /// prefix.
    proof fn lemma_beyond_block(self, k1: Seq<char>, lo: int, hi: int, i: int)
        requires
            self.wf(),
            0 <= lo <= hi <= self.entries@.len(),
            hi <= i < self.entries@.len(),
            forall|j: int| 0 <= j < lo ==> lex_lt((#[trigger] self.entries@.index(j)).k1@, k1),
            forall|j: int| lo <= j < hi ==> (#[trigger] self.entries@.index(j)).k1@ == k1,
            hi < self.entries@.len() ==> self.entries@.index(hi).k1@ != k1,
            lo == hi && lo < self.entries@.len() ==> !lex_lt(self.entries@.index(lo).k1@, k1),
        ensures
            self.entries@.index(i).k1@ != k1,
    {
        let s = self.entries@;
        let ehi = s.index(hi);
        // the entry right at `hi` is strictly above the prefix
        if hi > lo {
            let prev = s.index(hi - 1);
            assert(key_lt(prev.k1@, prev.k2@, ehi.k1@, ehi.k2@));
            lemma_lex_trichotomy(ehi.k1@, k1);
            assert(lex_lt(k1, ehi.k1@));
        } else {
            lemma_lex_trichotomy(ehi.k1@, k1);
            assert(lex_lt(k1, ehi.k1@));
        }
        if i == hi {
            lemma_lex_trichotomy(k1, ehi.k1@);
        } else {
            let ei = s.index(i);
            assert(key_lt(ehi.k1@, ehi.k2@, ei.k1@, ei.k2@));
            if ehi.k1@ == ei.k1@ {
                lemma_lex_trichotomy(k1, ei.k1@);
            } else {
                lemma_lex_lt_trans(k1, ehi.k1@, ei.k1@);
                lemma_lex_trichotomy(k1, ei.k1@);
            }
        }
    }

    /// The entry at a position.
    pub fn entry_at(&self, i: usize) -> (r: &Entry<V>)
        requires
            i < self.entries@.len(),
        ensures
            *r == self.entries@.index(i as int),
    {
        &self.entries[i]
    }

    /// Number of stored records.
    pub fn len(&self) -> (r: usize)
        ensures
            r == self.entries@.len(),
    {
        self.entries.len()
    }

    /// An entry of a well-formed store is the one the lookup of its own key
    /// finds.
    pub proof fn lemma_entry_found(self, i: int)
        requires
            self.wf(),
            0 <= i < self.entries@.len(),
        ensures
            self.spec_get(self.entries@.index(i).k1@, self.entries@.index(i).k2@) == Some(
                self.entries@.index(i).v,
            ),
    {
        let e = self.entries@.index(i);
        assert forall|j: int| 0 <= j < i implies !(self.entries@.index(j).k1@ == e.k1@
            && self.entries@.index(j).k2@ == e.k2@) by {
            lemma_key_lt_ne(
                self.entries@.index(j).k1@, self.entries@.index(j).k2@,
                e.k1@, e.k2@,
            );
        }
        lemma_seq_find_hit(self.entries@, e.k1@, e.k2@, i);
    }

    /// A stored key is carried by some entry.
    pub proof fn lemma_found_entry(self, k1: Seq<char>, k2: Seq<char>)
        requires
            self.spec_get(k1, k2) is Some,
        ensures
            exists|i: int|
                0 <= i < self.entries@.len() && (#[trigger] self.entries@.index(i)).k1@ == k1
                    && self.entries@.index(i).k2@ == k2 && self.spec_get(k1, k2) == Some(
                    self.entries@.index(i).v,
                ),
    {
        lemma_seq_find_witness(self.entries@, k1, k2);
    }
}

} // verus!
