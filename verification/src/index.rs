//! Secondary index layer and the indexed snapshot store for non-fungible
//! holdings.
//!
//! The owner index maps an owner to the primary keys of the records that
//! currently name that owner. It is maintained on every save and removal of
//! the primary store, so that after any sequence of mutations it reflects
//! exactly the current record set: no stale entry survives a removal, and a
//! save that changes a record's owner relocates the index entry in the same
//! step.

use vstd::prelude::*;
use crate::keys::{lex_lt, lemma_lex_trichotomy, lemma_lex_lt_trans, str_lt, str_eq};
use crate::store::{StoreMap, key_lt};
use crate::state::Cw721Deposits;

verus! {

/// One index entry: an owner and the primary key of a record that names
/// that owner.
pub struct IdxEntry {
    pub owner: String,
    pub contract: String,
    pub token_id: String,
}

/// Strict order on index triples: by owner, then contract, then token id.
pub open spec fn trip_lt(
    a1: Seq<char>, a2: Seq<char>, a3: Seq<char>,
    b1: Seq<char>, b2: Seq<char>, b3: Seq<char>,
) -> bool {
    lex_lt(a1, b1) || (a1 == b1 && (lex_lt(a2, b2) || (a2 == b2 && lex_lt(a3, b3))))
}

/// A triple strictly below another is a different triple.
pub proof fn lemma_trip_lt_ne(
    a1: Seq<char>, a2: Seq<char>, a3: Seq<char>,
    b1: Seq<char>, b2: Seq<char>, b3: Seq<char>,
)
    requires
        trip_lt(a1, a2, a3, b1, b2, b3),
    ensures
        !(a1 == b1 && a2 == b2 && a3 == b3),
{
    lemma_lex_trichotomy(a1, b1);
    lemma_lex_trichotomy(a2, b2);
    lemma_lex_trichotomy(a3, b3);
}

/// The triple order is transitive.
pub proof fn lemma_trip_lt_trans(
    a1: Seq<char>, a2: Seq<char>, a3: Seq<char>,
    b1: Seq<char>, b2: Seq<char>, b3: Seq<char>,
    c1: Seq<char>, c2: Seq<char>, c3: Seq<char>,
)
    requires
        trip_lt(a1, a2, a3, b1, b2, b3),
        trip_lt(b1, b2, b3, c1, c2, c3),
    ensures
        trip_lt(a1, a2, a3, c1, c2, c3),
{
    if lex_lt(a1, b1) && lex_lt(b1, c1) {
        lemma_lex_lt_trans(a1, b1, c1);
    }
    if a1 == b1 && b1 == c1 {
        if lex_lt(a2, b2) && lex_lt(b2, c2) {
            lemma_lex_lt_trans(a2, b2, c2);
        }
        if a2 == b2 && b2 == c2 && lex_lt(a3, b3) && lex_lt(b3, c3) {
            lemma_lex_lt_trans(a3, b3, c3);
        }
    }
}

/// Of two distinct triples, exactly one precedes the other.
pub proof fn lemma_trip_trichotomy(
    a1: Seq<char>, a2: Seq<char>, a3: Seq<char>,
    b1: Seq<char>, b2: Seq<char>, b3: Seq<char>,
)
    ensures
        trip_lt(a1, a2, a3, b1, b2, b3) || trip_lt(b1, b2, b3, a1, a2, a3) || (a1 == b1 && a2
            == b2 && a3 == b3),
        trip_lt(a1, a2, a3, b1, b2, b3) ==> !trip_lt(b1, b2, b3, a1, a2, a3),
{
    lemma_lex_trichotomy(a1, b1);
    lemma_lex_trichotomy(a2, b2);
    lemma_lex_trichotomy(a3, b3);
}

/// The owner index: entries strictly sorted by (owner, contract, token id).
pub struct OwnerIndex {
    pub entries: Vec<IdxEntry>,
}

impl OwnerIndex {
    /// Entries strictly ascend; every triple occurs at most once.
    pub open spec fn wf(self) -> bool {
        forall|i: int, j: int|
            0 <= i < j < self.entries@.len() ==> trip_lt(
                (#[trigger] self.entries@.index(i)).owner@,
                self.entries@.index(i).contract@,
                self.entries@.index(i).token_id@,
                (#[trigger] self.entries@.index(j)).owner@,
                self.entries@.index(j).contract@,
                self.entries@.index(j).token_id@,
            )
    }

    /// Whether the index holds the triple.
    pub open spec fn contains(self, o: Seq<char>, c: Seq<char>, t: Seq<char>) -> bool {
        exists|i: int|
            0 <= i < self.entries@.len() && (#[trigger] self.entries@.index(i)).owner@ == o
                && self.entries@.index(i).contract@ == c && self.entries@.index(i).token_id@ == t
    }

    /// An empty index.
    pub fn new() -> (r: Self)
        ensures
            r.wf(),
            r.entries@.len() == 0,
            forall|o: Seq<char>, c: Seq<char>, t: Seq<char>| !(#[trigger] r.contains(o, c, t)),
    {
        OwnerIndex { entries: Vec::new() }
    }

    /// Finds where a triple sits or belongs.
    fn locate(&self, o: &str, c: &str, t: &str) -> (r: (usize, bool))
        requires
            self.wf(),
        ensures
            r.0 <= self.entries@.len(),
            r.1 ==> r.0 < self.entries@.len() && self.entries@.index(r.0 as int).owner@ == o@
                && self.entries@.index(r.0 as int).contract@ == c@
                && self.entries@.index(r.0 as int).token_id@ == t@,
            forall|j: int|
                0 <= j < r.0 ==> trip_lt(
                    (#[trigger] self.entries@.index(j)).owner@,
                    self.entries@.index(j).contract@,
                    self.entries@.index(j).token_id@,
                    o@, c@, t@,
                ),
            !r.1 && r.0 < self.entries@.len() ==> trip_lt(
                o@, c@, t@,
                self.entries@.index(r.0 as int).owner@,
                self.entries@.index(r.0 as int).contract@,
                self.entries@.index(r.0 as int).token_id@,
            ),
            !r.1 ==> !self.contains(o@, c@, t@),
    {
        let n = self.entries.len();
        let mut i: usize = 0;
        loop
            invariant
                i <= n,
                n == self.entries@.len(),
                self.wf(),
                forall|j: int|
                    0 <= j < i ==> trip_lt(
                        (#[trigger] self.entries@.index(j)).owner@,
                        self.entries@.index(j).contract@,
                        self.entries@.index(j).token_id@,
                        o@, c@, t@,
                    ),
            decreases n - i,
        {
            if i == n {
                proof {
                    self.lemma_absent(o@, c@, t@, n as int, n as int);
                }
                return (n, false);
            }
            let e = &self.entries[i];
            if str_eq(e.owner.as_str(), o) && str_eq(e.contract.as_str(), c) && str_eq(
                e.token_id.as_str(),
                t,
            ) {
                return (i, true);
            }
            let below = if str_lt(e.owner.as_str(), o) {
                true
            } else if str_eq(e.owner.as_str(), o) {
                if str_lt(e.contract.as_str(), c) {
                    true
                } else if str_eq(e.contract.as_str(), c) {
                    str_lt(e.token_id.as_str(), t)
                } else {
                    false
                }
            } else {
                false
            };
            if !below {
                proof {
                    let ei = self.entries@.index(i as int);
                    lemma_trip_trichotomy(ei.owner@, ei.contract@, ei.token_id@, o@, c@, t@);
                    self.lemma_absent(o@, c@, t@, i as int, n as int);
                }
                return (i, false);
            }
            i = i + 1;
        }
    }

    /// If everything below `pos` precedes the triple and, when it exists,
    /// the entry at `pos` follows it, the triple is absent.
    proof fn lemma_absent(self, o: Seq<char>, c: Seq<char>, t: Seq<char>, pos: int, n: int)
        requires
            self.wf(),
            n == self.entries@.len(),
            0 <= pos <= n,
            forall|j: int|
                0 <= j < pos ==> trip_lt(
                    (#[trigger] self.entries@.index(j)).owner@,
                    self.entries@.index(j).contract@,
                    self.entries@.index(j).token_id@,
                    o, c, t,
                ),
            pos < n ==> trip_lt(
                o, c, t,
                self.entries@.index(pos).owner@,
                self.entries@.index(pos).contract@,
                self.entries@.index(pos).token_id@,
            ),
        ensures
            !self.contains(o, c, t),
    {
        assert forall|j: int| 0 <= j < n implies !((#[trigger] self.entries@.index(j)).owner@ == o
            && self.entries@.index(j).contract@ == c && self.entries@.index(j).token_id@ == t) by {
            let ej = self.entries@.index(j);
            if j < pos {
                lemma_trip_lt_ne(ej.owner@, ej.contract@, ej.token_id@, o, c, t);
            } else if j == pos {
                lemma_trip_lt_ne(o, c, t, ej.owner@, ej.contract@, ej.token_id@);
            } else {
                let ep = self.entries@.index(pos);
                lemma_trip_lt_trans(
                    o, c, t,
                    ep.owner@, ep.contract@, ep.token_id@,
                    ej.owner@, ej.contract@, ej.token_id@,
                );
                lemma_trip_lt_ne(o, c, t, ej.owner@, ej.contract@, ej.token_id@);
            }
        }
    }

    /// Adds a triple; every other triple's membership is unchanged.
    pub fn insert(&mut self, o: &str, c: &str, t: &str)
        requires
            old(self).wf(),
        ensures
            final(self).wf(),
            final(self).contains(o@, c@, t@),
            forall|x: Seq<char>, y: Seq<char>, z: Seq<char>|
                !(x == o@ && y == c@ && z == t@) ==> #[trigger] final(self).contains(x, y, z)
                    == old(self).contains(x, y, z),
    {
        let (pos, hit) = self.locate(o, c, t);
        if hit {
            proof {
                assert(self.entries@.index(pos as int).owner@ == o@);
            }
            return;
        }
        let entry = IdxEntry { owner: o.to_owned(), contract: c.to_owned(), token_id: t.to_owned() };
        self.entries.insert(pos, entry);
        proof {
            let olds = old(self).entries@;
            let news = self.entries@;
            let p = pos as int;
            assert(forall|j: int| 0 <= j < p ==> news.index(j) == olds.index(j));
            assert(forall|j: int| p < j < news.len() ==> news.index(j) == olds.index(j - 1));
            assert(news.index(p).owner@ == o@ && news.index(p).contract@ == c@
                && news.index(p).token_id@ == t@);
            assert forall|x: int, y: int| 0 <= x < y < news.len() implies trip_lt(
                news.index(x).owner@, news.index(x).contract@, news.index(x).token_id@,
                news.index(y).owner@, news.index(y).contract@, news.index(y).token_id@,
            ) by {
                if x == p {
                    if y - 1 > p {
                        lemma_trip_lt_trans(
                            o@, c@, t@,
                            olds.index(p).owner@, olds.index(p).contract@, olds.index(p).token_id@,
                            olds.index(y - 1).owner@, olds.index(y - 1).contract@,
                            olds.index(y - 1).token_id@,
                        );
                    }
                } else if y == p {
                } else if x < p && p < y {
                    if y - 1 > p {
                        lemma_trip_lt_trans(
                            o@, c@, t@,
                            olds.index(p).owner@, olds.index(p).contract@, olds.index(p).token_id@,
                            olds.index(y - 1).owner@, olds.index(y - 1).contract@,
                            olds.index(y - 1).token_id@,
                        );
                    }
                    lemma_trip_lt_trans(
                        olds.index(x).owner@, olds.index(x).contract@, olds.index(x).token_id@,
                        o@, c@, t@,
                        news.index(y).owner@, news.index(y).contract@, news.index(y).token_id@,
                    );
                }
            }
            assert forall|x: Seq<char>, y: Seq<char>, z: Seq<char>|
                !(x == o@ && y == c@ && z == t@) implies #[trigger] self.contains(x, y, z) == old(
                self,
            ).contains(x, y, z) by {
                if old(self).contains(x, y, z) {
                    let w = choose|w: int|
                        0 <= w < olds.len() && (#[trigger] olds.index(w)).owner@ == x && olds.index(
                            w,
                        ).contract@ == y && olds.index(w).token_id@ == z;
                    let nw = if w < p { w } else { w + 1 };
                    assert(news.index(nw) == olds.index(w));
                    assert(self.contains(x, y, z));
                }
                if self.contains(x, y, z) {
                    let w = choose|w: int|
                        0 <= w < news.len() && (#[trigger] news.index(w)).owner@ == x && news.index(
                            w,
                        ).contract@ == y && news.index(w).token_id@ == z;
                    if w != p {
                        let ow = if w < p { w } else { w - 1 };
                        assert(olds.index(ow) == news.index(w));
                        assert(old(self).contains(x, y, z));
                    }
                }
            }
        }
    }

    /// Drops a triple; every other triple's membership is unchanged.
    pub fn remove(&mut self, o: &str, c: &str, t: &str)
        requires
            old(self).wf(),
        ensures
            final(self).wf(),
            !final(self).contains(o@, c@, t@),
            forall|x: Seq<char>, y: Seq<char>, z: Seq<char>|
                !(x == o@ && y == c@ && z == t@) ==> #[trigger] final(self).contains(x, y, z)
                    == old(self).contains(x, y, z),
    {
        let (pos, hit) = self.locate(o, c, t);
        if !hit {
            return;
        }
        self.entries.remove(pos);
        proof {
            let olds = old(self).entries@;
            let news = self.entries@;
            let p = pos as int;
            assert(forall|j: int| 0 <= j < p ==> news.index(j) == olds.index(j));
            assert(forall|j: int| p <= j < news.len() ==> news.index(j) == olds.index(j + 1));
            assert forall|x: int, y: int| 0 <= x < y < news.len() implies trip_lt(
                news.index(x).owner@, news.index(x).contract@, news.index(x).token_id@,
                news.index(y).owner@, news.index(y).contract@, news.index(y).token_id@,
            ) by {
                let ox = if x < p { x } else { x + 1 };
                let oy = if y < p { y } else { y + 1 };
                assert(news.index(x) == olds.index(ox));
                assert(news.index(y) == olds.index(oy));
            }
            // the removed triple occurs nowhere else
            assert forall|j: int| 0 <= j < news.len() implies !((
            #[trigger] news.index(j)).owner@ == o@ && news.index(j).contract@ == c@ && news.index(
                j,
            ).token_id@ == t@) by {
                let oj = if j < p { j } else { j + 1 };
                assert(news.index(j) == olds.index(oj));
                if oj < p {
                    lemma_trip_lt_ne(
                        olds.index(oj).owner@, olds.index(oj).contract@, olds.index(oj).token_id@,
                        o@, c@, t@,
                    );
                } else {
                    assert(trip_lt(
                        olds.index(p).owner@, olds.index(p).contract@, olds.index(p).token_id@,
                        olds.index(oj).owner@, olds.index(oj).contract@, olds.index(oj).token_id@,
                    ));
                    lemma_trip_lt_ne(
                        o@, c@, t@,
                        olds.index(oj).owner@, olds.index(oj).contract@, olds.index(oj).token_id@,
                    );
                }
            }
            assert forall|x: Seq<char>, y: Seq<char>, z: Seq<char>|
                !(x == o@ && y == c@ && z == t@) implies #[trigger] self.contains(x, y, z) == old(
                self,
            ).contains(x, y, z) by {
                if old(self).contains(x, y, z) {
                    let w = choose|w: int|
                        0 <= w < olds.len() && (#[trigger] olds.index(w)).owner@ == x && olds.index(
                            w,
                        ).contract@ == y && olds.index(w).token_id@ == z;
                    if w != p {
                        let nw = if w < p { w } else { w - 1 };
                        assert(news.index(nw) == olds.index(w));
                        assert(self.contains(x, y, z));
                    }
                }
                if self.contains(x, y, z) {
                    let w = choose|w: int|
                        0 <= w < news.len() && (#[trigger] news.index(w)).owner@ == x && news.index(
                            w,
                        ).contract@ == y && news.index(w).token_id@ == z;
                    let ow = if w < p { w } else { w + 1 };
                    assert(olds.index(ow) == news.index(w));
                    assert(old(self).contains(x, y, z));
                }
            }
        }
    }

    /// The contiguous block of entries whose owner equals `o`.
    pub fn scan_owner(&self, o: &str) -> (r: (usize, usize))
        requires
            self.wf(),
        ensures
            r.0 <= r.1 <= self.entries@.len(),
            forall|i: int| r.0 <= i < r.1 ==> (#[trigger] self.entries@.index(i)).owner@ == o@,
            forall|i: int|
                0 <= i < self.entries@.len() && !(r.0 <= i < r.1)
                    ==> (#[trigger] self.entries@.index(i)).owner@ != o@,
    {
        let n = self.entries.len();
        let lo = self.block_start(o);
        let hi = self.block_end(o, lo);
        proof {
            assert forall|i: int| 0 <= i < lo implies self.entries@.index(i).owner@ != o@ by {
                lemma_lex_trichotomy(self.entries@.index(i).owner@, o@);
            }
            assert forall|i: int| hi <= i < n implies self.entries@.index(i).owner@ != o@ by {
                self.lemma_beyond_block(o@, lo as int, hi as int, i);
            }
        }
        (lo, hi)
    }

    /// First position whose owner is not strictly below `o`.
    fn block_start(&self, o: &str) -> (lo: usize)
        ensures
            lo <= self.entries@.len(),
            forall|j: int| 0 <= j < lo ==> lex_lt((#[trigger] self.entries@.index(j)).owner@, o@),
            lo < self.entries@.len() ==> !lex_lt(self.entries@.index(lo as int).owner@, o@),
    {
        let n = self.entries.len();
        let mut i: usize = 0;
        loop
            invariant
                i <= n,
                n == self.entries@.len(),
                forall|j: int| 0 <= j < i ==> lex_lt((#[trigger] self.entries@.index(j)).owner@, o@),
            decreases n - i,
        {
            if i == n {
                return i;
            }
            let e = &self.entries[i];
            if !str_lt(e.owner.as_str(), o) {
                return i;
            }
            i = i + 1;
        }
    }

    /// First position at or after `lo` whose owner differs from `o`.
    fn block_end(&self, o: &str, lo: usize) -> (hi: usize)
        requires
            lo <= self.entries@.len(),
        ensures
            lo <= hi <= self.entries@.len(),
            forall|j: int| lo <= j < hi ==> (#[trigger] self.entries@.index(j)).owner@ == o@,
            hi < self.entries@.len() ==> self.entries@.index(hi as int).owner@ != o@,
    {
        let n = self.entries.len();
        let mut i: usize = lo;
        loop
            invariant
                lo <= i <= n,
                n == self.entries@.len(),
                forall|j: int| lo <= j < i ==> (#[trigger] self.entries@.index(j)).owner@ == o@,
            decreases n - i,
        {
            if i == n {
                return i;
            }
            let e = &self.entries[i];
            if !str_eq(e.owner.as_str(), o) {
                return i;
            }
            i = i + 1;
        }
    }

    /// Entries at or beyond the end of an owner block do not carry the
    /// owner.
    proof fn lemma_beyond_block(self, o: Seq<char>, lo: int, hi: int, i: int)
        requires
            self.wf(),
            0 <= lo <= hi <= self.entries@.len(),
            hi <= i < self.entries@.len(),
            forall|j: int| 0 <= j < lo ==> lex_lt((#[trigger] self.entries@.index(j)).owner@, o),
            forall|j: int| lo <= j < hi ==> (#[trigger] self.entries@.index(j)).owner@ == o,
            hi < self.entries@.len() ==> self.entries@.index(hi).owner@ != o,
            lo == hi && lo < self.entries@.len() ==> !lex_lt(self.entries@.index(lo).owner@, o),
        ensures
            self.entries@.index(i).owner@ != o,
    {
        let s = self.entries@;
        let ehi = s.index(hi);
        if hi > lo {
            let prev = s.index(hi - 1);
            assert(trip_lt(
                prev.owner@, prev.contract@, prev.token_id@,
                ehi.owner@, ehi.contract@, ehi.token_id@,
            ));
            lemma_lex_trichotomy(ehi.owner@, o);
            assert(lex_lt(o, ehi.owner@));
        } else {
            lemma_lex_trichotomy(ehi.owner@, o);
            assert(lex_lt(o, ehi.owner@));
        }
        if i == hi {
            lemma_lex_trichotomy(o, ehi.owner@);
        } else {
            let ei = s.index(i);
            assert(trip_lt(
                ehi.owner@, ehi.contract@, ehi.token_id@,
                ei.owner@, ei.contract@, ei.token_id@,
            ));
            if ehi.owner@ == ei.owner@ {
                lemma_lex_trichotomy(o, ei.owner@);
            } else {
                lemma_lex_lt_trans(o, ehi.owner@, ei.owner@);
                lemma_lex_trichotomy(o, ei.owner@);
            }
        }
    }

    /// The entry at a position.
    pub fn entry_at(&self, i: usize) -> (r: &IdxEntry)
        requires
            i < self.entries@.len(),
        ensures
            *r == self.entries@.index(i as int),
    {
        &self.entries[i]
    }

    /// An entry of the index witnesses membership of its own triple.
    pub proof fn lemma_entry_contains(self, i: int)
        requires
            0 <= i < self.entries@.len(),
        ensures
            self.contains(
                self.entries@.index(i).owner@,
                self.entries@.index(i).contract@,
                self.entries@.index(i).token_id@,
            ),
    {
        assert(self.entries@.index(i).owner@ == self.entries@.index(i).owner@);
    }
}

/// One non-fungible changelog record: the record (or absence) that was in
/// place before the first mutation of the key at `height`.
pub struct NftChange {
    pub contract: String,
    pub token_id: String,
    pub height: u64,
    pub old: Option<Cw721Deposits>,
}

/// Indexed snapshot store for non-fungible holdings: a primary store keyed
/// (contract, token id), an owner index kept consistent with it, and a
/// height-keyed changelog of prior values.
pub struct NonFungibleStore {
    pub primary: StoreMap<Cw721Deposits>,
    pub owner_idx: OwnerIndex,
    pub log: Vec<NftChange>,
    /// The greatest height a mutation was recorded at; heights arrive
    /// monotonically from the host.
    pub max_height: Ghost<u64>,
}

impl NonFungibleStore {
    /// The owner currently holding the key, if any.
    pub open spec fn holding(self, c: Seq<char>, t: Seq<char>) -> Option<Seq<char>> {
        match self.primary.spec_get(c, t) {
            Some(d) => Some(d.owner@),
            None => None,
        }
    }

    /// Whether the changelog already records a mutation of the key at the
    /// height.
    pub open spec fn spec_log_has(self, c: Seq<char>, t: Seq<char>, h: u64) -> bool {
        exists|i: int|
            0 <= i < self.log@.len() && (#[trigger] self.log@.index(i)).contract@ == c
                && self.log@.index(i).token_id@ == t && self.log@.index(i).height == h
    }

    /// No mutation may come below this height.
    pub open spec fn seen_height(self) -> u64 {
        self.max_height@
    }

    /// Primary and index are each well-formed; every record carries its own
    /// key; the index holds exactly the (owner, key) pairs of the current
    /// records; changelog heights ascend and never exceed the watermark.
    pub open spec fn wf(self) -> bool {
        &&& self.primary.wf()
        &&& self.owner_idx.wf()
        &&& forall|a: Seq<char>, b: Seq<char>|
            #[trigger] self.primary.spec_get(a, b) matches Some(d) ==> d.contract@ == a
                && d.token_id@ == b
        &&& forall|o: Seq<char>, c: Seq<char>, t: Seq<char>|
            #[trigger] self.owner_idx.contains(o, c, t) ==> (self.primary.spec_get(c, t) matches
            Some(d) && d.owner@ == o)
        &&& forall|a: Seq<char>, b: Seq<char>|
            #[trigger] self.primary.spec_get(a, b) matches Some(d) ==> self.owner_idx.contains(
                d.owner@,
                a,
                b,
            )
        &&& forall|i: int, j: int|
            0 <= i < j < self.log@.len() ==> (#[trigger] self.log@.index(i)).height <= (
            #[trigger] self.log@.index(j)).height
        &&& forall|i: int|
            0 <= i < self.log@.len() ==> (#[trigger] self.log@.index(i)).height
                <= self.max_height@
        &&& forall|i: int, j: int|
            0 <= i < j < self.log@.len() ==> !((#[trigger] self.log@.index(i)).contract@ == (
            #[trigger] self.log@.index(j)).contract@ && self.log@.index(i).token_id@
                == self.log@.index(j).token_id@ && self.log@.index(i).height == self.log@.index(
                j,
            ).height)
    }

    /// An empty store.
    pub fn new() -> (r: Self)
        ensures
            r.wf(),
            r.primary.entries@.len() == 0,
            r.log@.len() == 0,
            r.seen_height() == 0,
            forall|c: Seq<char>, t: Seq<char>| #[trigger] r.holding(c, t) is None,
    {
        NonFungibleStore {
            primary: StoreMap::new(),
            owner_idx: OwnerIndex::new(),
            log: Vec::new(),
            max_height: Ghost(0u64),
        }
    }

    /// Whether the changelog already records a mutation of the key at the
    /// height.
    fn log_has(&self, c: &str, t: &str, height: u64) -> (r: bool)
        ensures
            r == self.spec_log_has(c@, t@, height),
    {
        let n = self.log.len();
        let mut i: usize = 0;
        while i < n
            invariant
                i <= n,
                n == self.log@.len(),
                forall|j: int|
                    0 <= j < i ==> !((#[trigger] self.log@.index(j)).contract@ == c@
                        && self.log@.index(j).token_id@ == t@ && self.log@.index(j).height
                        == height),
            decreases n - i,
        {
            let e = &self.log[i];
            if e.height == height && str_eq(e.contract.as_str(), c) && str_eq(
                e.token_id.as_str(),
                t,
            ) {
                proof {
                    assert(self.log@.index(i as int).contract@ == c@);
                }
                return true;
            }
            i = i + 1;
        }
        false
    }

    /// Records the holding of `token_id` on `contract` by `owner` as a
    /// mutation at `height`. An existing record for the key is overwritten;
    /// the owner index relocates with it; the changelog receives the prior
    /// state if this is the first mutation of the key at this height.
    pub fn save(&mut self, contract: &str, token_id: &str, owner: &str, height: u64)
        requires
            old(self).wf(),
            height >= old(self).seen_height(),
        ensures
            final(self).wf(),
            final(self).holding(contract@, token_id@) == Some(owner@),
            forall|a: Seq<char>, b: Seq<char>|
                !(a == contract@ && b == token_id@) ==> #[trigger] final(self).primary.spec_get(
                    a,
                    b,
                ) == old(self).primary.spec_get(a, b),
            final(self).seen_height() == height,
            old(self).spec_log_has(contract@, token_id@, height)
                ==> final(self).log@ == old(self).log@,
            !old(self).spec_log_has(contract@, token_id@, height)
                ==> final(self).log@.len() == old(self).log@.len() + 1
                && (forall|j: int| 0 <= j < old(self).log@.len()
                    ==> #[trigger] final(self).log@.index(j) == old(self).log@.index(j))
                && final(self).log@.last().contract@ == contract@
                && final(self).log@.last().token_id@ == token_id@
                && final(self).log@.last().height == height
                && final(self).log@.last().old == old(self).primary.spec_get(contract@, token_id@),
    {
        // snapshot the prior record
        let old_rec: Option<Cw721Deposits> = match self.primary.get(contract, token_id) {
            Some(d) => Some(d.clone()),
            None => None,
        };
        // changelog: keep the prior state on the first mutation at this height
        if !self.log_has(contract, token_id, height) {
            let prior = match &old_rec {
                Some(d) => Some(d.clone()),
                None => None,
            };
            self.log.push(
                NftChange {
                    contract: contract.to_owned(),
                    token_id: token_id.to_owned(),
                    height,
                    old: prior,
                },
            );
        }
        proof {
            self.max_height@ = height;
        }
        // primary record
        self.primary.set(
            contract,
            token_id,
            Cw721Deposits {
                owner: owner.to_owned(),
                contract: contract.to_owned(),
                token_id: token_id.to_owned(),
            },
        );
        // owner index: relocate if the owner changed, add if the key is new
        match old_rec {
            Some(d) => {
                if !str_eq(d.owner.as_str(), owner) {
                    self.owner_idx.remove(d.owner.as_str(), contract, token_id);
                    self.owner_idx.insert(owner, contract, token_id);
                    proof {
                        assert forall|x: Seq<char>| x != owner@ implies !self.owner_idx.contains(
                            x,
                            contract@,
                            token_id@,
                        ) by {
                            if self.owner_idx.contains(x, contract@, token_id@) {
                                if x != d.owner@ {
                                    assert(old(self).owner_idx.contains(x, contract@, token_id@));
                                    assert(old(self).primary.spec_get(contract@, token_id@)
                                        matches Some(d2) && d2.owner@ == x);
                                    assert(old(self).primary.spec_get(contract@, token_id@)
                                        == Some(d));
                                }
                            }
                        }
                    }
                } else {
                    proof {
                        assert forall|x: Seq<char>| x != owner@ implies !self.owner_idx.contains(
                            x,
                            contract@,
                            token_id@,
                        ) by {
                            if self.owner_idx.contains(x, contract@, token_id@) {
                                assert(old(self).owner_idx.contains(x, contract@, token_id@));
                                assert(old(self).primary.spec_get(contract@, token_id@)
                                    matches Some(d2) && d2.owner@ == x);
                                assert(old(self).primary.spec_get(contract@, token_id@)
                                    == Some(d));
                            }
                        }
                        // the record already names this owner, so its index
                        // entry is already in place
                        assert(old(self).primary.spec_get(contract@, token_id@) == Some(d));
                        assert(old(self).owner_idx.contains(d.owner@, contract@, token_id@));
                        assert(self.owner_idx.contains(owner@, contract@, token_id@));
                    }
                }
            },
            None => {
                self.owner_idx.insert(owner, contract, token_id);
                proof {
                    assert forall|x: Seq<char>| x != owner@ implies !self.owner_idx.contains(
                        x,
                        contract@,
                        token_id@,
                    ) by {
                        if self.owner_idx.contains(x, contract@, token_id@) {
                            assert(old(self).owner_idx.contains(x, contract@, token_id@));
                            assert(old(self).primary.spec_get(contract@, token_id@) matches Some(
                                d2,
                            ) && d2.owner@ == x);
                        }
                    }
                }
            },
        }
        proof {
            self.lemma_save_wf(*old(self), contract@, token_id@, owner@);
        }
    }

    /// Re-establishes the index invariants after a save.
    proof fn lemma_save_wf(self, pre: Self, c: Seq<char>, t: Seq<char>, o: Seq<char>)
        requires
            pre.wf(),
            self.primary.wf(),
            self.owner_idx.wf(),
            self.primary.spec_get(c, t) matches Some(d) && d.owner@ == o && d.contract@ == c
                && d.token_id@ == t,
            forall|a: Seq<char>, b: Seq<char>|
                !(a == c && b == t) ==> #[trigger] self.primary.spec_get(a, b)
                    == pre.primary.spec_get(a, b),
            self.owner_idx.contains(o, c, t),
            forall|x: Seq<char>, y: Seq<char>, z: Seq<char>|
                !(y == c && z == t) ==> #[trigger] self.owner_idx.contains(x, y, z)
                    == pre.owner_idx.contains(x, y, z),
            forall|x: Seq<char>| x != o ==> !(#[trigger] self.owner_idx.contains(x, c, t)),
        ensures
            forall|a: Seq<char>, b: Seq<char>|
                #[trigger] self.primary.spec_get(a, b) matches Some(d) ==> d.contract@ == a
                    && d.token_id@ == b,
            forall|x: Seq<char>, y: Seq<char>, z: Seq<char>|
                #[trigger] self.owner_idx.contains(x, y, z) ==> (self.primary.spec_get(y, z)
                    matches Some(d) && d.owner@ == x),
            forall|a: Seq<char>, b: Seq<char>|
                #[trigger] self.primary.spec_get(a, b) matches Some(d)
                    ==> self.owner_idx.contains(d.owner@, a, b),
    {
        assert forall|x: Seq<char>, y: Seq<char>, z: Seq<char>|
            #[trigger] self.owner_idx.contains(x, y, z) implies (self.primary.spec_get(y, z)
            matches Some(d) && d.owner@ == x) by {
            if y == c && z == t {
            } else {
                assert(pre.owner_idx.contains(x, y, z));
            }
        }
        assert forall|a: Seq<char>, b: Seq<char>|
            #[trigger] self.primary.spec_get(a, b) is Some implies self.owner_idx.contains(
            (self.primary.spec_get(a, b)->Some_0).owner@,
            a,
            b,
        ) by {
            if !(a == c && b == t) {
                assert(pre.primary.spec_get(a, b) == self.primary.spec_get(a, b));
                let d = self.primary.spec_get(a, b)->Some_0;
                assert(pre.owner_idx.contains(d.owner@, a, b));
            }
        }
    }

    /// Removes the record of a key as a mutation at `height` and returns
    /// it. The owner index entry is dropped in the same step; the changelog
    /// receives the prior record if this is the first mutation of the key
    /// at this height. An absent key leaves the store untouched.
    pub fn remove(&mut self, contract: &str, token_id: &str, height: u64) -> (r: Option<
        Cw721Deposits,
    >)
        requires
            old(self).wf(),
            height >= old(self).seen_height(),
        ensures
            final(self).wf(),
            r == old(self).primary.spec_get(contract@, token_id@),
            r is None ==> *final(self) == *old(self),
            r is Some ==> final(self).holding(contract@, token_id@) is None,
            r is Some ==> forall|o2: Seq<char>|
                !(#[trigger] final(self).owner_idx.contains(o2, contract@, token_id@)),
            forall|a: Seq<char>, b: Seq<char>|
                !(a == contract@ && b == token_id@) ==> #[trigger] final(self).primary.spec_get(
                    a,
                    b,
                ) == old(self).primary.spec_get(a, b),
            r is Some ==> final(self).seen_height() == height,
            r is Some && old(self).spec_log_has(contract@, token_id@, height)
                ==> final(self).log@ == old(self).log@,
            r is Some && !old(self).spec_log_has(contract@, token_id@, height)
                ==> final(self).log@.len() == old(self).log@.len() + 1
                && (forall|j: int| 0 <= j < old(self).log@.len()
                    ==> #[trigger] final(self).log@.index(j) == old(self).log@.index(j))
                && final(self).log@.last().contract@ == contract@
                && final(self).log@.last().token_id@ == token_id@
                && final(self).log@.last().height == height
                && final(self).log@.last().old == r,
    {
        let old_rec: Cw721Deposits = match self.primary.get(contract, token_id) {
            Some(d) => d.clone(),
            None => {
                return None;
            },
        };
        if !self.log_has(contract, token_id, height) {
            self.log.push(
                NftChange {
                    contract: contract.to_owned(),
                    token_id: token_id.to_owned(),
                    height,
                    old: Some(old_rec.clone()),
                },
            );
        }
        proof {
            self.max_height@ = height;
        }
        let removed = self.primary.remove(contract, token_id);
        self.owner_idx.remove(old_rec.owner.as_str(), contract, token_id);
        proof {
            assert forall|x: Seq<char>| !(#[trigger] self.owner_idx.contains(
                x,
                contract@,
                token_id@,
            )) by {
                if self.owner_idx.contains(x, contract@, token_id@) {
                    if x != old_rec.owner@ {
                        assert(old(self).owner_idx.contains(x, contract@, token_id@));
                        assert(old(self).primary.spec_get(contract@, token_id@) matches Some(d2)
                            && d2.owner@ == x);
                        assert(old(self).primary.spec_get(contract@, token_id@) == Some(old_rec));
                    }
                }
            }
            self.lemma_remove_wf(*old(self), contract@, token_id@);
        }
        removed
    }

    /// Re-establishes the index invariants after a removal.
    proof fn lemma_remove_wf(self, pre: Self, c: Seq<char>, t: Seq<char>)
        requires
            pre.wf(),
            self.primary.wf(),
            self.owner_idx.wf(),
            self.primary.spec_get(c, t) is None,
            forall|a: Seq<char>, b: Seq<char>|
                !(a == c && b == t) ==> #[trigger] self.primary.spec_get(a, b)
                    == pre.primary.spec_get(a, b),
            forall|x: Seq<char>, y: Seq<char>, z: Seq<char>|
                !(y == c && z == t) ==> #[trigger] self.owner_idx.contains(x, y, z)
                    == pre.owner_idx.contains(x, y, z),
            forall|x: Seq<char>| !(#[trigger] self.owner_idx.contains(x, c, t)),
        ensures
            forall|a: Seq<char>, b: Seq<char>|
                #[trigger] self.primary.spec_get(a, b) matches Some(d) ==> d.contract@ == a
                    && d.token_id@ == b,
            forall|x: Seq<char>, y: Seq<char>, z: Seq<char>|
                #[trigger] self.owner_idx.contains(x, y, z) ==> (self.primary.spec_get(y, z)
                    matches Some(d) && d.owner@ == x),
            forall|a: Seq<char>, b: Seq<char>|
                #[trigger] self.primary.spec_get(a, b) matches Some(d)
                    ==> self.owner_idx.contains(d.owner@, a, b),
    {
        assert forall|x: Seq<char>, y: Seq<char>, z: Seq<char>|
            #[trigger] self.owner_idx.contains(x, y, z) implies (self.primary.spec_get(y, z)
            matches Some(d) && d.owner@ == x) by {
            if y == c && z == t {
            } else {
                assert(pre.owner_idx.contains(x, y, z));
            }
        }
        assert forall|a: Seq<char>, b: Seq<char>|
            #[trigger] self.primary.spec_get(a, b) is Some implies self.owner_idx.contains(
            (self.primary.spec_get(a, b)->Some_0).owner@,
            a,
            b,
        ) by {
            if !(a == c && b == t) {
                assert(pre.primary.spec_get(a, b) == self.primary.spec_get(a, b));
                let d = self.primary.spec_get(a, b)->Some_0;
                assert(pre.owner_idx.contains(d.owner@, a, b));
            }
        }
    }

    /// All records held on a contract, ascending by token id. Exactly the
    /// keys of the contract are listed, each with its current record.
    pub fn list_by_contract(&self, contract: &str) -> (r: Vec<Cw721Deposits>)
        requires
            self.wf(),
        ensures
            forall|i: int|
                0 <= i < r@.len() ==> (#[trigger] r@.index(i)).contract@ == contract@
                    && self.primary.spec_get(contract@, r@.index(i).token_id@) == Some(r@.index(i)),
            forall|b: Seq<char>|
                #[trigger] self.primary.spec_get(contract@, b) is Some ==> exists|i: int|
                    0 <= i < r@.len() && (#[trigger] r@.index(i)).token_id@ == b,
            forall|i: int, j: int|
                0 <= i < j < r@.len() ==> lex_lt(
                    (#[trigger] r@.index(i)).token_id@,
                    (#[trigger] r@.index(j)).token_id@,
                ),
    {
        let (lo, hi) = self.primary.scan_prefix(contract);
        let mut out: Vec<Cw721Deposits> = Vec::new();
        let mut i: usize = lo;
        while i < hi
            invariant
                lo <= i <= hi <= self.primary.entries@.len(),
                self.wf(),
                out@.len() == i - lo,
                forall|x: int|
                    lo <= x < hi ==> (#[trigger] self.primary.entries@.index(x)).k1@ == contract@,
                forall|x: int|
                    0 <= x < out@.len() ==> #[trigger] out@.index(x) == self.primary.entries@.index(
                        lo + x,
                    ).v,
            decreases hi - i,
        {
            let e = self.primary.entry_at(i);
            out.push(e.v.clone());
            i = i + 1;
        }
        proof {
            assert forall|x: int| 0 <= x < out@.len() implies (#[trigger] out@.index(x)).contract@
                == contract@ && self.primary.spec_get(contract@, out@.index(x).token_id@) == Some(
                out@.index(x),
            ) by {
                self.primary.lemma_entry_found(lo + x);
                assert(self.primary.entries@.index(lo + x).k1@ == contract@);
            }
            assert forall|b: Seq<char>| #[trigger] self.primary.spec_get(contract@, b) is Some
                implies exists|i2: int|
                0 <= i2 < out@.len() && (#[trigger] out@.index(i2)).token_id@ == b by {
                self.primary.lemma_found_entry(contract@, b);
                let w = choose|w: int|
                    0 <= w < self.primary.entries@.len()
                        && (#[trigger] self.primary.entries@.index(w)).k1@ == contract@
                        && self.primary.entries@.index(w).k2@ == b && self.primary.spec_get(
                        contract@,
                        b,
                    ) == Some(self.primary.entries@.index(w).v);
                assert(lo <= w < hi);
                self.primary.lemma_entry_found(w);
                assert(out@.index(w - lo) == self.primary.entries@.index(w).v);
                assert(out@.index(w - lo).token_id@ == b);
            }
            assert forall|i2: int, j2: int| 0 <= i2 < j2 < out@.len() implies lex_lt(
                (#[trigger] out@.index(i2)).token_id@,
                (#[trigger] out@.index(j2)).token_id@,
            ) by {
                let ei = self.primary.entries@.index(lo + i2);
                let ej = self.primary.entries@.index(lo + j2);
                assert(key_lt(ei.k1@, ei.k2@, ej.k1@, ej.k2@));
                lemma_lex_trichotomy(ei.k1@, ej.k1@);
                self.primary.lemma_entry_found(lo + i2);
                self.primary.lemma_entry_found(lo + j2);
                assert(ei.v.token_id@ == ei.k2@);
                assert(ej.v.token_id@ == ej.k2@);
            }
        }
        out
    }

    /// All records currently owned by `owner`, ascending by (contract,
    /// token id). Exactly the records naming the owner are listed.
    pub fn list_by_owner(&self, owner: &str) -> (r: Vec<Cw721Deposits>)
        requires
            self.wf(),
        ensures
            forall|i: int|
                0 <= i < r@.len() ==> (#[trigger] r@.index(i)).owner@ == owner@
                    && self.primary.spec_get(r@.index(i).contract@, r@.index(i).token_id@) == Some(
                    r@.index(i),
                ),
            forall|a: Seq<char>, b: Seq<char>|
                #[trigger] self.primary.spec_get(a, b) matches Some(d) && d.owner@ == owner@
                    ==> exists|i: int|
                    0 <= i < r@.len() && (#[trigger] r@.index(i)).contract@ == a && r@.index(
                        i,
                    ).token_id@ == b,
            forall|i: int, j: int|
                0 <= i < j < r@.len() ==> key_lt(
                    (#[trigger] r@.index(i)).contract@,
                    r@.index(i).token_id@,
                    (#[trigger] r@.index(j)).contract@,
                    r@.index(j).token_id@,
                ),
    {
        let (lo, hi) = self.owner_idx.scan_owner(owner);
        let mut out: Vec<Cw721Deposits> = Vec::new();
        let mut i: usize = lo;
        while i < hi
            invariant
                lo <= i <= hi <= self.owner_idx.entries@.len(),
                self.wf(),
                out@.len() == i - lo,
                forall|x: int|
                    lo <= x < hi ==> (#[trigger] self.owner_idx.entries@.index(x)).owner@
                        == owner@,
                forall|x: int|
                    0 <= x < out@.len() ==> (#[trigger] out@.index(x)).contract@
                        == self.owner_idx.entries@.index(lo + x).contract@ && out@.index(
                        x,
                    ).token_id@ == self.owner_idx.entries@.index(lo + x).token_id@ && out@.index(
                        x,
                    ).owner@ == owner@ && self.primary.spec_get(
                        out@.index(x).contract@,
                        out@.index(x).token_id@,
                    ) == Some(out@.index(x)),
            decreases hi - i,
        {
            let e = self.owner_idx.entry_at(i);
            proof {
                self.owner_idx.lemma_entry_contains(i as int);
                assert(self.owner_idx.contains(owner@, e.contract@, e.token_id@));
                assert(self.primary.spec_get(e.contract@, e.token_id@) matches Some(d)
                    && d.owner@ == owner@);
            }
            let rec = match self.primary.get(e.contract.as_str(), e.token_id.as_str()) {
                Some(d) => d.clone(),
                None => {
                    proof {
                        assert(false);
                    }
                    vstd::pervasive::unreached()
                },
            };
            out.push(rec);
            i = i + 1;
        }
        proof {
            assert forall|a: Seq<char>, b: Seq<char>|
                #[trigger] self.primary.spec_get(a, b) matches Some(d) && d.owner@ == owner@
                    implies exists|i2: int|
                0 <= i2 < out@.len() && (#[trigger] out@.index(i2)).contract@ == a && out@.index(
                    i2,
                ).token_id@ == b by {
                let d = self.primary.spec_get(a, b)->Some_0;
                assert(self.owner_idx.contains(owner@, a, b));
                let w = choose|w: int|
                    0 <= w < self.owner_idx.entries@.len()
                        && (#[trigger] self.owner_idx.entries@.index(w)).owner@ == owner@
                        && self.owner_idx.entries@.index(w).contract@ == a
                        && self.owner_idx.entries@.index(w).token_id@ == b;
                assert(lo <= w < hi);
                assert(out@.index(w - lo).contract@ == a);
                assert(out@.index(w - lo).token_id@ == b);
            }
            assert forall|i2: int, j2: int| 0 <= i2 < j2 < out@.len() implies key_lt(
                (#[trigger] out@.index(i2)).contract@,
                out@.index(i2).token_id@,
                (#[trigger] out@.index(j2)).contract@,
                out@.index(j2).token_id@,
            ) by {
                let ei = self.owner_idx.entries@.index(lo + i2);
                let ej = self.owner_idx.entries@.index(lo + j2);
                assert(trip_lt(
                    ei.owner@, ei.contract@, ei.token_id@,
                    ej.owner@, ej.contract@, ej.token_id@,
                ));
                lemma_lex_trichotomy(ei.owner@, ej.owner@);
            }
        }
        out
    }

    /// The record (or absence) in place when `height` began: the prior
    /// state kept by the first changelog record of the key at or after
    /// `height`, or the current record if there is none.
    pub fn load_at(&self, contract: &str, token_id: &str, height: u64) -> (r: Option<
        Cw721Deposits,
    >)
        ensures
            r == spec_nft_at(
                self.log@,
                self.primary.spec_get(contract@, token_id@),
                contract@,
                token_id@,
                height,
            ),
    {
        let n = self.log.len();
        let mut i: usize = 0;
        proof {
            assert(self.log@.skip(0) =~= self.log@);
        }
        loop
            invariant
                i <= n,
                n == self.log@.len(),
                spec_nft_at(
                    self.log@,
                    self.primary.spec_get(contract@, token_id@),
                    contract@,
                    token_id@,
                    height,
                ) == spec_nft_at(
                    self.log@.skip(i as int),
                    self.primary.spec_get(contract@, token_id@),
                    contract@,
                    token_id@,
                    height,
                ),
            decreases n - i,
        {
            if i == n {
                return match self.primary.get(contract, token_id) {
                    Some(d) => Some(d.clone()),
                    None => None,
                };
            }
            let e = &self.log[i];
            proof {
                assert(self.log@.skip(i as int)[0] == self.log@[i as int]);
            }
            if e.height >= height && str_eq(e.contract.as_str(), contract) && str_eq(
                e.token_id.as_str(),
                token_id,
            ) {
                return match &e.old {
                    Some(d) => Some(d.clone()),
                    None => None,
                };
            }
            proof {
                assert(self.log@.skip(i as int).drop_first() =~= self.log@.skip(i as int + 1));
            }
            i = i + 1;
        }
    }

    /// Each changelog record is what the reconstruction returns for its own
    /// key and height: the recorded prior state is the record that was in
    /// place when that height began.
    pub proof fn lemma_load_at_recorded(self, i: int)
        requires
            self.wf(),
            0 <= i < self.log@.len(),
        ensures
            spec_nft_at(
                self.log@,
                self.primary.spec_get(
                    self.log@.index(i).contract@,
                    self.log@.index(i).token_id@,
                ),
                self.log@.index(i).contract@,
                self.log@.index(i).token_id@,
                self.log@.index(i).height,
            ) == self.log@.index(i).old,
    {
        lemma_nft_at_hits(
            self.log@,
            self.primary.spec_get(self.log@.index(i).contract@, self.log@.index(i).token_id@),
            i,
        );
    }
}

/// With heights ascending along the log and at most one record per (key,
/// height), the reconstruction at a recorded (key, height) lands on that
/// record.
proof fn lemma_nft_at_hits(log: Seq<NftChange>, cur: Option<Cw721Deposits>, i: int)
    requires
        0 <= i < log.len(),
        forall|x: int, y: int|
            0 <= x < y < log.len() ==> (#[trigger] log.index(x)).height <= (
            #[trigger] log.index(y)).height,
        forall|x: int, y: int|
            0 <= x < y < log.len() ==> !((#[trigger] log.index(x)).contract@ == (
            #[trigger] log.index(y)).contract@ && log.index(x).token_id@ == log.index(
                y,
            ).token_id@ && log.index(x).height == log.index(y).height),
    ensures
        spec_nft_at(
            log,
            cur,
            log.index(i).contract@,
            log.index(i).token_id@,
            log.index(i).height,
        ) == log.index(i).old,
    decreases i,
{
    if i > 0 {
        if log.index(0).contract@ == log.index(i).contract@ && log.index(0).token_id@
            == log.index(i).token_id@ {
            assert(log.index(0).height < log.index(i).height);
        }
        assert(log.drop_first().index(i - 1) == log.index(i));
        assert(forall|x: int|
            0 <= x < log.len() - 1 ==> log.drop_first().index(x) == log.index(x + 1));
        lemma_nft_at_hits(log.drop_first(), cur, i - 1);
    }
}

/// The reconstructed record of a key as of the start of `height`.
pub open spec fn spec_nft_at(
    log: Seq<NftChange>,
    cur: Option<Cw721Deposits>,
    c: Seq<char>,
    t: Seq<char>,
    height: u64,
) -> Option<Cw721Deposits>
    decreases log.len(),
{
    if log.len() == 0 {
        cur
    } else if log[0].contract@ == c && log[0].token_id@ == t && log[0].height >= height {
        log[0].old
    } else {
        spec_nft_at(log.drop_first(), cur, c, t, height)
    }
}

} // verus!
