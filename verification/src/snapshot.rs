//! Height-versioned snapshot of a scalar counter.
//!
//! Only the current value and a changelog of (height, prior value) pairs are
//! stored. On the first mutation observed at a height, the value that was
//! current until then is recorded against that height; the value as of any
//! past height can therefore be reconstructed, and the changelog can be
//! enumerated in ascending height order.

use vstd::prelude::*;

verus! {

/// One changelog record: the value that was current before the first
/// mutation at `height` (`None` when no value had ever been set).
#[derive(Clone, Copy)]
pub struct ChangeEntry {
    pub height: u64,
    pub old: Option<u64>,
}

/// One step of replaying the mutation history: extends the changelog if the
/// mutation is the first one at its height, then moves to the new value.
pub open spec fn replay_step(
    acc: (Seq<(u64, Option<u64>)>, Option<u64>),
    ev: (u64, Option<u64>),
) -> (Seq<(u64, Option<u64>)>, Option<u64>) {
    let log = if acc.0.len() > 0 && acc.0.last().0 == ev.0 {
        acc.0
    } else {
        acc.0.push((ev.0, acc.1))
    };
    (log, ev.1)
}

/// The changelog and current value that replaying the first `i` recorded
/// mutations produces, starting from the unset state.
pub open spec fn replay(hist: Seq<(u64, Option<u64>)>, i: int) -> (
    Seq<(u64, Option<u64>)>,
    Option<u64>,
)
    decreases i,
{
    if i <= 0 {
        (Seq::empty(), None)
    } else {
        replay_step(replay(hist, i - 1), hist[i - 1])
    }
}

/// Replaying a history reads only the events before the given bound.
pub proof fn lemma_replay_prefix(h1: Seq<(u64, Option<u64>)>, h2: Seq<(u64, Option<u64>)>, i: int)
    requires
        0 <= i <= h1.len(),
        i <= h2.len(),
        forall|j: int| 0 <= j < i ==> h1[j] == h2[j],
    ensures
        replay(h1, i) == replay(h2, i),
    decreases i,
{
    if i > 0 {
        lemma_replay_prefix(h1, h2, i - 1);
    }
}

/// The changelog records whose height lies in `from..to`, in the order
/// they stand in the log.
pub open spec fn spec_range(
    log: Seq<(u64, Option<u64>)>,
    from: u64,
    to: u64,
) -> Seq<(u64, Option<u64>)>
    decreases log.len(),
{
    if log.len() == 0 {
        Seq::empty()
    } else {
        let rest = spec_range(log.drop_first(), from, to);
        if from <= log[0].0 < to {
            seq![log[0]] + rest
        } else {
            rest
        }
    }
}

/// The reconstructed value as of the start of `height`: the prior value of
/// the first changelog record at or after `height`, or the current value if
/// there is none.
pub open spec fn spec_value_at(
    log: Seq<(u64, Option<u64>)>,
    cur: Option<u64>,
    height: u64,
) -> Option<u64>
    decreases log.len(),
{
    if log.len() == 0 {
        cur
    } else if log[0].0 >= height {
        log[0].1
    } else {
        spec_value_at(log.drop_first(), cur, height)
    }
}

/// With strictly ascending heights, the reconstruction at a recorded height
/// returns that record's prior value.
proof fn lemma_value_at_hits(log: Seq<(u64, Option<u64>)>, cur: Option<u64>, i: int)
    requires
        0 <= i < log.len(),
        forall|x: int, y: int|
            0 <= x < y < log.len() ==> (#[trigger] log[x]).0 < (#[trigger] log[y]).0,
    ensures
        spec_value_at(log, cur, log[i].0) == log[i].1,
    decreases i,
{
    if i == 0 {
    } else {
        assert(log[0].0 < log[i].0);
        assert(log.drop_first()[i - 1] == log[i]);
        assert(forall|j: int| 0 <= j < log.len() - 1 ==> log.drop_first()[j] == log[j + 1]);
        lemma_value_at_hits(log.drop_first(), cur, i - 1);
    }
}

/// A scalar with a height-keyed changelog of its prior values.
pub struct SnapshotU64 {
    pub current: Option<u64>,
    pub log: Vec<ChangeEntry>,
    /// Every mutation ever applied, as (height, value set by the mutation).
    pub hist: Ghost<Seq<(u64, Option<u64>)>>,
}

impl SnapshotU64 {
    /// The changelog as a sequence of (height, prior value) pairs.
    pub open spec fn log_view(self) -> Seq<(u64, Option<u64>)> {
        Seq::new(self.log@.len() as nat, |i: int| (self.log@[i].height, self.log@[i].old))
    }

    /// The height of the latest recorded mutation; zero before any.
    pub open spec fn latest(self) -> u64 {
        if self.hist@.len() == 0 {
            0u64
        } else {
            self.hist@.last().0
        }
    }

    /// The changelog and current value are exactly what replaying the full
    /// mutation history from the unset state produces, and mutations were
    /// fed in ascending height order.
    pub open spec fn wf(self) -> bool {
        &&& (self.log_view(), self.current) == replay(self.hist@, self.hist@.len() as int)
        &&& forall|i: int, j: int|
            0 <= i < j < self.hist@.len() ==> (#[trigger] self.hist@[i]).0 <= (
            #[trigger] self.hist@[j]).0
    }

    /// A snapshot that has never held a value.
    pub fn new() -> (r: Self)
        ensures
            r.wf(),
            r.current is None,
            r.log@.len() == 0,
            r.hist@.len() == 0,
    {
        let r = SnapshotU64 { current: None, log: Vec::new(), hist: Ghost(Seq::empty()) };
        proof {
            assert(r.log_view() =~= Seq::<(u64, Option<u64>)>::empty());
        }
        r
    }

    /// Sets the counter to `value` as a mutation at `height`, recording the
    /// prior value against `height` if this is the first mutation observed
    /// there.
    pub fn update(&mut self, height: u64, value: u64)
        requires
            old(self).wf(),
            height >= old(self).latest(),
        ensures
            final(self).wf(),
            final(self).current == Some(value),
            final(self).hist@ == old(self).hist@.push((height, Some(value))),
            final(self).latest() == height,
            old(self).log@.len() > 0 && old(self).log@.last().height == height
                ==> final(self).log@ == old(self).log@,
            !(old(self).log@.len() > 0 && old(self).log@.last().height == height)
                ==> final(self).log_view() == old(self).log_view().push(
                (height, old(self).current)),
    {
        let n = self.log.len();
        let repeat = n > 0 && self.log[n - 1].height == height;
        if !repeat {
            self.log.push(ChangeEntry { height, old: self.current });
        }
        self.current = Some(value);
        proof {
            let oldh = old(self).hist@;
            let newh = oldh.push((height, Some(value)));
            self.hist@ = newh;
            lemma_replay_prefix(newh, oldh, oldh.len() as int);
            assert(replay(newh, newh.len() as int) == replay_step(
                replay(oldh, oldh.len() as int),
                (height, Some(value)),
            ));
            if !repeat {
                assert(self.log_view() =~= old(self).log_view().push(
                    (height, old(self).current),
                ));
            } else {
                assert(self.log_view() =~= old(self).log_view());
            }
            assert forall|i: int, j: int| 0 <= i < j < newh.len() implies (#[trigger] newh[i]).0
                <= (#[trigger] newh[j]).0 by {
                if j == newh.len() - 1 && oldh.len() > 0 {
                    assert(newh[i] == oldh[i]);
                    assert(oldh[i].0 <= oldh.last().0);
                }
            }
        }
    }

    /// The current value, if one was ever set.
    pub fn get_current(&self) -> (r: Option<u64>)
        ensures
            r == self.current,
    {
        self.current
    }

    /// The changelog, ascending by height.
    pub fn changelog(&self) -> (r: Vec<(u64, Option<u64>)>)
        ensures
            r@ == self.log_view(),
    {
        let n = self.log.len();
        let mut out: Vec<(u64, Option<u64>)> = Vec::new();
        let mut i: usize = 0;
        while i < n
            invariant
                i <= n,
                n == self.log@.len(),
                out@.len() == i,
                forall|j: int| 0 <= j < i ==> out@[j] == (self.log@[j].height, self.log@[j].old),
            decreases n - i,
        {
            let e = self.log[i];
            out.push((e.height, e.old));
            i = i + 1;
        }
        proof {
            assert(out@ =~= self.log_view());
        }
        out
    }

    /// The changelog restricted to heights in `from..to`, ascending by
    /// height.
    pub fn changelog_range(&self, from: u64, to: u64) -> (r: Vec<(u64, Option<u64>)>)
        ensures
            r@ == spec_range(self.log_view(), from, to),
    {
        let n = self.log.len();
        let mut out: Vec<(u64, Option<u64>)> = Vec::new();
        let mut i: usize = 0;
        proof {
            assert(self.log_view().skip(0) =~= self.log_view());
        }
        while i < n
            invariant
                i <= n,
                n == self.log@.len(),
                spec_range(self.log_view(), from, to) == out@ + spec_range(
                    self.log_view().skip(i as int),
                    from,
                    to,
                ),
            decreases n - i,
        {
            let e = self.log[i];
            let ghost pre_out = out@;
            proof {
                assert(self.log_view().skip(i as int)[0] == self.log_view()[i as int]);
                assert(self.log_view().skip(i as int).drop_first() =~= self.log_view().skip(
                    i as int + 1,
                ));
            }
            if e.height >= from && e.height < to {
                out.push((e.height, e.old));
                proof {
                    let v = self.log_view();
                    let rest = spec_range(v.skip(i as int + 1), from, to);
                    assert(out@ =~= pre_out + seq![v[i as int]]);
                    assert(pre_out + (seq![v[i as int]] + rest) =~= (pre_out + seq![
                        v[i as int],
                    ]) + rest);
                }
            }
            i = i + 1;
        }
        proof {
            assert(spec_range(self.log_view().skip(n as int), from, to) =~= Seq::<(
                u64,
                Option<u64>,
            )>::empty());
            assert(out@ + Seq::<(u64, Option<u64>)>::empty() =~= out@);
        }
        out
    }

    /// The value that was current when `height` began: the prior value
    /// recorded by the first mutation at or after `height`, or the current
    /// value if no such mutation happened.
    pub fn load_at(&self, height: u64) -> (r: Option<u64>)
        ensures
            r == spec_value_at(self.log_view(), self.current, height),
    {
        let n = self.log.len();
        let mut i: usize = 0;
        proof {
            assert(self.log_view().skip(0) =~= self.log_view());
        }
        loop
            invariant
                i <= n,
                n == self.log@.len(),
                spec_value_at(self.log_view(), self.current, height) == spec_value_at(
                    self.log_view().skip(i as int),
                    self.current,
                    height,
                ),
            decreases n - i,
        {
            if i == n {
                return self.current;
            }
            let e = self.log[i];
            proof {
                assert(self.log_view().skip(i as int)[0] == self.log_view()[i as int]);
            }
            if e.height >= height {
                return e.old;
            }
            proof {
                assert(self.log_view().skip(i as int).drop_first() =~= self.log_view().skip(
                    i as int + 1,
                ));
            }
            i = i + 1;
        }
    }

    /// Each changelog record is what the reconstruction returns for its own
    /// height: the store's answer "as of height `h`" agrees with the value
    /// that was recorded as current until the first mutation at `h`.
    pub proof fn lemma_load_at_recorded(self, i: int)
        requires
            self.wf(),
            0 <= i < self.log@.len(),
        ensures
            spec_value_at(self.log_view(), self.current, self.log@[i].height) == self.log@[
                i].old,
    {
        self.lemma_log_heights_ascend();
        lemma_value_at_hits(self.log_view(), self.current, i);
    }

    /// In a well-formed snapshot the changelog heights are strictly
    /// ascending: at most one record exists per height.
    pub proof fn lemma_log_heights_ascend(self)
        requires
            self.wf(),
        ensures
            forall|i: int, j: int|
                0 <= i < j < self.log@.len() ==> (#[trigger] self.log@[i]).height < (
                #[trigger] self.log@[j]).height,
    {
        self.lemma_replay_log_ascends(self.hist@.len() as int);
        let rl = replay(self.hist@, self.hist@.len() as int).0;
        assert(self.log_view() == rl);
        assert forall|i: int, j: int| 0 <= i < j < self.log@.len() implies (
        #[trigger] self.log@[i]).height < (#[trigger] self.log@[j]).height by {
            assert(self.log_view()[i] == rl[i]);
            assert(self.log_view()[j] == rl[j]);
            assert(rl[i].0 < rl[j].0);
        }
    }

    /// The changelog that replaying any history prefix produces has strictly
    /// ascending heights, all at most the height of the last event replayed.
    proof fn lemma_replay_log_ascends(self, k: int)
        requires
            0 <= k <= self.hist@.len(),
            forall|i: int, j: int|
                0 <= i < j < self.hist@.len() ==> (#[trigger] self.hist@[i]).0 <= (
                #[trigger] self.hist@[j]).0,
        ensures
            forall|i: int, j: int|
                0 <= i < j < replay(self.hist@, k).0.len() ==> (#[trigger] replay(
                    self.hist@,
                    k,
                ).0[i]).0 < (#[trigger] replay(self.hist@, k).0[j]).0,
            k > 0 ==> forall|i: int|
                0 <= i < replay(self.hist@, k).0.len() ==> (#[trigger] replay(
                    self.hist@,
                    k,
                ).0[i]).0 <= self.hist@[k - 1].0,
            replay(self.hist@, k).0.len() <= k,
        decreases k,
    {
        if k > 0 {
            self.lemma_replay_log_ascends(k - 1);
        }
    }
}

} // verus!
