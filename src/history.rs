use vstd::prelude::*;
use std::collections::VecDeque;
use crate::pattern::{pattern_matches, pattern_match};
use crate::signal::{PersistentSignal, PersistentView, Signal, expired_at};

verus! {

/// The number of entries that the daemon's history keeps.
pub const MAX_HISTORY_SIZE: usize = 1000;

/// Views a sequence of entries.
pub open spec fn view_of(s: Seq<PersistentSignal>) -> Seq<PersistentView> {
    s.map_values(|e: PersistentSignal| e@)
}

/// Whether the ids along `s` strictly increase.
pub open spec fn ids_increasing(s: Seq<PersistentView>) -> bool {
    forall|i: int, j: int| 0 <= i < j < s.len() ==> s[i].id < s[j].id
}

/// The last `max` entries of `s` (all of them when there are fewer).
pub open spec fn keep_last(s: Seq<PersistentView>, max: nat) -> Seq<PersistentView> {
    if s.len() > max {
        s.subrange(s.len() - max, s.len() as int)
    } else {
        s
    }
}

/// Up to `limit` entries of `s` whose names match `p`, newest first.
pub open spec fn recent_matching(s: Seq<PersistentView>, p: Seq<char>, limit: nat) -> Seq<PersistentView>
    decreases s.len(),
{
    if s.len() == 0 || limit == 0 {
        Seq::empty()
    } else if pattern_matches(p, s.last().signal.name) {
        seq![s.last()] + recent_matching(s.drop_last(), p, (limit - 1) as nat)
    } else {
        recent_matching(s.drop_last(), p, limit)
    }
}

/// The entries of `s` that have not expired at `now`, in their order.
pub open spec fn unexpired(s: Seq<PersistentView>, now: u64) -> Seq<PersistentView>
    decreases s.len(),
{
    if s.len() == 0 {
        s
    } else if expired_at(s.last(), now) {
        unexpired(s.drop_last(), now)
    } else {
        unexpired(s.drop_last(), now).push(s.last())
    }
}

/// The number of entries of `s` whose names match `p`.
pub open spec fn count_matching(s: Seq<PersistentView>, p: Seq<char>) -> nat
    decreases s.len(),
{
    if s.len() == 0 {
        0
    } else if pattern_matches(p, s.last().signal.name) {
        count_matching(s.drop_last(), p) + 1
    } else {
        count_matching(s.drop_last(), p)
    }
}

/// A bounded sequence of recent signals, oldest first, each with an id that
/// no earlier entry had.
pub struct History {
    entries: VecDeque<PersistentSignal>,
    max_size: usize,
    next_id: u64,
}

impl View for History {
    type V = Seq<PersistentView>;

    closed spec fn view(&self) -> Seq<PersistentView> {
        view_of(self.entries@)
    }
}

impl History {
    /// The number of entries kept at most.
    pub closed spec fn capacity(&self) -> nat {
        self.max_size as nat
    }

    /// The id that the next append gives.
    pub closed spec fn upcoming_id(&self) -> u64 {
        self.next_id
    }

    /// The history's invariant: within capacity, ids increasing and all
    /// below the next id to be given.
    pub closed spec fn wf(&self) -> bool {
        &&& self.entries@.len() <= self.max_size
        &&& ids_increasing(self@)
        &&& forall|i: int| 0 <= i < self@.len() ==> self@[i].id < self.next_id
    }

    /// In a well-formed history the ids increase from oldest to newest and
    /// are all below the next id to be given.
    pub proof fn lemma_ids(&self)
        requires
            self.wf(),
        ensures
            ids_increasing(self@),
            forall|i: int| 0 <= i < self@.len() ==> #[trigger] self@[i].id < self.upcoming_id(),
    {
    }

    /// A well-formed history holds at most its capacity.
    pub proof fn lemma_bounded(&self)
        requires
            self.wf(),
        ensures
            self@.len() <= self.capacity(),
    {
    }

    /// An empty history that keeps at most `max_size` entries; ids start at 1.
    pub fn new(max_size: usize) -> (h: History)
        ensures
            h.wf(),
            h@ == Seq::<PersistentView>::empty(),
            h.capacity() == max_size,
            h.upcoming_id() == 1,
    {
        let h = History { entries: VecDeque::new(), max_size, next_id: 1 };
        assert(h@ =~= Seq::<PersistentView>::empty());
        h
    }

    /// The number of entries held.
    pub fn len(&self) -> (r: usize)
        ensures
            r == self@.len(),
    {
        self.entries.len()
    }

    /// Whether another id can still be given.
    pub fn can_append(&self) -> (r: bool)
        ensures
            r == (self.upcoming_id() < u64::MAX),
    {
        self.next_id < u64::MAX
    }

    /// Appends `signal` under a fresh id, then drops the oldest entries
    /// beyond capacity. Returns the id given.
    pub fn append(&mut self, signal: Signal, ttl: Option<u64>) -> (id: u64)
        requires
            old(self).wf(),
            old(self).upcoming_id() < u64::MAX,
        ensures
            final(self).wf(),
            id == old(self).upcoming_id(),
            final(self).upcoming_id() == id + 1,
            final(self).capacity() == old(self).capacity(),
            final(self)@ == keep_last(
                old(self)@.push(PersistentView { signal: signal@, id, ttl }),
                old(self).capacity(),
            ),
            final(self)@.len() <= final(self).capacity(),
    {
        let id = self.next_id;
        self.next_id = id + 1;
        let ghost pushed = self@.push(PersistentView { signal: signal@, id, ttl });
        self.entries.push_back(PersistentSignal { signal, id, ttl });
        assert(self@ =~= pushed);
        if self.entries.len() > self.max_size {
            // at most one entry beyond capacity: the history was within it
            self.entries.pop_front();
        }
        assert(self@ =~= keep_last(pushed, self.max_size as nat));
        assert forall|i: int, j: int| 0 <= i < j < self@.len() implies self@[i].id < self@[j].id by {
            let off = pushed.len() - self@.len();
            assert(self@[i] == pushed[i + off]);
            assert(self@[j] == pushed[j + off]);
        }
        assert forall|i: int| 0 <= i < self@.len() implies self@[i].id < self.next_id by {
            let off = pushed.len() - self@.len();
            assert(self@[i] == pushed[i + off]);
        }
        id
    }
    /// Up to `limit` entries whose names match `pattern`, newest first.
    pub fn recent(&self, pattern: &str, limit: usize) -> (r: Vec<PersistentSignal>)
        requires
            self.wf(),
        ensures
            view_of(r@) == recent_matching(self@, pattern@, limit as nat),
    {
        let mut out: Vec<PersistentSignal> = Vec::new();
        let mut i: usize = self.entries.len();
        let ghost all = self@;
        assert(all.subrange(0, i as int) =~= all);
        assert(view_of(out@) + recent_matching(all, pattern@, limit as nat) =~= recent_matching(all, pattern@, limit as nat));
        while i > 0 && out.len() < limit
            invariant
                i <= self.entries@.len(),
                all == self@,
                all.len() == self.entries@.len(),
                out@.len() <= limit,
                recent_matching(all, pattern@, limit as nat) == view_of(out@) + recent_matching(
                    all.subrange(0, i as int),
                    pattern@,
                    (limit - out@.len()) as nat,
                ),
            decreases i,
        {
            let ghost pre = all.subrange(0, i as int);
            assert(pre.drop_last() =~= all.subrange(0, i - 1));
            assert(pre.last() == all[i - 1]);
            let e = &self.entries[i - 1];
            assert(e@ == all[i - 1]);
            if pattern_match(pattern, e.signal.name.as_str()) {
                let ghost before = out@;
                out.push(e.duplicate());
                assert(view_of(out@) =~= view_of(before) + seq![all[i - 1]]);
                assert(view_of(out@) + recent_matching(all.subrange(0, i - 1), pattern@, (limit - out@.len()) as nat)
                    =~= view_of(before) + (seq![all[i - 1]] + recent_matching(all.subrange(0, i - 1), pattern@, (limit - out@.len()) as nat)));
            }
            i = i - 1;
        }
        assert(all.subrange(0, 0) =~= Seq::<PersistentView>::empty());
        assert(view_of(out@) + Seq::<PersistentView>::empty() =~= view_of(out@));
        out
    }

    /// Keeps the entries that have not expired at `now` (seconds since the
    /// epoch), in their order and with their ids.
    pub fn sweep(&mut self, now: u64)
        requires
            old(self).wf(),
        ensures
            final(self).wf(),
            final(self)@ == unexpired(old(self)@, now),
            final(self).capacity() == old(self).capacity(),
            final(self).upcoming_id() == old(self).upcoming_id(),
            forall|i: int| 0 <= i < final(self)@.len() ==> !expired_at(#[trigger] final(self)@[i], now),
    {
        let ghost all = self@;
        let n = self.entries.len();
        let mut kept: VecDeque<PersistentSignal> = VecDeque::new();
        let mut i: usize = 0;
        while i < n
            invariant
                n == all.len(),
                i <= n,
                self.entries@.len() == n - i,
                view_of(self.entries@) == all.subrange(i as int, n as int),
                view_of(kept@) == unexpired(all.subrange(0, i as int), now),
                self.max_size == old(self).max_size,
                self.next_id == old(self).next_id,
                all == old(self)@,
            decreases n - i,
        {
            let ghost rest = self.entries@;
            let e = self.entries.pop_front().unwrap();
            assert(e@ == all[i as int]) by {
                assert(view_of(rest)[0] == all.subrange(i as int, n as int)[0]);
            }
            assert(view_of(self.entries@) =~= all.subrange(i + 1, n as int)) by {
                assert(self.entries@ =~= rest.subrange(1, rest.len() as int));
                assert(view_of(self.entries@) =~= view_of(rest).subrange(1, rest.len() as int));
                assert(all.subrange(i as int, n as int).subrange(1, rest.len() as int) =~= all.subrange(i + 1, n as int));
            }
            assert(all.subrange(0, i + 1).drop_last() =~= all.subrange(0, i as int));
            let ghost before = kept@;
            if !e.is_expired(now) {
                kept.push_back(e);
                assert(view_of(kept@) =~= view_of(before).push(all[i as int]));
            }
            i = i + 1;
        }
        assert(all.subrange(0, n as int) =~= all);
        self.entries = kept;
        proof {
            lemma_unexpired_sub(all, now);
        }
    }
}

/// What a query of recent signals returns: as many matching entries as
/// there are, up to `limit`, each taken from the history and matching the
/// pattern, newest first, so with strictly decreasing ids.
pub proof fn lemma_recent_newest_first(h: &History, p: Seq<char>, limit: nat)
    requires
        h.wf(),
    ensures
        recent_matching(h@, p, limit).len() == if count_matching(h@, p) < limit {
            count_matching(h@, p)
        } else {
            limit
        },
        forall|i: int|
            0 <= i < recent_matching(h@, p, limit).len() ==> h@.contains(
                #[trigger] recent_matching(h@, p, limit)[i],
            ) && pattern_matches(p, recent_matching(h@, p, limit)[i].signal.name),
        forall|i: int, j: int|
            0 <= i < j < recent_matching(h@, p, limit).len() ==> recent_matching(h@, p, limit)[i].id
                > recent_matching(h@, p, limit)[j].id,
{
    lemma_recent_seq(h@, p, limit);
}

proof fn lemma_recent_seq(s: Seq<PersistentView>, p: Seq<char>, limit: nat)
    requires
        ids_increasing(s),
    ensures
        recent_matching(s, p, limit).len() == if count_matching(s, p) < limit {
            count_matching(s, p)
        } else {
            limit
        },
        forall|i: int|
            0 <= i < recent_matching(s, p, limit).len() ==> s.contains(
                #[trigger] recent_matching(s, p, limit)[i],
            ) && pattern_matches(p, recent_matching(s, p, limit)[i].signal.name),
        forall|i: int, j: int|
            0 <= i < j < recent_matching(s, p, limit).len() ==> recent_matching(s, p, limit)[i].id
                > recent_matching(s, p, limit)[j].id,
    decreases s.len(),
{
    if s.len() > 0 && limit > 0 {
        let d = s.drop_last();
        assert(ids_increasing(d)) by {
            assert forall|i: int, j: int| 0 <= i < j < d.len() implies d[i].id < d[j].id by {
                assert(d[i] == s[i] && d[j] == s[j]);
            }
        }
        let r = recent_matching(s, p, limit);
        if pattern_matches(p, s.last().signal.name) {
            let l1 = (limit - 1) as nat;
            lemma_recent_seq(d, p, l1);
            let rd = recent_matching(d, p, l1);
            assert(r == seq![s.last()] + rd);
            assert forall|i: int| 0 <= i < r.len() implies s.contains(#[trigger] r[i])
                && pattern_matches(p, r[i].signal.name) by {
                if i == 0 {
                    assert(r[i] == s[s.len() - 1]);
                } else {
                    assert(r[i] == rd[i - 1]);
                    let k = choose|k: int| 0 <= k < d.len() && d[k] == rd[i - 1];
                    assert(s[k] == r[i]);
                }
            }
            assert forall|i: int, j: int| 0 <= i < j < r.len() implies r[i].id > r[j].id by {
                assert(r[j] == rd[j - 1]);
                let k = choose|k: int| 0 <= k < d.len() && d[k] == rd[j - 1];
                assert(s[k] == r[j]);
                if i == 0 {
                    assert(r[i] == s[s.len() - 1]);
                } else {
                    assert(r[i] == rd[i - 1]);
                }
            }
        } else {
            lemma_recent_seq(d, p, limit);
            let rd = recent_matching(d, p, limit);
            assert forall|i: int| 0 <= i < r.len() implies s.contains(#[trigger] r[i])
                && pattern_matches(p, r[i].signal.name) by {
                let k = choose|k: int| 0 <= k < d.len() && d[k] == rd[i];
                assert(s[k] == r[i]);
            }
        }
    }
}

/// The entries that survive a sweep come from the swept sequence, in the
/// same relative order, and none of them has expired.
proof fn lemma_unexpired_sub(s: Seq<PersistentView>, now: u64)
    ensures
        forall|i: int| 0 <= i < unexpired(s, now).len() ==> s.contains(#[trigger] unexpired(s, now)[i]),
        forall|i: int| 0 <= i < unexpired(s, now).len() ==> !expired_at(#[trigger] unexpired(s, now)[i], now),
        unexpired(s, now).len() <= s.len(),
        ids_increasing(s) ==> ids_increasing(unexpired(s, now)),
    decreases s.len(),
{
    if s.len() > 0 {
        let d = s.drop_last();
        lemma_unexpired_sub(d, now);
        let u = unexpired(s, now);
        let ud = unexpired(d, now);
        assert forall|i: int| 0 <= i < ud.len() implies s.contains(#[trigger] ud[i]) by {
            let k = choose|k: int| 0 <= k < d.len() && d[k] == ud[i];
            assert(s[k] == ud[i]);
        }
        if !expired_at(s.last(), now) {
            assert(u == ud.push(s.last()));
            assert forall|i: int| 0 <= i < u.len() implies s.contains(#[trigger] u[i]) by {
                if i < ud.len() {
                    assert(u[i] == ud[i]);
                } else {
                    assert(u[i] == s[s.len() - 1]);
                }
            }
            if ids_increasing(s) {
                assert forall|i: int, j: int| 0 <= i < j < u.len() implies u[i].id < u[j].id by {
                    if j == u.len() - 1 {
                        assert(u[i] == ud[i]);
                        let k = choose|k: int| 0 <= k < d.len() && d[k] == ud[i];
                        assert(s[k] == u[i]);
                    } else {
                        assert(u[i] == ud[i]);
                        assert(u[j] == ud[j]);
                    }
                }
            }
        }
    }
}

} // verus!
