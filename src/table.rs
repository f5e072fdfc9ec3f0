use vstd::prelude::*;

verus! {

/// A record that carries its own string key.
pub trait Keyed {
    spec fn key_view(&self) -> Seq<char>;

    fn key(&self) -> (r: &String)
        ensures
            r@ == self.key_view();
}

/// The map that a sequence of records describes: a later record under a key
/// hides an earlier one.
pub open spec fn keyed_map<T: Keyed>(s: Seq<T>) -> Map<Seq<char>, T>
    decreases s.len(),
{
    if s.len() == 0 {
        Map::empty()
    } else {
        keyed_map(s.drop_last()).insert(s.last().key_view(), s.last())
    }
}

/// The records of `s` whose key is not `k`, in order.
pub open spec fn without_key<T: Keyed>(s: Seq<T>, k: Seq<char>) -> Seq<T>
    decreases s.len(),
{
    if s.len() == 0 {
        s
    } else if s.last().key_view() == k {
        without_key(s.drop_last(), k)
    } else {
        without_key(s.drop_last(), k).push(s.last())
    }
}

proof fn lemma_without_key<T: Keyed>(s: Seq<T>, k: Seq<char>)
    ensures
        keyed_map(without_key(s, k)) == keyed_map(s).remove(k),
    decreases s.len(),
{
    if s.len() > 0 {
        lemma_without_key(s.drop_last(), k);
        let w = without_key(s.drop_last(), k);
        if s.last().key_view() != k {
            assert(w.push(s.last()).drop_last() =~= w);
        }
        assert(keyed_map(without_key(s, k)) =~= keyed_map(s).remove(k));
    }
}

proof fn lemma_skip_suffix<T: Keyed>(s: Seq<T>, i: int, k: Seq<char>)
    requires
        0 <= i <= s.len(),
        forall|j: int| i <= j < s.len() ==> (#[trigger] s[j]).key_view() != k,
    ensures
        keyed_map(s).contains_key(k) == keyed_map(s.subrange(0, i)).contains_key(k),
        keyed_map(s).contains_key(k) ==> keyed_map(s)[k] == keyed_map(s.subrange(0, i))[k],
    decreases s.len() - i,
{
    if i < s.len() {
        let d = s.drop_last();
        assert(d.subrange(0, i) =~= s.subrange(0, i));
        assert forall|j: int| i <= j < d.len() implies (#[trigger] d[j]).key_view() != k by {
            assert(d[j] == s[j]);
        }
        lemma_skip_suffix(d, i, k);
    } else {
        assert(s.subrange(0, i) =~= s);
    }
}

/// Records keyed by string, at most one per key.
pub struct Table<T> {
    items: Vec<T>,
}

impl<T: Keyed> Table<T> {
    /// The records by key.
    pub closed spec fn map(&self) -> Map<Seq<char>, T> {
        keyed_map(self.items@)
    }

    /// An empty table.
    pub fn new() -> (r: Table<T>)
        ensures
            r.map() == Map::<Seq<char>, T>::empty(),
    {
        Table { items: Vec::new() }
    }

    /// The record under `k`, if any.
    pub fn get(&self, k: &str) -> (r: Option<&T>)
        ensures
            match r {
                Some(t) => self.map().contains_key(k@) && self.map()[k@] == *t,
                None => !self.map().contains_key(k@),
            },
    {
        let mut i: usize = self.items.len();
        while i > 0
            invariant
                i <= self.items@.len(),
                forall|j: int| i <= j < self.items@.len() ==> (#[trigger] self.items@[j]).key_view() != k@,
            decreases i,
        {
            let item = &self.items[i - 1];
            if crate::pattern::same_chars(item.key().as_str(), k) {
                proof {
                    lemma_skip_suffix(self.items@, i as int, k@);
                    let pre = self.items@.subrange(0, i as int);
                    assert(pre.drop_last() =~= self.items@.subrange(0, i - 1));
                }
                return Some(item);
            }
            i = i - 1;
        }
        proof {
            lemma_skip_suffix(self.items@, 0, k@);
        }
        None
    }

    /// Removes the record under `k`; tells whether there was one.
    pub fn remove(&mut self, k: &str) -> (r: bool)
        ensures
            r == old(self).map().contains_key(k@),
            final(self).map() == old(self).map().remove(k@),
    {
        let found = self.get(k).is_some();
        let mut rest: Vec<T> = Vec::new();
        std::mem::swap(&mut self.items, &mut rest);
        let n = rest.len();
        let ghost all = rest@;
        assert(all == old(self).items@);
        assert(self.items@ =~= without_key(all.subrange(0, 0), k@));
        let mut i: usize = 0;
        while i < n
            invariant
                n == all.len(),
                i <= n,
                rest@ == all.subrange(i as int, n as int),
                self.items@ == without_key(all.subrange(0, i as int), k@),
            decreases n - i,
        {
            let ghost r0 = rest@;
            let item = rest.remove(0);
            assert(rest@ =~= all.subrange(i + 1, n as int));
            assert(item == all[i as int]) by {
                assert(r0[0] == all[i as int]);
            }
            assert(all.subrange(0, i + 1).drop_last() =~= all.subrange(0, i as int));
            if !crate::pattern::same_chars(item.key().as_str(), k) {
                self.items.push(item);
            }
            i = i + 1;
        }
        assert(all.subrange(0, n as int) =~= all);
        proof {
            lemma_without_key(all, k@);
        }
        found
    }

    /// Puts `item` under its key, in place of any record there.
    pub fn put(&mut self, item: T)
        ensures
            final(self).map() == old(self).map().insert(item.key_view(), item),
    {
        let ghost k = item.key_view();
        self.remove(item.key().as_str());
        let ghost mid = self.items@;
        self.items.push(item);
        assert(self.items@.drop_last() =~= mid);
        assert(self.map() =~= old(self).map().remove(k).insert(k, item));
        assert(self.map() =~= old(self).map().insert(k, item));
    }
}

} // verus!
