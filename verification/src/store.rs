//! Bounded, insertion-ordered store of charts by query identity.  A new
//! identity is appended; a known identity has its chart replaced in place.
//! After every insert the store is trimmed from the front — oldest first —
//! until at most `MAX_SAVED_QUERIES` entries remain.

use vstd::prelude::*;

use crate::chart::Chart;
use crate::text::str_eq;

verus! {

/// How many query identities the store keeps at most.
pub const MAX_SAVED_QUERIES: usize = 5;

/// `n` clamped to the store capacity.
pub open spec fn clamp_cap(n: int) -> int {
    if n > MAX_SAVED_QUERIES as int {
        MAX_SAVED_QUERIES as int
    } else {
        n
    }
}

/// First position of `key`, or the length if it is absent.
pub open spec fn key_index(s: Seq<(Seq<char>, Chart)>, key: Seq<char>) -> int
    decreases s.len(),
{
    if s.len() == 0 {
        0
    } else if s[0].0 == key {
        0
    } else {
        1 + key_index(s.subrange(1, s.len() as int), key)
    }
}

pub open spec fn has_key(s: Seq<(Seq<char>, Chart)>, key: Seq<char>) -> bool {
    key_index(s, key) < s.len()
}

/// Characterizes `key_index`: it is the first position of `key`, and the
/// positions before it hold other keys.
pub proof fn lemma_key_index(s: Seq<(Seq<char>, Chart)>, key: Seq<char>)
    ensures
        0 <= key_index(s, key) <= s.len(),
        forall|i: int| 0 <= i < key_index(s, key) ==> s[i].0 != key,
        key_index(s, key) < s.len() ==> s[key_index(s, key)].0 == key,
    decreases s.len(),
{
    if s.len() > 0 && s[0].0 != key {
        let t = s.subrange(1, s.len() as int);
        lemma_key_index(t, key);
        assert forall|i: int| 0 <= i < key_index(s, key) implies s[i].0 != key by {
            if i >= 1 {
                assert(t[i - 1].0 != key);
            }
        }
    }
}

/// Insertion at the spec level: replace in place, or append.
pub open spec fn spec_insert(s: Seq<(Seq<char>, Chart)>, id: Seq<char>, c: Chart) -> Seq<
    (Seq<char>, Chart),
> {
    if has_key(s, id) {
        s.update(key_index(s, id), (id, c))
    } else {
        s.push((id, c))
    }
}

/// The newest entries that fit the capacity, oldest dropped first.
pub open spec fn bounded_suffix(s: Seq<(Seq<char>, Chart)>) -> Seq<(Seq<char>, Chart)> {
    s.subrange(s.len() - clamp_cap(s.len() as int), s.len() as int)
}

/// Insertion-ordered mapping of query identity to chart.
pub struct QueryStore {
    entries: Vec<(String, Chart)>,
}

impl View for QueryStore {
    type V = Seq<(Seq<char>, Chart)>;

    closed spec fn view(&self) -> Seq<(Seq<char>, Chart)> {
        self.entries@.map_values(|e: (String, Chart)| (e.0@, e.1))
    }
}

impl QueryStore {
    /// Identities never repeat.
    pub open spec fn wf(self) -> bool {
        forall|i: int, j: int| 0 <= i < j < self@.len() ==> self@[i].0 != self@[j].0
    }

    pub fn new() -> (r: QueryStore)
        ensures
            r@ == Seq::<(Seq<char>, Chart)>::empty(),
            r.wf(),
    {
        let r = QueryStore { entries: Vec::new() };
        proof {
            assert(r@ =~= Seq::<(Seq<char>, Chart)>::empty());
        }
        r
    }

    pub fn len(&self) -> (r: usize)
        ensures
            r == self@.len(),
    {
        self.entries.len()
    }

    /// The stored chart of an identity.
    pub fn get<'a>(&'a self, identity: &str) -> (r: Option<&'a Chart>)
        requires
            self.wf(),
        ensures
            r is Some <==> has_key(self@, identity@),
            r matches Some(c) ==> *c == self@[key_index(self@, identity@)].1,
    {
        let n = self.entries.len();
        let mut k: usize = 0;
        while k < n
            invariant
                0 <= k <= n,
                n == self@.len(),
                n == self.entries@.len(),
                forall|q: int| 0 <= q < self@.len() ==> #[trigger] self@[q] == (
                    self.entries@[q].0@,
                    self.entries@[q].1,
                ),
                forall|q: int| 0 <= q < k ==> self@[q].0 != identity@,
            decreases n - k,
        {
            if str_eq(self.entries[k].0.as_str(), identity) {
                proof {
                    lemma_key_index(self@, identity@);
                    assert(self.entries@[k as int].0@ == identity@);
                    assert(self@[k as int] == (self.entries@[k as int].0@, self.entries@[k as int].1));
                    assert(self@[k as int].0 == identity@);
                    let ki = key_index(self@, identity@);
                    if ki < k {
                        assert(self@[ki].0 != identity@);
                        assert(ki < self@.len());
                        assert(self@[ki].0 == identity@);
                        assert(false);
                    }
                    if ki > k {
                        assert(self@[k as int].0 != identity@);
                        assert(false);
                    }
                }
                return Some(&self.entries[k].1);
            }
            k = k + 1;
        }
        proof {
            lemma_key_index(self@, identity@);
        }
        None
    }

    /// The chart at an insertion-order position.
    pub fn chart_at<'a>(&'a self, i: usize) -> (r: &'a Chart)
        requires
            i < self@.len(),
        ensures
            *r == self@[i as int].1,
    {
        &self.entries[i].1
    }

    /// The most recently inserted entry: the canonical month-axis source
    /// when several saved series are drawn together.
    pub fn last<'a>(&'a self) -> (r: Option<&'a (String, Chart)>)
        ensures
            r is Some <==> self@.len() > 0,
            r matches Some(e) ==> (e.0@, e.1) == self@[self@.len() - 1],
    {
        let n = self.entries.len();
        if n == 0 {
            None
        } else {
            Some(&self.entries[n - 1])
        }
    }

    /// Stores a chart under an identity: replaces the chart of a known
    /// identity in place, appends a new identity at the end.
    pub fn insert(&mut self, identity: String, chart: Chart)
        requires
            old(self).wf(),
        ensures
            final (self).wf(),
            final (self)@ == spec_insert(old(self)@, identity@, chart),
    {
        let ghost vpre = self@;
        let n = self.entries.len();
        let mut k: usize = 0;
        while k < n
            invariant
                0 <= k <= n,
                n == self@.len(),
                n == self.entries@.len(),
                self@ == vpre,
                *self == *old(self),
                old(self).wf(),
                vpre == old(self)@,
                forall|q: int| 0 <= q < self@.len() ==> #[trigger] self@[q] == (
                    self.entries@[q].0@,
                    self.entries@[q].1,
                ),
                forall|q: int| 0 <= q < k ==> self@[q].0 != identity@,
            decreases n - k,
        {
            if str_eq(self.entries[k].0.as_str(), identity.as_str()) {
                proof {
                    lemma_key_index(vpre, identity@);
                    assert(self.entries@[k as int].0@ == identity@);
                    assert(self@[k as int] == (
                        self.entries@[k as int].0@,
                        self.entries@[k as int].1,
                    ));
                    assert(self@[k as int].0 == identity@);
                    let ki = key_index(vpre, identity@);
                    if ki < k {
                        assert(self@[ki].0 != identity@);
                        assert(ki < vpre.len());
                        assert(vpre[ki].0 == identity@);
                        assert(false);
                    }
                    if ki > k {
                        assert(vpre[k as int].0 != identity@);
                        assert(false);
                    }
                }
                self.entries.set(k, (identity, chart));
                proof {
                    assert(self@ =~= vpre.update(k as int, (identity@, chart)));
                    assert forall|i: int, j: int|
                        0 <= i < j < self@.len() implies self@[i].0 != self@[j].0 by {
                        assert(old(self)@[i].0 != old(self)@[j].0);
                        assert(vpre[k as int].0 == identity@);
                        if i != k {
                            assert(self@[i].0 == vpre[i].0);
                        }
                        if j != k {
                            assert(self@[j].0 == vpre[j].0);
                        }
                    }
                }
                return ;
            }
            k = k + 1;
        }
        proof {
            lemma_key_index(vpre, identity@);
        }
        self.entries.push((identity, chart));
        proof {
            assert(self@ =~= vpre.push((identity@, chart)));
            assert forall|i: int, j: int|
                0 <= i < j < self@.len() implies self@[i].0 != self@[j].0 by {
                if j < self@.len() - 1 {
                    assert(vpre[i].0 != vpre[j].0);
                } else {
                    assert(vpre[i].0 != identity@);
                }
            }
        }
    }

    /// Drops the single oldest entry; a no-op on an empty store.
    pub fn evict_oldest(&mut self)
        requires
            old(self).wf(),
        ensures
            final (self).wf(),
            old(self)@.len() == 0 ==> final (self)@ == old(self)@,
            old(self)@.len() > 0 ==> final (self)@ == old(self)@.subrange(
                1,
                old(self)@.len() as int,
            ),
    {
        let ghost vpre = self@;
        if self.entries.len() == 0 {
            return ;
        }
        self.entries.remove(0);
        proof {
            assert(self@ =~= vpre.subrange(1, vpre.len() as int));
        }
    }

    /// Stores a chart and then drops oldest entries until at most
    /// `MAX_SAVED_QUERIES` remain.
    pub fn insert_bounded(&mut self, identity: String, chart: Chart)
        requires
            old(self).wf(),
        ensures
            final (self).wf(),
            final (self)@ == bounded_suffix(spec_insert(old(self)@, identity@, chart)),
            final (self)@.len() <= MAX_SAVED_QUERIES as int,
    {
        self.insert(identity, chart);
        let ghost mid = self@;
        while self.entries.len() > MAX_SAVED_QUERIES
            invariant
                self.wf(),
                self@.len() == self.entries@.len(),
                self@.len() <= mid.len(),
                clamp_cap(mid.len() as int) <= self@.len(),
                self@ == mid.subrange(mid.len() - self@.len(), mid.len() as int),
            decreases self.entries@.len(),
        {
            proof {
                assert(self@.subrange(1, self@.len() as int) =~= mid.subrange(
                    mid.len() - (self@.len() - 1),
                    mid.len() as int,
                ));
            }
            self.evict_oldest();
        }
        proof {
            assert(self@ =~= bounded_suffix(mid));
        }
    }
}

/// Law: however the store grew, a bounded insert leaves at most
/// `MAX_SAVED_QUERIES` entries, and what remains is exactly the newest
/// suffix in order — every evicted entry was older than every kept one.
pub proof fn lemma_store_bounded(s: Seq<(Seq<char>, Chart)>)
    ensures
        bounded_suffix(s).len() == clamp_cap(s.len() as int),
        bounded_suffix(s).len() <= MAX_SAVED_QUERIES as int,
        forall|i: int|
            0 <= i < bounded_suffix(s).len() ==> #[trigger] bounded_suffix(s)[i] == s[s.len()
                - clamp_cap(s.len() as int) + i],
{
}

} // verus!
