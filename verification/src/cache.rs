//! Per-query selection cache: maps a query identity to the last selection
//! snapshot of its facet list, so that switching away from a query and back
//! restores exactly what was chosen.  Writes under the same identity shadow
//! earlier ones; the cache itself is unbounded.

use vstd::prelude::*;

use crate::text::str_eq;

verus! {

/// Snapshot of a list selection: the cursor row and the checked rows in
/// order.
#[derive(Debug)]
pub struct FacetIndex {
    pub selected: Option<usize>,
    pub selected_indexes: Vec<usize>,
}

impl View for FacetIndex {
    type V = (Option<usize>, Seq<usize>);

    open spec fn view(&self) -> (Option<usize>, Seq<usize>) {
        (self.selected, self.selected_indexes@)
    }
}

/// Map described by a write log: later writes shadow earlier ones.
pub open spec fn entries_map(s: Seq<(String, FacetIndex)>) -> Map<
    Seq<char>,
    (Option<usize>, Seq<usize>),
>
    decreases s.len(),
{
    if s.len() == 0 {
        Map::empty()
    } else {
        entries_map(s.subrange(0, s.len() - 1)).insert(s[s.len() - 1].0@, s[s.len() - 1].1@)
    }
}

/// Key-value store of selection snapshots by query identity.
#[derive(Debug)]
pub struct SelectionCache {
    entries: Vec<(String, FacetIndex)>,
}

impl View for SelectionCache {
    type V = Map<Seq<char>, (Option<usize>, Seq<usize>)>;

    closed spec fn view(&self) -> Map<Seq<char>, (Option<usize>, Seq<usize>)> {
        entries_map(self.entries@)
    }
}

impl SelectionCache {
    pub fn new() -> (r: SelectionCache)
        ensures
            r@ == Map::<Seq<char>, (Option<usize>, Seq<usize>)>::empty(),
    {
        SelectionCache { entries: Vec::new() }
    }

    /// Records the selection snapshot of an identity.
    pub fn put(&mut self, key: String, entry: FacetIndex)
        ensures
            final (self)@ == old(self)@.insert(key@, entry@),
    {
        self.entries.push((key, entry));
        proof {
            assert(self.entries@.subrange(0, self.entries@.len() - 1) =~= old(self).entries@);
        }
    }

    /// Returns the last snapshot recorded for an identity, if any.
    pub fn get<'a>(&'a self, key: &str) -> (r: Option<&'a FacetIndex>)
        ensures
            r is Some <==> self@.contains_key(key@),
            r matches Some(e) ==> self@[key@] == e@,
    {
        let n = self.entries.len();
        let mut k = n;
        proof {
            assert(self.entries@.subrange(0, n as int) =~= self.entries@);
        }
        while k > 0
            invariant
                0 <= k <= n,
                n == self.entries@.len(),
                entries_map(self.entries@).contains_key(key@) == entries_map(
                    self.entries@.subrange(0, k as int),
                ).contains_key(key@),
                entries_map(self.entries@).contains_key(key@) ==> entries_map(
                    self.entries@,
                )[key@] == entries_map(self.entries@.subrange(0, k as int))[key@],
            decreases k,
        {
            proof {
                assert(self.entries@.subrange(0, k as int).subrange(0, k - 1) =~= self.entries@
                    .subrange(0, k - 1));
                assert(self.entries@.subrange(0, k as int)[k - 1] == self.entries@[k - 1]);
            }
            if str_eq(self.entries[k - 1].0.as_str(), key) {
                return Some(&self.entries[k - 1].1);
            }
            k = k - 1;
        }
        proof {
            assert(self.entries@.subrange(0, 0) =~= Seq::<(String, FacetIndex)>::empty());
        }
        None
    }
}

/// How many facet rows are checked by default when a facet list first
/// becomes visible and no cache entry exists yet.
pub const DEFAULT_SELECTED_LINES: usize = 5;

/// The default selection of a fresh facet list of `len` rows: the first
/// five rows (or all of them, if fewer) are checked, and the cursor sits
/// just past the checked block, clamped to the last row.
pub fn default_selection(len: usize) -> (r: FacetIndex)
    requires
        len >= 1,
    ensures
        r.selected_indexes@.len() == (if len < DEFAULT_SELECTED_LINES as int {
            len as int
        } else {
            DEFAULT_SELECTED_LINES as int
        }),
        forall|q: int| 0 <= q < r.selected_indexes@.len() ==> (
        #[trigger] r.selected_indexes@[q]) as int == q,
        r.selected == (if DEFAULT_SELECTED_LINES as int <= len - 1 {
            Some(DEFAULT_SELECTED_LINES)
        } else {
            Some((len - 1) as usize)
        }),
{
    let count = if len < DEFAULT_SELECTED_LINES {
        len
    } else {
        DEFAULT_SELECTED_LINES
    };
    let mut sel: Vec<usize> = Vec::new();
    let mut q: usize = 0;
    while q < count
        invariant
            0 <= q <= count,
            sel@.len() == q,
            forall|p: int| 0 <= p < q ==> (#[trigger] sel@[p]) as int == p,
        decreases count - q,
    {
        sel.push(q);
        q = q + 1;
    }
    let cursor = if DEFAULT_SELECTED_LINES <= len - 1 {
        DEFAULT_SELECTED_LINES
    } else {
        len - 1
    };
    FacetIndex { selected: Some(cursor), selected_indexes: sel }
}

/// Law: reading an identity straight after writing it returns exactly the
/// entry written, and a write to one identity never changes what any other
/// identity maps to.
pub proof fn lemma_cache_round_trip(
    m: Map<Seq<char>, (Option<usize>, Seq<usize>)>,
    k1: Seq<char>,
    v: (Option<usize>, Seq<usize>),
    k2: Seq<char>,
)
    ensures
        m.insert(k1, v).contains_key(k1),
        m.insert(k1, v)[k1] == v,
        k1 != k2 ==> m.insert(k1, v).contains_key(k2) == m.contains_key(k2),
        k1 != k2 && m.contains_key(k2) ==> m.insert(k1, v)[k2] == m[k2],
{
}

} // verus!
