//! Multi-select list state: a single navigation cursor plus a set of
//! checked rows, with stable index semantics over the list the indexes were
//! computed against.  Every operation on an empty underlying list is a
//! no-op.

use vstd::prelude::*;
use vstd::string::*;

use crate::cache::{FacetIndex, SelectionCache};
use crate::keys::{spec_symbol, KeySymbols};

verus! {

/// Cursor and checked rows of one list.
#[derive(Debug)]
pub struct SelectionState {
    pub cursor: Option<usize>,
    pub selected: Vec<usize>,
}

/// Cursor position after a downward step: wraps to the top past the end,
/// starts at the top when there was no cursor.
pub open spec fn next_index(cur: Option<usize>, len: int) -> int {
    match cur {
        Some(i) => if i as int >= len - 1 {
            0
        } else {
            i as int + 1
        },
        None => 0,
    }
}

/// Cursor position after an upward step: wraps to the bottom past the top,
/// starts at the top when there was no cursor.
pub open spec fn prev_index(cur: Option<usize>, len: int) -> int {
    match cur {
        Some(i) => if i == 0 {
            len - 1
        } else {
            i as int - 1
        },
        None => 0,
    }
}

impl SelectionState {
    /// Indexes are within the list and checked rows are not repeated.
    pub open spec fn wf(self, len: int) -> bool {
        &&& (self.cursor matches Some(c) ==> (c as int) < len)
        &&& (forall|q: int| 0 <= q < self.selected@.len() ==> (#[trigger] self.selected@[q] as int) < len)
        &&& (forall|q1: int, q2: int|
            0 <= q1 < q2 < self.selected@.len() ==> self.selected@[q1] != self.selected@[q2])
    }

    pub fn new() -> (r: SelectionState)
        ensures
            r.cursor is None,
            r.selected@ == Seq::<usize>::empty(),
    {
        SelectionState { cursor: None, selected: Vec::new() }
    }

    /// Moves the cursor one row down, wrapping at the end.
    pub fn move_next(&mut self, len: usize)
        ensures
            final (self).selected@ == old(self).selected@,
            len == 0 ==> final (self).cursor == old(self).cursor,
            len > 0 ==> (final (self).cursor matches Some(c) && c as int == next_index(
                old(self).cursor,
                len as int,
            )),
    {
        if len == 0 {
            return ;
        }
        let next: usize = match self.cursor {
            Some(i) => if i >= len - 1 {
                0
            } else {
                i + 1
            },
            None => 0,
        };
        self.cursor = Some(next);
    }

    /// Moves the cursor one row up, wrapping at the top.
    pub fn move_previous(&mut self, len: usize)
        ensures
            final (self).selected@ == old(self).selected@,
            len == 0 ==> final (self).cursor == old(self).cursor,
            len > 0 ==> (final (self).cursor matches Some(c) && c as int == prev_index(
                old(self).cursor,
                len as int,
            )),
    {
        if len == 0 {
            return ;
        }
        let prev: usize = match self.cursor {
            Some(i) => if i == 0 {
                len - 1
            } else {
                i - 1
            },
            None => 0,
        };
        self.cursor = Some(prev);
    }

    /// Clears the cursor only; the checked rows stay.
    pub fn unselect_cursor(&mut self, len: usize)
        ensures
            final (self).selected@ == old(self).selected@,
            len == 0 ==> final (self).cursor == old(self).cursor,
            len > 0 ==> final (self).cursor is None,
    {
        if len == 0 {
            return ;
        }
        self.cursor = None;
    }

    /// Flips the membership of the cursor row in the checked set; a no-op
    /// when there is no cursor.  A checked row is removed (the others keep
    /// their order); an unchecked row is appended.
    pub fn toggle(&mut self, len: usize)
        ensures
            final (self).cursor == old(self).cursor,
            len == 0 || old(self).cursor is None ==> final (self).selected@ == old(
                self,
            ).selected@,
            len > 0 ==> (match old(self).cursor {
                Some(i) => {
                    &&& (old(self).selected@.contains(i) ==> final (self).selected@ == old(
                        self,
                    ).selected@.filter(|x: usize| x != i))
                    &&& (!old(self).selected@.contains(i) ==> final (self).selected@ == old(
                        self,
                    ).selected@.push(i))
                },
                None => final (self).selected@ == old(self).selected@,
            }),
    {
        if len == 0 {
            return ;
        }
        let i = match self.cursor {
            Some(i) => i,
            None => {
                return ;
            },
        };
        let n = self.selected.len();
        let mut contains = false;
        let mut k: usize = 0;
        while k < n && !contains
            invariant
                0 <= k <= n,
                n == self.selected@.len(),
                *self == *old(self),
                !contains ==> forall|q: int| 0 <= q < k ==> self.selected@[q] != i,
                contains ==> self.selected@.contains(i),
            decreases n - k + if contains {
                0int
            } else {
                1int
            },
        {
            if self.selected[k] == i {
                contains = true;
            } else {
                k = k + 1;
            }
        }
        if contains {
            let mut out: Vec<usize> = Vec::new();
            let mut q: usize = 0;
            proof {
                assert(self.selected@.subrange(0, 0) =~= Seq::<usize>::empty());
                reveal(Seq::filter);
            }
            while q < n
                invariant
                    0 <= q <= n,
                    n == self.selected@.len(),
                    *self == *old(self),
                    out@ == self.selected@.subrange(0, q as int).filter(|x: usize| x != i),
                decreases n - q,
            {
                let ghost pre = self.selected@.subrange(0, q as int);
                proof {
                    reveal(Seq::filter);
                    assert(self.selected@.subrange(0, q + 1).drop_last() =~= pre);
                    assert(self.selected@.subrange(0, q + 1).last() == self.selected@[q as int]);
                }
                if self.selected[q] != i {
                    out.push(self.selected[q]);
                }
                q = q + 1;
            }
            proof {
                assert(self.selected@.subrange(0, n as int) =~= self.selected@);
            }
            self.selected = out;
        } else {
            self.selected.push(i);
        }
    }

    /// Checks every row; if there was no cursor it lands on the last row.
    pub fn select_all(&mut self, len: usize)
        ensures
            len == 0 ==> *final (self) == *old(self),
            len > 0 ==> {
                &&& final (self).selected@.len() == len
                &&& (forall|q: int|
                    0 <= q < len ==> (#[trigger] final (self).selected@[q]) as int == q)
                &&& final (self).cursor == (if old(self).cursor is None {
                    Some((len - 1) as usize)
                } else {
                    old(self).cursor
                })
            },
    {
        if len == 0 {
            return ;
        }
        let mut all: Vec<usize> = Vec::new();
        let mut q: usize = 0;
        while q < len
            invariant
                0 <= q <= len,
                all@.len() == q,
                forall|p: int| 0 <= p < q ==> (#[trigger] all@[p]) as int == p,
            decreases len - q,
        {
            all.push(q);
            q = q + 1;
        }
        self.selected = all;
        if self.cursor.is_none() {
            self.cursor = Some(len - 1);
        }
    }

    /// Unchecks every row and clears the cursor.
    pub fn clear_all(&mut self, len: usize)
        ensures
            len == 0 ==> *final (self) == *old(self),
            len > 0 ==> final (self).selected@ == Seq::<usize>::empty() && final (self).cursor
                is None,
    {
        if len == 0 {
            return ;
        }
        self.selected = Vec::new();
        self.cursor = None;
    }

    /// Snapshot of this state as a cache entry.
    pub fn snapshot(&self) -> (r: FacetIndex)
        ensures
            r.selected == self.cursor,
            r.selected_indexes@ == self.selected@,
    {
        FacetIndex { selected: self.cursor, selected_indexes: self.selected.clone() }
    }

    /// Restores the checked rows of a cache entry; the cursor is restored
    /// only when asked (the list keeps its own cursor when the same query
    /// stays active).
    pub fn restore(&mut self, entry: &FacetIndex, with_cursor: bool)
        ensures
            final (self).selected@ == entry.selected_indexes@,
            with_cursor ==> final (self).cursor == entry.selected,
            !with_cursor ==> final (self).cursor == old(self).cursor,
    {
        self.selected = entry.selected_indexes.clone();
        if with_cursor {
            self.cursor = entry.selected;
        }
    }
}

/// The keys a multi-select list reacts to.
pub enum ListKey {
    Left,
    Right,
    Down,
    Up,
    Enter,
    Other,
}

/// A list of display rows with multi-select state and an optional identity
/// under which its selection is cached.
#[derive(Debug)]
pub struct MultiStatefulList {
    pub state: SelectionState,
    pub state_key: Option<String>,
    pub items: Vec<String>,
}

impl MultiStatefulList {
    pub fn new() -> (r: MultiStatefulList)
        ensures
            r.state.cursor is None,
            r.state.selected@ == Seq::<usize>::empty(),
            r.state_key is None,
            r.items@ == Seq::<String>::empty(),
    {
        MultiStatefulList { state: SelectionState::new(), state_key: None, items: Vec::new() }
    }

    pub fn set_items(&mut self, items: Vec<String>)
        ensures
            final (self).items == items,
            final (self).state == old(self).state,
            final (self).state_key == old(self).state_key,
    {
        self.items = items;
    }

    pub fn set_state_key(&mut self, state_key: Option<String>)
        ensures
            final (self).state_key == state_key,
            final (self).state == old(self).state,
            final (self).items == old(self).items,
    {
        self.state_key = state_key;
    }

    /// The help entries of the list: navigation, toggling, and checking or
    /// unchecking every row.
    pub fn help_keys(&self) -> (r: Vec<String>)
        ensures
            r@.len() == 3,
            r@[0]@ == "Up/ Down ["@ + spec_symbol(KeySymbols::UP) + spec_symbol(KeySymbols::DOWN)
                + "]"@,
            r@[1]@ == "Toggle ["@ + spec_symbol(KeySymbols::ENTER) + "]"@,
            r@[2]@ == "Select/ Unselect All ["@ + spec_symbol(KeySymbols::RIGHT) + spec_symbol(
                KeySymbols::LEFT,
            ) + "]"@,
    {
        let mut r: Vec<String> = Vec::new();
        let mut updown = String::from_str("Up/ Down [");
        updown.append(KeySymbols::UP.symbol());
        updown.append(KeySymbols::DOWN.symbol());
        updown.append("]");
        proof {
            assert(updown@ =~= "Up/ Down ["@ + spec_symbol(KeySymbols::UP) + spec_symbol(
                KeySymbols::DOWN,
            ) + "]"@);
        }
        r.push(updown);
        let mut toggle = String::from_str("Toggle [");
        toggle.append(KeySymbols::ENTER.symbol());
        toggle.append("]");
        proof {
            assert(toggle@ =~= "Toggle ["@ + spec_symbol(KeySymbols::ENTER) + "]"@);
        }
        r.push(toggle);
        let mut select = String::from_str("Select/ Unselect All [");
        select.append(KeySymbols::RIGHT.symbol());
        select.append(KeySymbols::LEFT.symbol());
        select.append("]");
        proof {
            assert(select@ =~= "Select/ Unselect All ["@ + spec_symbol(KeySymbols::RIGHT)
                + spec_symbol(KeySymbols::LEFT) + "]"@);
        }
        r.push(select);
        r
    }

    /// Handles one key: arrow keys move the cursor, `Enter` toggles the
    /// cursor row, right and left check and uncheck every row.  On an empty
    /// list nothing happens at all.  Afterwards, when the list carries a
    /// state key, the selection snapshot is written to the cache under it.
    pub fn handle_key(&mut self, key: ListKey, cache: &mut SelectionCache)
        ensures
            final (self).items == old(self).items,
            final (self).state_key == old(self).state_key,
            old(self).items@.len() == 0 ==> final (self).state == old(self).state && *final (
                cache
            ) == *old(cache),
            old(self).items@.len() > 0 ==> match old(self).state_key {
                Some(k) => final (cache)@ == old(cache)@.insert(
                    k@,
                    (final (self).state.cursor, final (self).state.selected@),
                ),
                None => *final (cache) == *old(cache),
            },
            old(self).items@.len() > 0 ==> ({
                let len = old(self).items@.len() as int;
                match key {
                    ListKey::Left => final (self).state.selected@ == Seq::<usize>::empty()
                        && final (self).state.cursor is None,
                    ListKey::Right => {
                        &&& final (self).state.selected@.len() == len
                        &&& (forall|q: int|
                            0 <= q < len ==> (#[trigger] final (self).state.selected@[q]) as int
                                == q)
                        &&& final (self).state.cursor == (if old(self).state.cursor is None {
                            Some((len - 1) as usize)
                        } else {
                            old(self).state.cursor
                        })
                    },
                    ListKey::Down => final (self).state.selected@ == old(self).state.selected@ && (
                    final (self).state.cursor matches Some(c) && c as int == next_index(
                        old(self).state.cursor,
                        len,
                    )),
                    ListKey::Up => final (self).state.selected@ == old(self).state.selected@ && (
                    final (self).state.cursor matches Some(c) && c as int == prev_index(
                        old(self).state.cursor,
                        len,
                    )),
                    ListKey::Enter => {
                        &&& final (self).state.cursor == old(self).state.cursor
                        &&& match old(self).state.cursor {
                            Some(i) => {
                                &&& (old(self).state.selected@.contains(i) ==> final (
                                    self
                                ).state.selected@ == old(self).state.selected@.filter(
                                    |x: usize| x != i,
                                ))
                                &&& (!old(self).state.selected@.contains(i) ==> final (
                                    self
                                ).state.selected@ == old(self).state.selected@.push(i))
                            },
                            None => final (self).state.selected@ == old(self).state.selected@,
                        }
                    },
                    ListKey::Other => final (self).state == old(self).state,
                }
            }),
    {
        let len = self.items.len();
        if len == 0 {
            return ;
        }
        match key {
            ListKey::Left => {
                self.state.clear_all(len);
            },
            ListKey::Right => {
                self.state.select_all(len);
            },
            ListKey::Down => {
                self.state.move_next(len);
            },
            ListKey::Up => {
                self.state.move_previous(len);
            },
            ListKey::Enter => {
                self.state.toggle(len);
            },
            ListKey::Other => {},
        }
        match &self.state_key {
            Some(k) => {
                let key_clone = k.clone();
                let snap = self.state.snapshot();
                cache.put(key_clone, snap);
            },
            None => {},
        }
    }
}

} // verus!
