//! Panel focus and visibility: a fixed row of five panels — query input,
//! facet input, saved-query list, facet-value list, line chart — with one
//! focus at a time and tab cycling that skips hidden panels.

use vstd::prelude::*;

verus! {

/// How many panels the dashboard has.
pub const WIDGET_COUNT: usize = 5;

/// Panel positions in tab order.
pub const SEARCH_INPUT: usize = 0;

pub const FACETS_INPUT: usize = 1;

pub const SAVED_QUERIES: usize = 2;

pub const FACET_VALUES: usize = 3;

pub const LINE_CHART: usize = 4;

/// Focus and visibility of one panel.
#[derive(Debug, Clone, Copy, PartialEq, Eq, Structural)]
pub struct Panel {
    pub focused: bool,
    pub hidden: bool,
}

/// The panel row and the position the tab cycle stands on.
#[derive(Debug)]
pub struct Widgets {
    pub panels: Vec<Panel>,
    pub index: usize,
}

/// One tab step from a position: forward moves down the row, backward up,
/// both wrapping.
pub open spec fn step_idx(i: int, reverse: bool) -> int {
    if reverse {
        (i + (WIDGET_COUNT - 1)) % (WIDGET_COUNT as int)
    } else {
        (i + 1) % (WIDGET_COUNT as int)
    }
}

/// `k` tab steps from a position.
pub open spec fn iterate_idx(i: int, k: nat, reverse: bool) -> int
    decreases k,
{
    if k == 0 {
        i
    } else {
        step_idx(iterate_idx(i, (k - 1) as nat, reverse), reverse)
    }
}

impl Widgets {
    /// Five panels, a valid position, and a never-hidden query input (the
    /// tab cycle always has somewhere to land).
    pub open spec fn wf(self) -> bool {
        &&& self.panels@.len() == WIDGET_COUNT as int
        &&& self.index < WIDGET_COUNT
        &&& !self.panels@[SEARCH_INPUT as int].hidden
    }

    /// The initial layout: both inputs visible, the lists and the chart
    /// hidden until a search succeeds, the cycle standing on the last
    /// panel so that the first tab lands on the query input.
    pub fn new() -> (r: Widgets)
        ensures
            r.wf(),
            forall|i: int| 0 <= i < WIDGET_COUNT as int ==> !(#[trigger] r.panels@[i]).focused,
            !r.panels@[SEARCH_INPUT as int].hidden,
            !r.panels@[FACETS_INPUT as int].hidden,
            r.panels@[SAVED_QUERIES as int].hidden,
            r.panels@[FACET_VALUES as int].hidden,
            r.panels@[LINE_CHART as int].hidden,
            r.index == LINE_CHART,
    {
        let mut panels: Vec<Panel> = Vec::new();
        panels.push(Panel { focused: false, hidden: false });
        panels.push(Panel { focused: false, hidden: false });
        panels.push(Panel { focused: false, hidden: true });
        panels.push(Panel { focused: false, hidden: true });
        panels.push(Panel { focused: false, hidden: true });
        Widgets { panels, index: LINE_CHART }
    }

    /// Focuses the chosen panel if it is visible and unfocuses every other
    /// panel; visibility is untouched and the cycle moves to the choice.
    pub fn select_widget(&mut self, index: usize)
        requires
            old(self).wf(),
            index < WIDGET_COUNT,
        ensures
            final (self).wf(),
            final (self).index == index,
            final (self).panels@.len() == old(self).panels@.len(),
            forall|i: int|
                0 <= i < WIDGET_COUNT as int ==> (#[trigger] final (self).panels@[i]).hidden == old(
                    self,
                ).panels@[i].hidden,
            forall|i: int|
                0 <= i < WIDGET_COUNT as int ==> (#[trigger] final (self).panels@[i]).focused == (i
                    == index && !old(self).panels@[i].hidden),
    {
        let n = self.panels.len();
        let mut i: usize = 0;
        while i < n
            invariant
                0 <= i <= n,
                n == self.panels@.len(),
                n == WIDGET_COUNT,
                index < WIDGET_COUNT,
                forall|q: int|
                    i <= q < n ==> (#[trigger] self.panels@[q]) == old(self).panels@[q],
                forall|q: int|
                    0 <= q < i ==> (#[trigger] self.panels@[q]).hidden == old(
                        self,
                    ).panels@[q].hidden,
                forall|q: int|
                    0 <= q < i ==> (#[trigger] self.panels@[q]).focused == (q == index && !old(
                        self,
                    ).panels@[q].hidden),
            decreases n - i,
        {
            let hidden = self.panels[i].hidden;
            let focused = i == index && !hidden;
            self.panels.set(i, Panel { focused, hidden });
            i = i + 1;
        }
        self.index = index;
    }

    /// Moves the focus to the next visible panel in tab order (or the
    /// previous one, going backwards), skipping hidden panels.
    pub fn switch_widgets(&mut self, reverse: bool)
        requires
            old(self).wf(),
        ensures
            final (self).wf(),
            final (self).panels@.len() == old(self).panels@.len(),
            forall|i: int|
                0 <= i < WIDGET_COUNT as int ==> (#[trigger] final (self).panels@[i]).hidden == old(
                    self,
                ).panels@[i].hidden,
            !final (self).panels@[final (self).index as int].hidden,
            forall|i: int|
                0 <= i < WIDGET_COUNT as int ==> (#[trigger] final (self).panels@[i]).focused == (i
                    == final (self).index as int),
            exists|k: nat|
                1 <= k <= WIDGET_COUNT as int && final (self).index as int == iterate_idx(
                    old(self).index as int,
                    k,
                    reverse,
                ) && (forall|k2: nat|
                    1 <= k2 < k ==> old(self).panels@[#[trigger] iterate_idx(
                        old(self).index as int,
                        k2,
                        reverse,
                    )].hidden),
    {
        let ghost start = self.index as int;
        let ghost panels0 = self.panels@;
        let mut cur = self.index;
        let mut k: usize = 0;
        let mut done = false;
        while !done
            invariant
                self.wf(),
                *self == *old(self),
                panels0 == self.panels@,
                start == old(self).index as int,
                cur < WIDGET_COUNT,
                k <= WIDGET_COUNT,
                cur as int == iterate_idx(start, k as nat, reverse),
                forall|k2: nat|
                    1 <= k2 < k ==> panels0[#[trigger] iterate_idx(start, k2, reverse)].hidden,
                !done && k >= 1 ==> panels0[cur as int].hidden,
                done ==> 1 <= k && !panels0[cur as int].hidden,
                !done ==> k < WIDGET_COUNT,
            decreases (if done {
                0int
            } else {
                WIDGET_COUNT - k
            }),
        {
            let next = if reverse {
                if cur == 0 {
                    WIDGET_COUNT - 1
                } else {
                    cur - 1
                }
            } else {
                if cur + 1 >= WIDGET_COUNT {
                    0
                } else {
                    cur + 1
                }
            };
            proof {
                assert(next as int == step_idx(cur as int, reverse));
                assert(iterate_idx(start, (k + 1) as nat, reverse) == step_idx(
                    iterate_idx(start, k as nat, reverse),
                    reverse,
                ));
            }
            cur = next;
            k = k + 1;
            if !self.panels[cur].hidden {
                done = true;
            } else {
                proof {
                    if k == WIDGET_COUNT {
                        assert(iterate_idx(start, 5nat, reverse) == step_idx(
                            iterate_idx(start, 4nat, reverse),
                            reverse,
                        ));
                        assert(iterate_idx(start, 4nat, reverse) == step_idx(
                            iterate_idx(start, 3nat, reverse),
                            reverse,
                        ));
                        assert(iterate_idx(start, 3nat, reverse) == step_idx(
                            iterate_idx(start, 2nat, reverse),
                            reverse,
                        ));
                        assert(iterate_idx(start, 2nat, reverse) == step_idx(
                            iterate_idx(start, 1nat, reverse),
                            reverse,
                        ));
                        assert(iterate_idx(start, 1nat, reverse) == step_idx(
                            iterate_idx(start, 0nat, reverse),
                            reverse,
                        ));
                        assert(0 <= start < 5);
                        assert(iterate_idx(start, 1nat, reverse) == 0 || iterate_idx(
                            start,
                            2nat,
                            reverse,
                        ) == 0 || iterate_idx(start, 3nat, reverse) == 0 || iterate_idx(
                            start,
                            4nat,
                            reverse,
                        ) == 0 || iterate_idx(start, 5nat, reverse) == 0);
                        assert(panels0[cur as int].hidden);
                        assert(!panels0[SEARCH_INPUT as int].hidden);
                        assert(false);
                    }
                }
            }
        }
        let ghost kf = k as nat;
        self.select_widget(cur);
        proof {
            assert(final (self).index as int == iterate_idx(start, kf, reverse));
        }
    }

    /// Applies the per-tick visibility rules: with no saved query and an
    /// error or no-results state everything but the inputs hides; with
    /// saved queries an error hides only the chart, and a clean state shows
    /// the lists and the chart.
    pub fn update_visibility(&mut self, queries_empty: bool, has_error: bool, no_results: bool)
        requires
            old(self).wf(),
        ensures
            final (self).wf(),
            final (self).index == old(self).index,
            final (self).panels@.len() == old(self).panels@.len(),
            forall|i: int|
                0 <= i < WIDGET_COUNT as int ==> (#[trigger] final (self).panels@[i]).focused
                    == old(self).panels@[i].focused,
            final (self).panels@[SEARCH_INPUT as int].hidden == old(
                self,
            ).panels@[SEARCH_INPUT as int].hidden,
            final (self).panels@[FACETS_INPUT as int].hidden == old(
                self,
            ).panels@[FACETS_INPUT as int].hidden,
            queries_empty && (has_error || no_results) ==> {
                &&& final (self).panels@[SAVED_QUERIES as int].hidden
                &&& final (self).panels@[FACET_VALUES as int].hidden
                &&& final (self).panels@[LINE_CHART as int].hidden
            },
            queries_empty && !(has_error || no_results) ==> {
                &&& final (self).panels@[SAVED_QUERIES as int].hidden == old(
                    self,
                ).panels@[SAVED_QUERIES as int].hidden
                &&& final (self).panels@[FACET_VALUES as int].hidden == old(
                    self,
                ).panels@[FACET_VALUES as int].hidden
                &&& final (self).panels@[LINE_CHART as int].hidden == old(
                    self,
                ).panels@[LINE_CHART as int].hidden
            },
            !queries_empty && (has_error || no_results) ==> {
                &&& final (self).panels@[SAVED_QUERIES as int].hidden == old(
                    self,
                ).panels@[SAVED_QUERIES as int].hidden
                &&& final (self).panels@[FACET_VALUES as int].hidden == old(
                    self,
                ).panels@[FACET_VALUES as int].hidden
                &&& final (self).panels@[LINE_CHART as int].hidden
            },
            !queries_empty && !(has_error || no_results) ==> {
                &&& !final (self).panels@[SAVED_QUERIES as int].hidden
                &&& !final (self).panels@[FACET_VALUES as int].hidden
                &&& !final (self).panels@[LINE_CHART as int].hidden
            },
    {
        let bad = has_error || no_results;
        if queries_empty {
            if bad {
                self.set_hidden(SAVED_QUERIES, true);
                self.set_hidden(FACET_VALUES, true);
                self.set_hidden(LINE_CHART, true);
            }
        } else {
            if bad {
                self.set_hidden(LINE_CHART, true);
            } else {
                self.set_hidden(SAVED_QUERIES, false);
                self.set_hidden(FACET_VALUES, false);
                self.set_hidden(LINE_CHART, false);
            }
        }
    }

    fn set_hidden(&mut self, index: usize, hidden: bool)
        requires
            old(self).wf(),
            index < WIDGET_COUNT,
            index != SEARCH_INPUT || !hidden,
        ensures
            final (self).wf(),
            final (self).index == old(self).index,
            final (self).panels@.len() == old(self).panels@.len(),
            forall|i: int|
                0 <= i < WIDGET_COUNT as int && i != index ==> (#[trigger] final (
                    self
                ).panels@[i]) == old(self).panels@[i],
            final (self).panels@[index as int].hidden == hidden,
            final (self).panels@[index as int].focused == old(self).panels@[index as int].focused,
    {
        let focused = self.panels[index].focused;
        self.panels.set(index, Panel { focused, hidden });
    }
}

} // verus!
