//! Export table building: reconstructs a row-major table — months down,
//! selected series across — from the chart on screen and the current
//! selection, in selection order.

use vstd::prelude::*;
use vstd::string::*;

use crate::chart::{Chart, Points};
use crate::humanize::{human_count, human_count_of};
use crate::store::QueryStore;
use crate::text::{dec_int, i64_to_dec};

verus! {

impl Chart {
    /// Every series has one point per month label.
    pub open spec fn rows_wf(self) -> bool {
        forall|i: int|
            0 <= i < self.datasets@.len() ==> #[trigger] self.datasets@[i].data@.len()
                == self.x_labels@.len()
    }
}

/// Builds the export table of `chart` for the series picked by `selected`,
/// in that order.  Row 0 is the header: `Month` followed by the label of
/// each selected series.  With no series selected the table is that header
/// row alone; otherwise one row per month follows, holding the month label
/// and each selected series' count for that month in decimal.
pub fn build_export(chart: &Chart, selected: &Vec<usize>) -> (r: Vec<Vec<String>>)
    requires
        chart.rows_wf(),
        forall|q: int| 0 <= q < selected@.len() ==> (#[trigger] selected@[q]) < chart.datasets@.len(),
    ensures
        selected@.len() == 0 ==> r@.len() == 1,
        selected@.len() > 0 ==> r@.len() == 1 + chart.x_labels@.len(),
        forall|i: int| 0 <= i < r@.len() ==> (#[trigger] r@[i]@.len()) == selected@.len() + 1,
        r@[0]@[0]@ == "Month"@,
        forall|q: int|
            0 <= q < selected@.len() ==> (#[trigger] r@[0]@[q + 1]@) == chart.datasets@[selected@[q] as int].label@,
        forall|i: int|
            0 <= i < chart.x_labels@.len() && selected@.len() > 0 ==> (#[trigger] r@[i + 1]@[0]@)
                == chart.x_labels@[i]@,
        forall|i: int, q: int|
            0 <= i < chart.x_labels@.len() && 0 <= q < selected@.len() && selected@.len() > 0
                ==> (#[trigger] r@[i + 1]@[q + 1]@) == dec_int(
                chart.datasets@[selected@[q] as int].data@[i].1 as int,
            ),
{
    let k = selected.len();
    let mut header: Vec<String> = Vec::new();
    header.push(String::from_str("Month"));
    let mut q: usize = 0;
    while q < k
        invariant
            0 <= q <= k,
            k == selected@.len(),
            forall|p: int| 0 <= p < k ==> (#[trigger] selected@[p]) < chart.datasets@.len(),
            header@.len() == q + 1,
            header@[0]@ == "Month"@,
            forall|p: int|
                0 <= p < q ==> (#[trigger] header@[p + 1]@) == chart.datasets@[selected@[p] as int].label@,
        decreases k - q,
    {
        header.push(chart.datasets[selected[q]].label.clone());
        q = q + 1;
    }
    let mut table: Vec<Vec<String>> = Vec::new();
    table.push(header);
    if k == 0 {
        return table;
    }
    let months = chart.x_labels.len();
    let mut i: usize = 0;
    while i < months
        invariant
            0 <= i <= months,
            k == selected@.len(),
            k > 0,
            months == chart.x_labels@.len(),
            chart.rows_wf(),
            forall|p: int| 0 <= p < k ==> (#[trigger] selected@[p]) < chart.datasets@.len(),
            table@.len() == i + 1,
            table@[0]@.len() == k + 1,
            table@[0]@[0]@ == "Month"@,
            forall|p: int|
                0 <= p < k ==> (#[trigger] table@[0]@[p + 1]@) == chart.datasets@[selected@[p] as int].label@,
            forall|m: int| 0 <= m < i ==> (#[trigger] table@[m + 1]@.len()) == k + 1,
            forall|m: int|
                0 <= m < i ==> (#[trigger] table@[m + 1]@[0]@) == chart.x_labels@[m]@,
            forall|m: int, p: int|
                0 <= m < i && 0 <= p < k ==> (#[trigger] table@[m + 1]@[p + 1]@) == dec_int(
                    chart.datasets@[selected@[p] as int].data@[m].1 as int,
                ),
        decreases months - i,
    {
        let mut row: Vec<String> = Vec::new();
        row.push(chart.x_labels[i].clone());
        let mut p: usize = 0;
        while p < k
            invariant
                0 <= p <= k,
                0 <= i < months,
                k == selected@.len(),
                months == chart.x_labels@.len(),
                chart.rows_wf(),
                forall|pp: int| 0 <= pp < k ==> (#[trigger] selected@[pp]) < chart.datasets@.len(),
                row@.len() == p + 1,
                row@[0]@ == chart.x_labels@[i as int]@,
                forall|pp: int|
                    0 <= pp < p ==> (#[trigger] row@[pp + 1]@) == dec_int(
                        chart.datasets@[selected@[pp] as int].data@[i as int].1 as int,
                    ),
            decreases k - p,
        {
            let d = &chart.datasets[selected[p]];
            row.push(i64_to_dec(d.data[i].1));
            p = p + 1;
        }
        table.push(row);
        i = i + 1;
    }
    proof {
        assert forall|ii: int| 0 <= ii < table@.len() implies (#[trigger] table@[ii]@.len())
            == selected@.len() + 1 by {
            if ii > 0 {
                assert(table@[(ii - 1) + 1]@.len() == k + 1);
            }
        }
    }
    table
}


/// Largest upper y bound among the selected saved charts, never below zero.
pub open spec fn agg_max(s: Seq<(Seq<char>, Chart)>, selected: Seq<usize>) -> int
    decreases selected.len(),
{
    if selected.len() == 0 {
        0
    } else {
        let pre = agg_max(s, selected.subrange(0, selected.len() - 1));
        let y = s[selected[selected.len() - 1] as int].1.y_bounds.1;
        if y > pre {
            y as int
        } else {
            pre
        }
    }
}

fn clone_strings(v: &Vec<String>) -> (r: Vec<String>)
    ensures
        r@ == v@,
{
    let n = v.len();
    let mut r: Vec<String> = Vec::new();
    let mut i: usize = 0;
    while i < n
        invariant
            0 <= i <= n,
            n == v@.len(),
            r@.len() == i,
            forall|q: int| 0 <= q < i ==> r@[q] == v@[q],
        decreases n - i,
    {
        r.push(v[i].clone());
        i = i + 1;
    }
    proof {
        assert(r@ =~= v@);
    }
    r
}

fn copy_data(v: &Vec<(usize, i64)>) -> (r: Vec<(usize, i64)>)
    ensures
        r@ == v@,
{
    let n = v.len();
    let mut r: Vec<(usize, i64)> = Vec::new();
    let mut i: usize = 0;
    while i < n
        invariant
            0 <= i <= n,
            n == v@.len(),
            r@.len() == i,
            forall|q: int| 0 <= q < i ==> r@[q] == v@[q],
        decreases n - i,
    {
        r.push(v[i]);
        i = i + 1;
    }
    proof {
        assert(r@ =~= v@);
    }
    r
}

/// Builds the combined view of several saved queries: one series per
/// selected saved chart (its primary series, labeled with its identity),
/// the month axis of the most recently inserted chart, and y bounds from
/// zero to the largest upper bound of any selected chart.  `None` only on
/// an empty store.
pub fn aggregate_chart(store: &QueryStore, selected: &Vec<usize>) -> (r: Option<Chart>)
    requires
        forall|q: int| 0 <= q < selected@.len() ==> (#[trigger] selected@[q]) < store@.len(),
        forall|q: int|
            0 <= q < selected@.len() ==> store@[#[trigger] selected@[q] as int].1.datasets@.len()
                >= 1,
    ensures
        r is Some <==> store@.len() > 0,
        r matches Some(c) ==> ({
            let lastc = store@[store@.len() - 1].1;
            &&& c.datasets@.len() == selected@.len()
            &&& (forall|q: int|
                0 <= q < selected@.len() ==> {
                    let d = #[trigger] c.datasets@[q];
                    let src = store@[selected@[q] as int].1.datasets@[0];
                    &&& d.label@ == src.label@
                    &&& d.total == src.total
                    &&& d.data@ == src.data@
                })
            &&& c.x_bounds == lastc.x_bounds
            &&& c.x_ticks@ == lastc.x_ticks@
            &&& c.x_labels@ == lastc.x_labels@
            &&& c.y_bounds.0 == 0
            &&& c.y_bounds.1 as int == agg_max(store@, selected@)
            &&& c.y_ticks@.len() == 3
            &&& c.y_ticks@[0]@ == "0"@
            &&& c.y_ticks@[1]@ == human_count_of(agg_max(store@, selected@) / 2)
            &&& c.y_ticks@[2]@ == human_count_of(agg_max(store@, selected@))
            &&& c.facets is None
        }),
{
    let n = store.len();
    if n == 0 {
        return None;
    }
    let last = store.chart_at(n - 1);
    let x_ticks = clone_strings(&last.x_ticks);
    let x_labels = clone_strings(&last.x_labels);
    let x_bounds = last.x_bounds;
    let k = selected.len();
    let mut max: i64 = 0;
    let mut datasets: Vec<Points> = Vec::new();
    let mut q: usize = 0;
    while q < k
        invariant
            0 <= q <= k,
            k == selected@.len(),
            forall|p: int| 0 <= p < k ==> (#[trigger] selected@[p]) < store@.len(),
            forall|p: int|
                0 <= p < k ==> store@[#[trigger] selected@[p] as int].1.datasets@.len() >= 1,
            datasets@.len() == q,
            forall|p: int|
                0 <= p < q ==> {
                    let d = #[trigger] datasets@[p];
                    let src = store@[selected@[p] as int].1.datasets@[0];
                    &&& d.label@ == src.label@
                    &&& d.total == src.total
                    &&& d.data@ == src.data@
                },
            max >= 0,
            max as int == agg_max(store@, selected@.subrange(0, q as int)),
        decreases k - q,
    {
        let ghost pre = selected@.subrange(0, q as int);
        proof {
            assert(selected@.subrange(0, q + 1).subrange(0, q as int) =~= pre);
            assert(selected@.subrange(0, q + 1)[q as int] == selected@[q as int]);
        }
        let c = store.chart_at(selected[q]);
        let d0 = &c.datasets[0];
        datasets.push(
            Points { label: d0.label.clone(), total: d0.total, data: copy_data(&d0.data) },
        );
        let y = c.y_bounds.1;
        if y > max {
            max = y;
        }
        q = q + 1;
    }
    proof {
        assert(selected@.subrange(0, k as int) =~= selected@);
    }
    let mut y_ticks: Vec<String> = Vec::new();
    y_ticks.push(String::from_str("0"));
    y_ticks.push(human_count(max / 2));
    y_ticks.push(human_count(max));
    Some(
        Chart {
            datasets,
            x_bounds,
            y_bounds: (0i64, max),
            x_ticks,
            y_ticks,
            x_labels,
            facets: None,
        },
    )
}


} // verus!
