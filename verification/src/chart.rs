//! Chart building: turns a decoded response document into a normalized
//! chart model — a primary series over a month axis, axis bounds, exactly
//! three tick labels per axis, and, when a facet was requested, a nested
//! chart with one zero-filled series per distinct facet value.

use vstd::prelude::*;
use vstd::string::*;

use crate::humanize::{human_count, human_count_of};
use crate::json::JsonValue;
use crate::text::spec_month_label;
use crate::text::{find_char_from, first_occ, i64_to_dec, lemma_first_occ, month_label};
use crate::text::{dec_int, spec_trim, trim};

verus! {

/// One labeled series: points are `(month ordinal, count)` pairs.
#[derive(Debug, Clone)]
pub struct Points {
    pub label: String,
    pub total: i64,
    pub data: Vec<(usize, i64)>,
}

/// A normalized chart: series, axis bounds, exactly three tick labels per
/// axis, one display label per month, and an optional nested facet chart.
pub struct Chart {
    pub datasets: Vec<Points>,
    pub x_bounds: (usize, usize),
    pub y_bounds: (i64, i64),
    pub x_ticks: Vec<String>,
    pub y_ticks: Vec<String>,
    pub x_labels: Vec<String>,
    pub facets: Option<Box<Chart>>,
}

/// The response could not be read: a required field was absent or mistyped,
/// a month key was malformed, or a month list was empty.
#[derive(Debug, PartialEq, Eq, Structural, Clone, Copy)]
pub struct ParseError;

/// What a successful build yields: either a chart, or the documented
/// no-results signal when the reported total is zero.
pub enum BuildOutcome {
    NoResults,
    Built(Chart),
}

/// Saturating signed 64-bit addition.
pub open spec fn sat_add(a: int, b: int) -> int {
    if a + b > i64::MAX as int {
        i64::MAX as int
    } else if a + b < i64::MIN as int {
        i64::MIN as int
    } else {
        a + b
    }
}

fn sat_add_i64(a: i64, b: i64) -> (r: i64)
    ensures
        r as int == sat_add(a as int, b as int),
{
    match a.checked_add(b) {
        Some(c) => c,
        None => if b > 0 {
            i64::MAX
        } else {
            i64::MIN
        },
    }
}

/// Reading of one `matches` element: its display label and count.
/// `None` when `month` or `count` is absent or mistyped.
pub open spec fn spec_entry(v: JsonValue) -> Option<(Seq<char>, i64)> {
    match v.spec_get("month"@) {
        Some(m) => match m.spec_as_str() {
            Some(ms) => match spec_month_label(ms) {
                Some(label) => match v.spec_get("count"@) {
                    Some(c) => match c.spec_as_int() {
                        Some(n) => Some((label, n)),
                        None => None,
                    },
                    None => None,
                },
                None => None,
            },
            None => None,
        },
        None => None,
    }
}

/// Reading of the whole `matches` array; `None` as soon as one element is
/// unreadable.
pub open spec fn spec_entries(a: Seq<JsonValue>) -> Option<Seq<(Seq<char>, i64)>>
    decreases a.len(),
{
    if a.len() == 0 {
        Some(Seq::empty())
    } else {
        match spec_entries(a.subrange(0, a.len() - 1)) {
            Some(pre) => match spec_entry(a[a.len() - 1]) {
                Some(e) => Some(pre.push(e)),
                None => None,
            },
            None => None,
        }
    }
}

proof fn lemma_entries_bad(a: Seq<JsonValue>, i: int)
    requires
        0 <= i < a.len(),
        spec_entry(a[i]) is None,
    ensures
        spec_entries(a) is None,
    decreases a.len(),
{
    if a.len() > 0 && i < a.len() - 1 {
        let front = a.subrange(0, a.len() - 1);
        assert(front[i] == a[i]);
        lemma_entries_bad(front, i);
    }
}

/// Largest count seen, never below zero.
pub open spec fn max_count(entries: Seq<(Seq<char>, i64)>) -> int
    decreases entries.len(),
{
    if entries.len() == 0 {
        0
    } else {
        let pre = max_count(entries.subrange(0, entries.len() - 1));
        if entries[entries.len() - 1].1 > pre {
            entries[entries.len() - 1].1 as int
        } else {
            pre
        }
    }
}

proof fn lemma_max_count_nonneg(entries: Seq<(Seq<char>, i64)>)
    ensures
        max_count(entries) >= 0,
    decreases entries.len(),
{
    if entries.len() > 0 {
        lemma_max_count_nonneg(entries.subrange(0, entries.len() - 1));
    }
}

/// The display labels of a parsed entry sequence.
pub open spec fn entry_labels(entries: Seq<(Seq<char>, i64)>) -> Seq<Seq<char>> {
    entries.map_values(|e: (Seq<char>, i64)| e.0)
}

/// A series' points pair each month ordinal with that month's count.
pub open spec fn series_data_ok(data: Seq<(usize, i64)>, counts: Seq<i64>) -> bool {
    &&& data.len() == counts.len()
    &&& forall|i: int| 0 <= i < data.len() ==> #[trigger] data[i] == (i as usize, counts[i])
}

/// The counts of a parsed entry sequence.
pub open spec fn entry_counts(entries: Seq<(Seq<char>, i64)>) -> Seq<i64> {
    entries.map_values(|e: (Seq<char>, i64)| e.1)
}

/// Axis data of one chart level: month labels carried over, bounds from zero
/// to the last ordinal and the largest count, and exactly three tick labels
/// per axis — first, middle and last month, and zero, half of and the whole
/// largest count in compact form.
pub open spec fn axes_ok(c: Chart, labels: Seq<Seq<char>>, maxy: int) -> bool {
    &&& c.x_labels@.len() == labels.len()
    &&& (forall|i: int| 0 <= i < labels.len() ==> #[trigger] c.x_labels@[i]@ == labels[i])
    &&& c.x_bounds.0 == 0
    &&& c.x_bounds.1 == labels.len() - 1
    &&& c.y_bounds.0 == 0
    &&& c.y_bounds.1 as int == maxy
    &&& c.x_ticks@.len() == 3
    &&& c.x_ticks@[0]@ == labels[0]
    &&& c.x_ticks@[1]@ == labels[labels.len() as int / 2]
    &&& c.x_ticks@[2]@ == labels[labels.len() - 1]
    &&& c.y_ticks@.len() == 3
    &&& c.y_ticks@[0]@ == "0"@
    &&& c.y_ticks@[1]@ == human_count_of(maxy / 2)
    &&& c.y_ticks@[2]@ == human_count_of(maxy)
}

/// Labels, point data and largest count read from the `matches` array.
pub struct ParsedSeries {
    pub labels: Vec<String>,
    pub data: Vec<(usize, i64)>,
    pub max: i64,
}

fn parse_primary(arr: &Vec<JsonValue>) -> (r: Result<ParsedSeries, ParseError>)
    ensures
        r is Ok <==> spec_entries(arr@) is Some,
        r matches Ok(p) ==> {
            let es = spec_entries(arr@)->0;
            &&& p.labels@.len() == es.len()
            &&& (forall|i: int| 0 <= i < es.len() ==> #[trigger] p.labels@[i]@ == es[i].0)
            &&& series_data_ok(p.data@, entry_counts(es))
            &&& p.max as int == max_count(es)
        },
{
    let n = arr.len();
    let mut labels: Vec<String> = Vec::new();
    let mut data: Vec<(usize, i64)> = Vec::new();
    let mut max: i64 = 0;
    let mut i: usize = 0;
    while i < n
        invariant
            0 <= i <= n,
            n == arr@.len(),
            spec_entries(arr@.subrange(0, i as int)) is Some,
            ({
                let es = spec_entries(arr@.subrange(0, i as int))->0;
                &&& es.len() == i
                &&& labels@.len() == i
                &&& data@.len() == i
                &&& (forall|j: int| 0 <= j < i ==> #[trigger] labels@[j]@ == es[j].0)
                &&& (forall|j: int| 0 <= j < i ==> #[trigger] data@[j] == (j as usize, es[j].1))
                &&& max as int == max_count(es)
            }),
        decreases n - i,
    {
        let ghost pre = spec_entries(arr@.subrange(0, i as int))->0;
        let entry = &arr[i];
        proof {
            assert(arr@.subrange(0, i + 1).subrange(0, i as int) =~= arr@.subrange(0, i as int));
            assert(arr@.subrange(0, i + 1)[i as int] == arr@[i as int]);
        }
        let month = match entry.get("month") {
            Some(v) => v,
            None => {
                proof {
                    lemma_entries_bad(arr@, i as int);
                }
                return Err(ParseError);
            },
        };
        let month_str = match month.as_str() {
            Some(s) => s,
            None => {
                proof {
                    lemma_entries_bad(arr@, i as int);
                }
                return Err(ParseError);
            },
        };
        let label = match month_label(month_str.as_str()) {
            Some(l) => l,
            None => {
                proof {
                    lemma_entries_bad(arr@, i as int);
                }
                return Err(ParseError);
            },
        };
        let count = match entry.get("count") {
            Some(v) => match v.as_int() {
                Some(c) => c,
                None => {
                    proof {
                        lemma_entries_bad(arr@, i as int);
                    }
                    return Err(ParseError);
                },
            },
            None => {
                proof {
                    lemma_entries_bad(arr@, i as int);
                }
                return Err(ParseError);
            },
        };
        proof {
            assert(spec_entry(arr@[i as int]) == Some((label@, count)));
            assert(spec_entries(arr@.subrange(0, i + 1)) == Some(pre.push((label@, count))));
            assert(pre.push((label@, count)).subrange(0, i as int) =~= pre);
        }
        labels.push(label);
        data.push((i, count));
        if count > max {
            max = count;
        }
        i = i + 1;
    }
    proof {
        assert(arr@.subrange(0, n as int) =~= arr@);
    }
    Ok(ParsedSeries { labels, data, max })
}


/// Reading of one entry of a month bucket's `values` array: the facet value
/// (numbers rendered in decimal) and its count.
pub open spec fn spec_value_pair(v: JsonValue) -> Option<(Seq<char>, i64)> {
    match v.spec_get("value"@) {
        Some(val) => {
            let name_opt: Option<Seq<char>> = match val.spec_as_str() {
                Some(s) => Some(s),
                None => match val.spec_as_int() {
                    Some(n) => Some(dec_int(n as int)),
                    None => None,
                },
            };
            match name_opt {
                Some(name) => match v.spec_get("count"@) {
                    Some(c) => match c.spec_as_int() {
                        Some(n) => Some((name, n)),
                        None => None,
                    },
                    None => None,
                },
                None => None,
            }
        },
        None => None,
    }
}

pub open spec fn spec_value_pairs(a: Seq<JsonValue>) -> Option<Seq<(Seq<char>, i64)>>
    decreases a.len(),
{
    if a.len() == 0 {
        Some(Seq::empty())
    } else {
        match spec_value_pairs(a.subrange(0, a.len() - 1)) {
            Some(pre) => match spec_value_pair(a[a.len() - 1]) {
                Some(e) => Some(pre.push(e)),
                None => None,
            },
            None => None,
        }
    }
}

proof fn lemma_value_pairs_bad(a: Seq<JsonValue>, i: int)
    requires
        0 <= i < a.len(),
        spec_value_pair(a[i]) is None,
    ensures
        spec_value_pairs(a) is None,
    decreases a.len(),
{
    if a.len() > 0 && i < a.len() - 1 {
        let front = a.subrange(0, a.len() - 1);
        assert(front[i] == a[i]);
        lemma_value_pairs_bad(front, i);
    }
}

/// Reading of one month bucket of a facet array: the month's display label
/// and its value pairs in order.
pub open spec fn spec_bucket(v: JsonValue) -> Option<(Seq<char>, Seq<(Seq<char>, i64)>)> {
    match v.spec_get("key"@) {
        Some(k) => match k.spec_as_str() {
            Some(ks) => match spec_month_label(ks) {
                Some(label) => match v.spec_get("values"@) {
                    Some(vs) => match vs.spec_as_array() {
                        Some(a) => match spec_value_pairs(a) {
                            Some(ps) => Some((label, ps)),
                            None => None,
                        },
                        None => None,
                    },
                    None => None,
                },
                None => None,
            },
            None => None,
        },
        None => None,
    }
}

pub open spec fn spec_buckets(a: Seq<JsonValue>) -> Option<
    Seq<(Seq<char>, Seq<(Seq<char>, i64)>)>,
>
    decreases a.len(),
{
    if a.len() == 0 {
        Some(Seq::empty())
    } else {
        match spec_buckets(a.subrange(0, a.len() - 1)) {
            Some(pre) => match spec_bucket(a[a.len() - 1]) {
                Some(e) => Some(pre.push(e)),
                None => None,
            },
            None => None,
        }
    }
}

proof fn lemma_buckets_bad(a: Seq<JsonValue>, i: int)
    requires
        0 <= i < a.len(),
        spec_bucket(a[i]) is None,
    ensures
        spec_buckets(a) is None,
    decreases a.len(),
{
    if a.len() > 0 && i < a.len() - 1 {
        let front = a.subrange(0, a.len() - 1);
        assert(front[i] == a[i]);
        lemma_buckets_bad(front, i);
    }
}

/// All value pairs of all months, in month order then in-bucket order.
pub open spec fn flatten_months(months: Seq<(Seq<char>, Seq<(Seq<char>, i64)>)>) -> Seq<
    (Seq<char>, i64),
>
    decreases months.len(),
{
    if months.len() == 0 {
        Seq::empty()
    } else {
        flatten_months(months.subrange(0, months.len() - 1)) + months[months.len() - 1].1
    }
}

/// Appends a facet value name unless it was already seen.
pub open spec fn add_name(names: Seq<Seq<char>>, name: Seq<char>) -> Seq<Seq<char>> {
    if names.contains(name) {
        names
    } else {
        names.push(name)
    }
}

/// Distinct facet value names in first-encounter order.
pub open spec fn collect_names(pairs: Seq<(Seq<char>, i64)>) -> Seq<Seq<char>>
    decreases pairs.len(),
{
    if pairs.len() == 0 {
        Seq::empty()
    } else {
        add_name(collect_names(pairs.subrange(0, pairs.len() - 1)), pairs[pairs.len() - 1].0)
    }
}

/// Accumulated count of one facet value over all its occurrences,
/// saturating at the signed 64-bit bounds.
pub open spec fn total_of(pairs: Seq<(Seq<char>, i64)>, name: Seq<char>) -> int
    decreases pairs.len(),
{
    if pairs.len() == 0 {
        0
    } else {
        let pre = total_of(pairs.subrange(0, pairs.len() - 1), name);
        if pairs[pairs.len() - 1].0 == name {
            sat_add(pre, pairs[pairs.len() - 1].1 as int)
        } else {
            pre
        }
    }
}

/// Count shown for a facet value in one month: the last occurrence in that
/// month's bucket, or zero when the value did not appear.
pub open spec fn last_count(pairs: Seq<(Seq<char>, i64)>, name: Seq<char>) -> i64
    decreases pairs.len(),
{
    if pairs.len() == 0 {
        0i64
    } else if pairs[pairs.len() - 1].0 == name {
        pairs[pairs.len() - 1].1
    } else {
        last_count(pairs.subrange(0, pairs.len() - 1), name)
    }
}

/// Per-value running totals in first-encounter order.
pub open spec fn facet_totals(pairs: Seq<(Seq<char>, i64)>) -> Seq<(Seq<char>, int)> {
    collect_names(pairs).map_values(|n: Seq<char>| (n, total_of(pairs, n)))
}

proof fn lemma_total_absent(pairs: Seq<(Seq<char>, i64)>, name: Seq<char>)
    requires
        !collect_names(pairs).contains(name),
    ensures
        total_of(pairs, name) == 0,
    decreases pairs.len(),
{
    if pairs.len() > 0 {
        let front = pairs.subrange(0, pairs.len() - 1);
        let cnf = collect_names(front);
        let x = pairs[pairs.len() - 1];
        if x.0 == name {
            assert(add_name(cnf, x.0).contains(name)) by {
                if cnf.contains(name) {
                } else {
                    assert(cnf.push(name)[cnf.len() as int] == name);
                }
            }
            assert(false);
        }
        if cnf.contains(name) {
            let i = choose|i: int| 0 <= i < cnf.len() && cnf[i] == name;
            assert(add_name(cnf, x.0).contains(name)) by {
                if cnf.contains(x.0) {
                } else {
                    assert(cnf.push(x.0)[i] == name);
                }
            }
            assert(false);
        }
        lemma_total_absent(front, name);
    }
}

/// The view of an owned pair list.
pub open spec fn pairs_view(s: Seq<(String, i64)>) -> Seq<(Seq<char>, i64)> {
    s.map_values(|p: (String, i64)| (p.0@, p.1))
}

/// The view of an owned totals list.
pub open spec fn totals_view(s: Seq<(String, i64)>) -> Seq<(Seq<char>, int)> {
    s.map_values(|p: (String, i64)| (p.0@, p.1 as int))
}

/// Month labels, per-month value pairs, per-value running totals in
/// first-encounter order, and the largest single count read from a facet
/// month array.
pub struct FacetRaw {
    pub labels: Vec<String>,
    pub months: Vec<Vec<(String, i64)>>,
    pub totals: Vec<(String, i64)>,
    pub max: i64,
}

impl FacetRaw {
    pub open spec fn matches_spec(self, ms: Seq<(Seq<char>, Seq<(Seq<char>, i64)>)>) -> bool {
        let flat = flatten_months(ms);
        &&& self.labels@.len() == ms.len()
        &&& (forall|i: int| 0 <= i < ms.len() ==> #[trigger] self.labels@[i]@ == ms[i].0)
        &&& self.months@.len() == ms.len()
        &&& (forall|i: int| 0 <= i < ms.len() ==> #[trigger] pairs_view(self.months@[i]@) == ms[i].1)
        &&& totals_view(self.totals@) == facet_totals(flat)
        &&& self.max as int == max_count(flat)
    }
}

fn parse_facets(farr: &Vec<JsonValue>) -> (r: Result<FacetRaw, ParseError>)
    ensures
        r is Ok <==> spec_buckets(farr@) is Some,
        r matches Ok(f) ==> f.matches_spec(spec_buckets(farr@)->0),
{
    let n = farr.len();
    let mut labels: Vec<String> = Vec::new();
    let mut months: Vec<Vec<(String, i64)>> = Vec::new();
    let mut totals: Vec<(String, i64)> = Vec::new();
    let mut max: i64 = 0;
    let mut i: usize = 0;
    while i < n
        invariant
            0 <= i <= n,
            n == farr@.len(),
            spec_buckets(farr@.subrange(0, i as int)) is Some,
            ({
                let ms = spec_buckets(farr@.subrange(0, i as int))->0;
                let flat = flatten_months(ms);
                &&& ms.len() == i
                &&& labels@.len() == i
                &&& months@.len() == i
                &&& (forall|j: int| 0 <= j < i ==> #[trigger] labels@[j]@ == ms[j].0)
                &&& (forall|j: int| 0 <= j < i ==> #[trigger] pairs_view(months@[j]@) == ms[j].1)
                &&& totals_view(totals@) == facet_totals(flat)
                &&& (forall|k1: int, k2: int|
                    0 <= k1 < k2 < totals@.len() ==> totals@[k1].0@ != totals@[k2].0@)
                &&& max as int == max_count(flat)
            }),
        decreases n - i,
    {
        let ghost ms_pre = spec_buckets(farr@.subrange(0, i as int))->0;
        let ghost flat_pre = flatten_months(ms_pre);
        let bucket = &farr[i];
        proof {
            assert(farr@.subrange(0, i + 1).subrange(0, i as int) =~= farr@.subrange(0, i as int));
            assert(farr@.subrange(0, i + 1)[i as int] == farr@[i as int]);
        }
        let key = match bucket.get("key") {
            Some(v) => v,
            None => {
                proof {
                    lemma_buckets_bad(farr@, i as int);
                }
                return Err(ParseError);
            },
        };
        let key_str = match key.as_str() {
            Some(s) => s,
            None => {
                proof {
                    lemma_buckets_bad(farr@, i as int);
                }
                return Err(ParseError);
            },
        };
        let label = match month_label(key_str.as_str()) {
            Some(l) => l,
            None => {
                proof {
                    lemma_buckets_bad(farr@, i as int);
                }
                return Err(ParseError);
            },
        };
        let values = match bucket.get("values") {
            Some(v) => match v.as_array() {
                Some(a) => a,
                None => {
                    proof {
                        lemma_buckets_bad(farr@, i as int);
                    }
                    return Err(ParseError);
                },
            },
            None => {
                proof {
                    lemma_buckets_bad(farr@, i as int);
                }
                return Err(ParseError);
            },
        };
        let vn = values.len();
        let mut month_pairs: Vec<(String, i64)> = Vec::new();
        let mut j: usize = 0;
        proof {
            assert(spec_value_pairs(values@) is None ==> spec_bucket(farr@[i as int]) is None);
        }
        while j < vn
            invariant
                0 <= j <= vn,
                vn == values@.len(),
                i < n,
                n == farr@.len(),
                spec_value_pairs(values@) is None ==> spec_bucket(farr@[i as int]) is None,
                spec_value_pairs(values@.subrange(0, j as int)) is Some,
                totals_view(totals@) == facet_totals(
                    flat_pre + spec_value_pairs(values@.subrange(0, j as int))->0,
                ),
                (forall|k1: int, k2: int|
                    0 <= k1 < k2 < totals@.len() ==> totals@[k1].0@ != totals@[k2].0@),
                pairs_view(month_pairs@) == spec_value_pairs(values@.subrange(0, j as int))->0,
                max as int == max_count(
                    flat_pre + spec_value_pairs(values@.subrange(0, j as int))->0,
                ),
            decreases vn - j,
        {
            let ghost pairs_pre = flat_pre + spec_value_pairs(values@.subrange(0, j as int))->0;
            let b = &values[j];
            proof {
                assert(values@.subrange(0, j + 1).subrange(0, j as int) =~= values@.subrange(
                    0,
                    j as int,
                ));
                assert(values@.subrange(0, j + 1)[j as int] == values@[j as int]);
            }
            let vfield = match b.get("value") {
                Some(v) => v,
                None => {
                    proof {
                        lemma_value_pairs_bad(values@, j as int);
                        lemma_buckets_bad(farr@, i as int);
                    }
                    return Err(ParseError);
                },
            };
            let name: String = match vfield.as_str() {
                Some(s) => s.clone(),
                None => match vfield.as_int() {
                    Some(num) => i64_to_dec(num),
                    None => {
                        proof {
                            lemma_value_pairs_bad(values@, j as int);
                            lemma_buckets_bad(farr@, i as int);
                        }
                        return Err(ParseError);
                    },
                },
            };
            let count = match b.get("count") {
                Some(v) => match v.as_int() {
                    Some(c) => c,
                    None => {
                        proof {
                            lemma_value_pairs_bad(values@, j as int);
                            lemma_buckets_bad(farr@, i as int);
                        }
                        return Err(ParseError);
                    },
                },
                None => {
                    proof {
                        lemma_value_pairs_bad(values@, j as int);
                        lemma_buckets_bad(farr@, i as int);
                    }
                    return Err(ParseError);
                },
            };
            let ghost x = (name@, count);
            let ghost pairs_post = pairs_pre.push(x);
            proof {
                assert(spec_value_pair(values@[j as int]) == Some(x));
                assert(spec_value_pairs(values@.subrange(0, j + 1)) == Some(
                    spec_value_pairs(values@.subrange(0, j as int))->0.push(x),
                ));
                assert(flat_pre + spec_value_pairs(values@.subrange(0, j + 1))->0 =~= pairs_post);
                assert(pairs_post.subrange(0, pairs_post.len() - 1) =~= pairs_pre);
            }
            // update the running totals for this facet value
            let ghost cn = collect_names(pairs_pre);
            proof {
                assert(collect_names(pairs_post) == add_name(cn, x.0));
                assert(total_of(pairs_post, x.0) == sat_add(total_of(pairs_pre, x.0), x.1 as int));
                assert forall|nm: Seq<char>| nm != x.0 implies total_of(pairs_post, nm) == total_of(
                    pairs_pre,
                    nm,
                ) by {
                    assert(pairs_post.subrange(0, pairs_post.len() - 1) =~= pairs_pre);
                }
            }
            let tn = totals.len();
            let mut k: usize = 0;
            let mut found = false;
            while k < tn && !found
                invariant
                    0 <= k <= tn,
                    tn == totals@.len(),
                    !found ==> forall|q: int| 0 <= q < k ==> totals@[q].0@ != name@,
                    found ==> k < tn && totals@[k as int].0@ == name@,
                decreases tn - k + if found {
                    0int
                } else {
                    1int
                },
            {
                if crate::text::str_eq(totals[k].0.as_str(), name.as_str()) {
                    found = true;
                } else {
                    k = k + 1;
                }
            }
            if found {
                proof {
                    assert(totals_view(totals@).len() == totals@.len());
                    assert(facet_totals(pairs_pre).len() == cn.len());
                    assert(k < cn.len());
                    assert(totals_view(totals@)[k as int] == (
                        totals@[k as int].0@,
                        totals@[k as int].1 as int,
                    ));
                    assert(facet_totals(pairs_pre)[k as int] == (
                        cn[k as int],
                        total_of(pairs_pre, cn[k as int]),
                    ));
                    assert(totals_view(totals@)[k as int] == facet_totals(pairs_pre)[k as int]);
                    assert(cn[k as int] == name@);
                    assert(cn.contains(x.0));
                    assert(collect_names(pairs_post) == cn);
                }
                let ghost tv_pre = totals@;
                let old_total = totals[k].1;
                let key_clone = totals[k].0.clone();
                totals.set(k, (key_clone, sat_add_i64(old_total, count)));
                proof {
                    assert(totals@ =~= tv_pre.update(k as int, totals@[k as int]));
                    assert(totals@[k as int].0@ == x.0);
                    assert(totals@[k as int].1 as int == sat_add(
                        total_of(pairs_pre, x.0),
                        x.1 as int,
                    ));
                    assert forall|q: int| 0 <= q < totals@.len() implies totals_view(totals@)[q]
                        == facet_totals(pairs_post)[q] by {
                        assert(facet_totals(pairs_post)[q] == (cn[q], total_of(pairs_post, cn[q])));
                        assert(totals_view(totals@)[q] == (totals@[q].0@, totals@[q].1 as int));
                        assert(facet_totals(pairs_pre)[q] == (cn[q], total_of(pairs_pre, cn[q])));
                        assert(totals_view(tv_pre)[q] == (tv_pre[q].0@, tv_pre[q].1 as int));
                        assert(cn[q] == tv_pre[q].0@);
                        if q != k {
                            assert(totals@[q] == tv_pre[q]);
                            assert(cn[q] != x.0);
                            assert(total_of(pairs_post, cn[q]) == total_of(pairs_pre, cn[q]));
                        } else {
                            assert(cn[q] == x.0);
                            assert(total_of(pairs_post, x.0) == sat_add(
                                total_of(pairs_pre, x.0),
                                x.1 as int,
                            ));
                        }
                    }
                    assert(totals_view(totals@) =~= facet_totals(pairs_post));
                }
            } else {
                proof {
                    assert(totals_view(totals@).len() == totals@.len());
                    assert(facet_totals(pairs_pre).len() == cn.len());
                    if cn.contains(x.0) {
                        let w = choose|w: int| 0 <= w < cn.len() && cn[w] == x.0;
                        assert(totals_view(totals@)[w] == (totals@[w].0@, totals@[w].1 as int));
                        assert(facet_totals(pairs_pre)[w] == (cn[w], total_of(pairs_pre, cn[w])));
                        assert(totals_view(totals@)[w] == facet_totals(pairs_pre)[w]);
                        assert(totals@[w].0@ == x.0);
                        assert(false);
                    }
                    lemma_total_absent(pairs_pre, x.0);
                    assert(collect_names(pairs_post) == cn.push(x.0));
                    assert(total_of(pairs_post, x.0) == sat_add(0, x.1 as int));
                }
                let ghost tv_pre = totals@;
                let name_clone = name.clone();
                totals.push((name_clone, count));
                proof {
                    assert(totals@ =~= tv_pre.push((totals@[tv_pre.len() as int])));
                    let cn2 = collect_names(pairs_post);
                    assert(cn2 =~= cn.push(x.0));
                    assert forall|q: int| 0 <= q < totals@.len() implies totals_view(totals@)[q]
                        == facet_totals(pairs_post)[q] by {
                        assert(facet_totals(pairs_post)[q] == (cn2[q], total_of(
                            pairs_post,
                            cn2[q],
                        )));
                        assert(totals_view(totals@)[q] == (totals@[q].0@, totals@[q].1 as int));
                        if q < totals@.len() - 1 {
                            assert(totals@[q] == tv_pre[q]);
                            assert(totals_view(tv_pre)[q] == (tv_pre[q].0@, tv_pre[q].1 as int));
                            assert(facet_totals(pairs_pre)[q] == (cn[q], total_of(
                                pairs_pre,
                                cn[q],
                            )));
                            assert(cn2[q] == cn[q]);
                            assert(cn[q] == tv_pre[q].0@);
                            assert(cn[q] != x.0) by {
                                if cn[q] == x.0 {
                                    assert(cn.contains(x.0));
                                }
                            }
                            assert(total_of(pairs_post, cn[q]) == total_of(pairs_pre, cn[q]));
                        } else {
                            assert(q == tv_pre.len());
                            assert(cn2[q] == x.0);
                            assert(totals@[q].0@ == x.0);
                            assert(totals@[q].1 == x.1);
                            assert(total_of(pairs_post, x.0) == sat_add(0, x.1 as int));
                        }
                    }
                    assert(totals_view(totals@) =~= facet_totals(pairs_post));
                }
            }
            month_pairs.push((name, count));
            if count > max {
                max = count;
            }
            proof {
                assert(pairs_view(month_pairs@) =~= spec_value_pairs(
                    values@.subrange(0, j + 1),
                )->0);
                assert(max as int == max_count(pairs_post));
            }
            j = j + 1;
        }
        proof {
            assert(values@.subrange(0, vn as int) =~= values@);
            assert(spec_bucket(farr@[i as int]) == Some(
                (label@, spec_value_pairs(values@)->0),
            ));
            assert(spec_buckets(farr@.subrange(0, i + 1)) == Some(
                ms_pre.push((label@, spec_value_pairs(values@)->0)),
            ));
            let ms_post = ms_pre.push((label@, spec_value_pairs(values@)->0));
            assert(ms_post.subrange(0, ms_post.len() - 1) =~= ms_pre);
            assert(flatten_months(ms_post) =~= flat_pre + spec_value_pairs(values@)->0);
        }
        labels.push(label);
        months.push(month_pairs);
        i = i + 1;
        proof {
            let ms = spec_buckets(farr@.subrange(0, i as int))->0;
            assert(forall|jj: int|
                0 <= jj < i - 1 ==> ms[jj] == ms.subrange(0, i - 1)[jj]);
        }
    }
    proof {
        assert(farr@.subrange(0, n as int) =~= farr@);
    }
    Ok(FacetRaw { labels, months, totals, max })
}



/// Insertion point of a new total in a descending list: after every entry
/// whose total is at least as large.
pub open spec fn insert_pos(x: (Seq<char>, int), s: Seq<(Seq<char>, int)>) -> int
    decreases s.len(),
{
    if s.len() == 0 {
        0
    } else if s[0].1 >= x.1 {
        1 + insert_pos(x, s.subrange(1, s.len() as int))
    } else {
        0
    }
}

/// Stable insertion: the new entry goes after every entry with an equal or
/// larger total.
pub open spec fn insert_desc(x: (Seq<char>, int), s: Seq<(Seq<char>, int)>) -> Seq<
    (Seq<char>, int),
>
    decreases s.len(),
{
    if s.len() == 0 {
        seq![x]
    } else if s[0].1 >= x.1 {
        seq![s[0]] + insert_desc(x, s.subrange(1, s.len() as int))
    } else {
        seq![x] + s
    }
}

/// Stable descending sort by total: entries are processed in encounter
/// order, each inserted after its equals.
pub open spec fn sort_desc(s: Seq<(Seq<char>, int)>) -> Seq<(Seq<char>, int)>
    decreases s.len(),
{
    if s.len() == 0 {
        Seq::empty()
    } else {
        insert_desc(s[s.len() - 1], sort_desc(s.subrange(0, s.len() - 1)))
    }
}

/// Totals never increase along the sequence.
pub open spec fn sorted_desc(s: Seq<(Seq<char>, int)>) -> bool {
    forall|i: int, j: int| 0 <= i < j < s.len() ==> s[i].1 >= s[j].1
}

proof fn lemma_insert_desc_form(x: (Seq<char>, int), s: Seq<(Seq<char>, int)>)
    ensures
        0 <= insert_pos(x, s) <= s.len(),
        forall|q: int| 0 <= q < insert_pos(x, s) ==> s[q].1 >= x.1,
        insert_pos(x, s) < s.len() ==> s[insert_pos(x, s)].1 < x.1,
        insert_desc(x, s) == s.subrange(0, insert_pos(x, s)) + seq![x] + s.subrange(
            insert_pos(x, s),
            s.len() as int,
        ),
    decreases s.len(),
{
    if s.len() == 0 {
        assert(insert_desc(x, s) =~= s.subrange(0, 0) + seq![x] + s.subrange(0, 0));
    } else if s[0].1 >= x.1 {
        let t = s.subrange(1, s.len() as int);
        lemma_insert_desc_form(x, t);
        let p = insert_pos(x, s);
        assert forall|q: int| 0 <= q < p implies s[q].1 >= x.1 by {
            if q >= 1 {
                assert(t[q - 1].1 >= x.1);
            }
        }
        if p < s.len() {
            assert(t[p - 1].1 < x.1);
        }
        assert(seq![s[0]] + (t.subrange(0, p - 1) + seq![x] + t.subrange(p - 1, t.len() as int))
            =~= s.subrange(0, p) + seq![x] + s.subrange(p, s.len() as int));
    } else {
        assert(insert_desc(x, s) =~= s.subrange(0, 0) + seq![x] + s.subrange(0, s.len() as int));
    }
}

proof fn lemma_insert_desc_sorted(x: (Seq<char>, int), s: Seq<(Seq<char>, int)>)
    requires
        sorted_desc(s),
    ensures
        insert_desc(x, s).len() == s.len() + 1,
        sorted_desc(insert_desc(x, s)),
{
    lemma_insert_desc_form(x, s);
    let p = insert_pos(x, s);
    let r = insert_desc(x, s);
    assert forall|i: int, j: int| 0 <= i < j < r.len() implies r[i].1 >= r[j].1 by {
        if i < p {
            assert(r[i] == s[i]);
        } else if i == p {
            assert(r[i] == x);
        } else {
            assert(r[i] == s[i - 1]);
        }
        if j < p {
            assert(r[j] == s[j]);
        } else if j == p {
            assert(r[j] == x);
        } else {
            assert(r[j] == s[j - 1]);
        }
    }
}

proof fn lemma_filter_no_match(s: Seq<(Seq<char>, int)>, t: int)
    requires
        forall|i: int| 0 <= i < s.len() ==> s[i].1 != t,
    ensures
        s.filter(|p: (Seq<char>, int)| p.1 == t) == Seq::<(Seq<char>, int)>::empty(),
    decreases s.len(),
{
    reveal(Seq::filter);
    if s.len() > 0 {
        assert(s.drop_last() =~= s.subrange(0, s.len() - 1));
        lemma_filter_no_match(s.drop_last(), t);
    }
}

proof fn lemma_insert_desc_filter(x: (Seq<char>, int), s: Seq<(Seq<char>, int)>, t: int)
    requires
        sorted_desc(s),
    ensures
        t == x.1 ==> insert_desc(x, s).filter(|p: (Seq<char>, int)| p.1 == t) == s.filter(
            |p: (Seq<char>, int)| p.1 == t,
        ).push(x),
        t != x.1 ==> insert_desc(x, s).filter(|p: (Seq<char>, int)| p.1 == t) == s.filter(
            |p: (Seq<char>, int)| p.1 == t,
        ),
{
    broadcast use vstd::seq_lib::group_filter_ensures;

    let pred = |p: (Seq<char>, int)| p.1 == t;
    lemma_insert_desc_form(x, s);
    let p = insert_pos(x, s);
    let a = s.subrange(0, p);
    let b = s.subrange(p, s.len() as int);
    let r = insert_desc(x, s);
    assert(r == a + seq![x] + b);
    Seq::filter_distributes_over_add(a + seq![x], b, pred);
    Seq::filter_distributes_over_add(a, seq![x], pred);
    assert(s =~= a + b);
    Seq::filter_distributes_over_add(a, b, pred);
    reveal_with_fuel(Seq::filter, 3);
    assert(seq![x].drop_last() =~= Seq::<(Seq<char>, int)>::empty());
    if t == x.1 {
        assert(seq![x].filter(pred) =~= seq![x]);
        assert(forall|i: int| 0 <= i < b.len() ==> b[i].1 != t) by {
            if p < s.len() {
                assert(forall|i: int| 0 <= i < b.len() ==> b[i].1 <= s[p as int].1);
            }
        }
        lemma_filter_no_match(b, t);
        assert(r.filter(pred) =~= s.filter(pred).push(x));
    } else {
        assert(seq![x].filter(pred) =~= Seq::<(Seq<char>, int)>::empty());
        assert(r.filter(pred) =~= s.filter(pred));
    }
}

/// Law: the facet sort orders entries by descending total, keeps exactly the
/// same entries, and is stable — for any total `t`, the subsequence of
/// entries with that total is unchanged, so equal totals keep their
/// first-encounter order.
pub proof fn lemma_sort_desc_stable(s: Seq<(Seq<char>, int)>, t: int)
    ensures
        sort_desc(s).len() == s.len(),
        sorted_desc(sort_desc(s)),
        sort_desc(s).filter(|p: (Seq<char>, int)| p.1 == t) == s.filter(
            |p: (Seq<char>, int)| p.1 == t,
        ),
    decreases s.len(),
{
    reveal(Seq::filter);
    let pred = |p: (Seq<char>, int)| p.1 == t;
    if s.len() > 0 {
        let front = s.subrange(0, s.len() - 1);
        let x = s[s.len() - 1];
        lemma_sort_desc_stable(front, t);
        lemma_insert_desc_sorted(x, sort_desc(front));
        lemma_insert_desc_filter(x, sort_desc(front), t);
        assert(s.drop_last() =~= front);
        if pred(x) {
            assert(s.filter(pred) == front.filter(pred).push(x));
        } else {
            assert(s.filter(pred) == front.filter(pred));
        }
    }
}

fn sort_totals(v: Vec<(String, i64)>) -> (r: Vec<(String, i64)>)
    ensures
        totals_view(r@) == sort_desc(totals_view(v@)),
{
    let n = v.len();
    let mut out: Vec<(String, i64)> = Vec::new();
    let mut i: usize = 0;
    while i < n
        invariant
            0 <= i <= n,
            n == v@.len(),
            totals_view(out@) == sort_desc(totals_view(v@.subrange(0, i as int))),
            sorted_desc(totals_view(out@)),
            out@.len() == i,
        decreases n - i,
    {
        let ghost pre = totals_view(v@.subrange(0, i as int));
        let x = (v[i].0.clone(), v[i].1);
        let ghost xv = (x.0@, x.1 as int);
        proof {
            let post = totals_view(v@.subrange(0, i + 1));
            assert(post.len() == i + 1);
            assert(post[i as int] == xv);
            assert(post.subrange(0, i as int) =~= pre);
            assert(sort_desc(post) == insert_desc(xv, sort_desc(pre)));
        }
        let on = out.len();
        let mut k: usize = 0;
        while k < on && out[k].1 >= x.1
            invariant
                0 <= k <= on,
                on == out@.len(),
                forall|q: int| 0 <= q < k ==> out@[q].1 >= x.1,
            decreases on - k,
        {
            k = k + 1;
        }
        proof {
            lemma_insert_desc_form(xv, totals_view(out@));
            let p = insert_pos(xv, totals_view(out@));
            assert(forall|q: int|
                0 <= q < out@.len() ==> totals_view(out@)[q] == (out@[q].0@, out@[q].1 as int));
            if p < k {
                assert(totals_view(out@)[p].1 >= xv.1);
                assert(false);
            }
            if p > k {
                assert(totals_view(out@)[k as int].1 >= xv.1);
                assert(false);
            }
        }
        let ghost out_pre = out@;
        out.insert(k, x);
        proof {
            let ov = totals_view(out_pre);
            assert(out@ =~= out_pre.insert(k as int, x));
            assert(totals_view(out@) =~= ov.subrange(0, k as int) + seq![xv] + ov.subrange(
                k as int,
                ov.len() as int,
            ));
            assert(totals_view(out@) == insert_desc(xv, ov));
            lemma_insert_desc_sorted(xv, ov);
        }
        i = i + 1;
    }
    proof {
        assert(v@.subrange(0, n as int) =~= v@);
    }
    out
}

fn lookup_last(pairs: &Vec<(String, i64)>, name: &str) -> (r: i64)
    ensures
        r == last_count(pairs_view(pairs@), name@),
{
    let mut k = pairs.len();
    proof {
        assert(pairs_view(pairs@).subrange(0, pairs@.len() as int) =~= pairs_view(pairs@));
    }
    while k > 0
        invariant
            0 <= k <= pairs@.len(),
            last_count(pairs_view(pairs@), name@) == last_count(
                pairs_view(pairs@).subrange(0, k as int),
                name@,
            ),
        decreases k,
    {
        let ghost pv = pairs_view(pairs@);
        proof {
            assert(pv[k - 1] == (pairs@[k - 1].0@, pairs@[k - 1].1));
            assert(pv.subrange(0, k as int).subrange(0, k - 1) =~= pv.subrange(0, k - 1));
            assert(pv.subrange(0, k as int)[k - 1] == pv[k - 1]);
        }
        if crate::text::str_eq(pairs[k - 1].0.as_str(), name) {
            return pairs[k - 1].1;
        }
        k = k - 1;
    }
    proof {
        assert(pairs_view(pairs@).subrange(0, 0) =~= Seq::<(Seq<char>, i64)>::empty());
    }
    0
}

fn facet_datasets(sorted: &Vec<(String, i64)>, months: &Vec<Vec<(String, i64)>>) -> (r: Vec<
    Points,
>)
    ensures
        r@.len() == sorted@.len(),
        forall|j: int|
            0 <= j < r@.len() ==> {
                let d = #[trigger] r@[j];
                &&& d.label@ == sorted@[j].0@
                &&& d.total == sorted@[j].1
                &&& d.data@.len() == months@.len()
                &&& (forall|i: int|
                    0 <= i < months@.len() ==> #[trigger] d.data@[i] == (
                        i as usize,
                        last_count(pairs_view(months@[i]@), sorted@[j].0@),
                    ))
            },
{
    let sn = sorted.len();
    let mn = months.len();
    let mut r: Vec<Points> = Vec::new();
    let mut j: usize = 0;
    while j < sn
        invariant
            0 <= j <= sn,
            sn == sorted@.len(),
            mn == months@.len(),
            r@.len() == j,
            forall|q: int|
                0 <= q < j ==> {
                    let d = #[trigger] r@[q];
                    &&& d.label@ == sorted@[q].0@
                    &&& d.total == sorted@[q].1
                    &&& d.data@.len() == months@.len()
                    &&& (forall|i: int|
                        0 <= i < months@.len() ==> #[trigger] d.data@[i] == (
                            i as usize,
                            last_count(pairs_view(months@[i]@), sorted@[q].0@),
                        ))
                },
        decreases sn - j,
    {
        let name = sorted[j].0.clone();
        let total = sorted[j].1;
        let mut data: Vec<(usize, i64)> = Vec::new();
        let mut i: usize = 0;
        while i < mn
            invariant
                0 <= i <= mn,
                mn == months@.len(),
                name@ == sorted@[j as int].0@,
                data@.len() == i,
                forall|q: int|
                    0 <= q < i ==> #[trigger] data@[q] == (
                        q as usize,
                        last_count(pairs_view(months@[q]@), name@),
                    ),
            decreases mn - i,
        {
            let c = lookup_last(&months[i], name.as_str());
            data.push((i, c));
            i = i + 1;
        }
        r.push(Points { label: name, total, data });
        j = j + 1;
    }
    r
}

fn build_axes(labels: &Vec<String>, max: i64) -> (r: (Vec<String>, Vec<String>))
    requires
        labels@.len() >= 1,
        max >= 0,
    ensures
        r.0@.len() == 3,
        r.0@[0]@ == labels@[0]@,
        r.0@[1]@ == labels@[labels@.len() as int / 2]@,
        r.0@[2]@ == labels@[labels@.len() - 1]@,
        r.1@.len() == 3,
        r.1@[0]@ == "0"@,
        r.1@[1]@ == human_count_of(max as int / 2),
        r.1@[2]@ == human_count_of(max as int),
{
    let n = labels.len();
    let mut xt: Vec<String> = Vec::new();
    xt.push(labels[0].clone());
    xt.push(labels[n / 2].clone());
    xt.push(labels[n - 1].clone());
    let mut yt: Vec<String> = Vec::new();
    yt.push(String::from_str("0"));
    yt.push(human_count(max / 2));
    yt.push(human_count(max));
    (xt, yt)
}



/// The reported grand total of a response.
pub open spec fn spec_total(resp: JsonValue) -> Option<i64> {
    match resp.spec_get("total"@) {
        Some(t) => t.spec_as_int(),
        None => None,
    }
}

/// The parsed monthly entries of a response.
pub open spec fn spec_matches(resp: JsonValue) -> Option<Seq<(Seq<char>, i64)>> {
    match resp.spec_get("matches"@) {
        Some(m) => match m.spec_as_array() {
            Some(a) => spec_entries(a),
            None => None,
        },
        None => None,
    }
}

/// The facet dimension that is aggregated: only the first comma-separated
/// term counts, and a colon-prefixed count hint is stripped.
pub open spec fn spec_facet_name(facets: Seq<char>) -> Seq<char> {
    let term = facets.subrange(0, first_occ(facets, ','));
    term.subrange(0, first_occ(term, ':'))
}

/// The parsed month buckets of the requested facet dimension.
pub open spec fn spec_facet_months(resp: JsonValue, name: Seq<char>) -> Option<
    Seq<(Seq<char>, Seq<(Seq<char>, i64)>)>,
> {
    match resp.spec_get("facets"@) {
        Some(f) => match f.spec_get(name) {
            Some(fa) => match fa.spec_as_array() {
                Some(a) => spec_buckets(a),
                None => None,
            },
            None => None,
        },
        None => None,
    }
}

/// When a response reads without a parse failure: the total is an integer,
/// and — unless it is zero — the matches and, when a facet was requested,
/// the facet months are present, well-typed and non-empty.
pub open spec fn spec_build_ok(resp: JsonValue, facets_trimmed: Seq<char>) -> bool {
    match spec_total(resp) {
        Some(t) => t == 0 || ({
            &&& spec_matches(resp) matches Some(es)
            &&& es.len() >= 1
            &&& (facets_trimmed.len() == 0 || {
                &&& spec_facet_months(resp, spec_facet_name(facets_trimmed)) matches Some(ms)
                &&& ms.len() >= 1
            })
        }),
        None => false,
    }
}

/// Contents of the outer chart: a single series labeled with the query
/// identity, carrying the reported total and one point per month.
pub open spec fn primary_ok(
    c: Chart,
    identity: Seq<char>,
    total: i64,
    es: Seq<(Seq<char>, i64)>,
) -> bool {
    &&& axes_ok(c, entry_labels(es), max_count(es))
    &&& c.datasets@.len() == 1
    &&& c.datasets@[0].label@ == identity
    &&& c.datasets@[0].total == total
    &&& series_data_ok(c.datasets@[0].data@, entry_counts(es))
}

/// Contents of the nested facet chart: one series per distinct facet value
/// in descending-total order (stable for equal totals), each re-indexed
/// onto the month axis with zero fill.
pub open spec fn facet_ok(c: Chart, ms: Seq<(Seq<char>, Seq<(Seq<char>, i64)>)>) -> bool {
    let flat = flatten_months(ms);
    let sorted = sort_desc(facet_totals(flat));
    &&& axes_ok(
        c,
        ms.map_values(|m: (Seq<char>, Seq<(Seq<char>, i64)>)| m.0),
        max_count(flat),
    )
    &&& c.datasets@.len() == sorted.len()
    &&& (forall|j: int|
        0 <= j < sorted.len() ==> {
            let d = #[trigger] c.datasets@[j];
            &&& d.label@ == sorted[j].0
            &&& d.total as int == sorted[j].1
            &&& d.data@.len() == ms.len()
            &&& (forall|i: int|
                0 <= i < ms.len() ==> #[trigger] d.data@[i] == (
                    i as usize,
                    last_count(ms[i].1, sorted[j].0),
                ))
        })
    &&& c.facets is None
}

/// Law: in a facet chart the series totals never increase along the
/// dataset order, and the sort behind that order is stable — for any total
/// `t`, the series with total `t` appear in exactly the order their facet
/// values were first encountered.
pub proof fn lemma_facet_datasets_ordered(
    c: Chart,
    ms: Seq<(Seq<char>, Seq<(Seq<char>, i64)>)>,
    t: int,
)
    requires
        facet_ok(c, ms),
    ensures
        forall|i: int, j: int|
            0 <= i < j < c.datasets@.len() ==> (#[trigger] c.datasets@[i]).total >= (
            #[trigger] c.datasets@[j]).total,
        sort_desc(facet_totals(flatten_months(ms))).filter(|p: (Seq<char>, int)| p.1 == t)
            == facet_totals(flatten_months(ms)).filter(|p: (Seq<char>, int)| p.1 == t),
{
    let sorted = sort_desc(facet_totals(flatten_months(ms)));
    lemma_sort_desc_stable(facet_totals(flatten_months(ms)), t);
    assert forall|i: int, j: int|
        0 <= i < j < c.datasets@.len() implies (#[trigger] c.datasets@[i]).total >= (
    #[trigger] c.datasets@[j]).total by {
        assert(c.datasets@[i].total as int == sorted[i].1);
        assert(c.datasets@[j].total as int == sorted[j].1);
        assert(sorted[i].1 >= sorted[j].1);
    }
}

/// Builds the chart of a response.
///
/// Returns the no-results signal when the reported total is zero, a parse
/// failure when a required field is absent or mistyped or a month list is
/// empty, and otherwise a chart whose outer level holds the single primary
/// series labeled `identity` and whose nested level, present exactly when
/// the trimmed facet spec is non-empty, holds one series per facet value.
pub fn build_chart(resp: &JsonValue, identity: &str, facets: &str) -> (r: Result<
    BuildOutcome,
    ParseError,
>)
    ensures
        r is Ok <==> spec_build_ok(*resp, spec_trim(facets@)),
        r matches Ok(BuildOutcome::NoResults) <==> spec_total(*resp) == Some(0i64),
        r matches Ok(BuildOutcome::Built(c)) ==> ({
            let es = spec_matches(*resp)->0;
            &&& primary_ok(c, identity@, spec_total(*resp)->0, es)
            &&& (spec_trim(facets@).len() == 0 ==> c.facets is None)
            &&& (spec_trim(facets@).len() > 0 ==> ({
                &&& c.facets matches Some(fc)
                &&& facet_ok(
                    *fc,
                    spec_facet_months(*resp, spec_facet_name(spec_trim(facets@)))->0,
                )
            }))
        }),
{
    let total = match resp.get("total") {
        Some(t) => match t.as_int() {
            Some(n) => n,
            None => {
                return Err(ParseError);
            },
        },
        None => {
            return Err(ParseError);
        },
    };
    if total == 0 {
        return Ok(BuildOutcome::NoResults);
    }
    let arr = match resp.get("matches") {
        Some(m) => match m.as_array() {
            Some(a) => a,
            None => {
                return Err(ParseError);
            },
        },
        None => {
            return Err(ParseError);
        },
    };
    let p = match parse_primary(arr) {
        Ok(p) => p,
        Err(e) => {
            return Err(e);
        },
    };
    if p.labels.len() == 0 {
        return Err(ParseError);
    }
    let facets_t = trim(facets);
    let facets_data: Option<Box<Chart>> = if facets_t.as_str().unicode_len() == 0 {
        None
    } else {
        let ft = facets_t.as_str();
        let c1 = find_char_from(ft, 0, ',');
        let term = ft.substring_char(0, c1);
        proof {
            lemma_first_occ(ft@, ',');
            assert(c1 == first_occ(ft@, ','));
            assert(term@ =~= ft@.subrange(0, first_occ(ft@, ',')));
        }
        let c2 = find_char_from(term, 0, ':');
        let name = term.substring_char(0, c2);
        proof {
            lemma_first_occ(term@, ':');
            assert(c2 == first_occ(term@, ':'));
            assert(name@ =~= spec_facet_name(ft@));
        }
        let fobj = match resp.get("facets") {
            Some(f) => f,
            None => {
                return Err(ParseError);
            },
        };
        let fa = match fobj.get(name) {
            Some(v) => match v.as_array() {
                Some(a) => a,
                None => {
                    return Err(ParseError);
                },
            },
            None => {
                return Err(ParseError);
            },
        };
        let fr = match parse_facets(fa) {
            Ok(f) => f,
            Err(e) => {
                return Err(e);
            },
        };
        if fr.labels.len() == 0 {
            return Err(ParseError);
        }
        let sorted = sort_totals(fr.totals);
        let datasets = facet_datasets(&sorted, &fr.months);
        let fx = (0usize, fr.labels.len() - 1);
        let fy = (0i64, fr.max);
        proof {
            lemma_max_count_nonneg(flatten_months(spec_buckets(fa@)->0));
        }
        let (fxt, fyt) = build_axes(&fr.labels, fr.max);
        let ghost ms = spec_buckets(fa@)->0;
        let fchart = Chart {
            datasets,
            x_bounds: fx,
            y_bounds: fy,
            x_ticks: fxt,
            y_ticks: fyt,
            x_labels: fr.labels,
            facets: None,
        };
        proof {
            let flat = flatten_months(ms);
            let sortedv = sort_desc(facet_totals(flat));
            assert(totals_view(sorted@) == sortedv);
            let mlabels = ms.map_values(|m: (Seq<char>, Seq<(Seq<char>, i64)>)| m.0);
            assert(fchart.x_labels@.len() == mlabels.len());
            assert forall|i: int| 0 <= i < mlabels.len() implies #[trigger] fchart.x_labels@[i]@
                == mlabels[i] by {
                assert(mlabels[i] == ms[i].0);
            }
            assert(axes_ok(fchart, mlabels, max_count(flat)));
            assert(fchart.datasets@.len() == sortedv.len());
            assert forall|j: int| 0 <= j < sortedv.len() implies {
                let d = #[trigger] fchart.datasets@[j];
                &&& d.label@ == sortedv[j].0
                &&& d.total as int == sortedv[j].1
                &&& d.data@.len() == ms.len()
                &&& (forall|i: int|
                    0 <= i < ms.len() ==> #[trigger] d.data@[i] == (
                        i as usize,
                        last_count(ms[i].1, sortedv[j].0),
                    ))
            } by {
                let d = fchart.datasets@[j];
                assert(totals_view(sorted@)[j] == (sorted@[j].0@, sorted@[j].1 as int));
                assert(d.label@ == sorted@[j].0@);
                assert(d.total == sorted@[j].1);
                assert forall|i: int| 0 <= i < ms.len() implies #[trigger] d.data@[i] == (
                    i as usize,
                    last_count(ms[i].1, sortedv[j].0),
                ) by {
                    assert(d.data@[i] == (
                        i as usize,
                        last_count(pairs_view(fr.months@[i]@), sorted@[j].0@),
                    ));
                    assert(pairs_view(fr.months@[i]@) == ms[i].1);
                }
            }
            assert(facet_ok(fchart, ms));
        }
        Some(Box::new(fchart))
    };
    let n = p.labels.len();
    proof {
        lemma_max_count_nonneg(spec_matches(*resp)->0);
    }
    let (xt, yt) = build_axes(&p.labels, p.max);
    let mut datasets: Vec<Points> = Vec::new();
    datasets.push(
        Points { label: String::from_str(identity), total, data: p.data },
    );
    let chart = Chart {
        datasets,
        x_bounds: (0usize, n - 1),
        y_bounds: (0i64, p.max),
        x_ticks: xt,
        y_ticks: yt,
        x_labels: p.labels,
        facets: facets_data,
    };
    proof {
        let es = spec_matches(*resp)->0;
        assert(entry_labels(es).len() == es.len());
        assert(entry_counts(es).len() == es.len());
        assert(forall|i: int| 0 <= i < es.len() ==> #[trigger] entry_labels(es)[i] == es[i].0);
        assert(forall|i: int| 0 <= i < es.len() ==> #[trigger] entry_counts(es)[i] == es[i].1);
        assert(axes_ok(chart, entry_labels(es), max_count(es)));
        assert(primary_ok(chart, identity@, total, es));
    }
    Ok(BuildOutcome::Built(chart))
}


} // verus!
