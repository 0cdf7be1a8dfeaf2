use strend::chart::{build_chart, BuildOutcome, ParseError};
use strend::json::JsonValue;

fn field(name: &str, v: JsonValue) -> (String, JsonValue) {
    (String::from(name), v)
}

fn month_entry(month: &str, count: i64) -> JsonValue {
    JsonValue::Object(vec![
        field("month", JsonValue::Str(String::from(month))),
        field("count", JsonValue::Int(count)),
    ])
}

fn response(total: i64, matches: Vec<JsonValue>) -> JsonValue {
    JsonValue::Object(vec![
        field("total", JsonValue::Int(total)),
        field("matches", JsonValue::Array(matches)),
    ])
}

fn facet_bucket(key: &str, values: Vec<(JsonValue, i64)>) -> JsonValue {
    let vals: Vec<JsonValue> = values
        .into_iter()
        .map(|(v, c)| {
            JsonValue::Object(vec![field("value", v), field("count", JsonValue::Int(c))])
        })
        .collect();
    JsonValue::Object(vec![
        field("key", JsonValue::Str(String::from(key))),
        field("values", JsonValue::Array(vals)),
    ])
}

fn built(r: Result<BuildOutcome, ParseError>) -> strend::chart::Chart {
    match r {
        Ok(BuildOutcome::Built(c)) => c,
        Ok(BuildOutcome::NoResults) => panic!("unexpected no-results"),
        Err(_) => panic!("unexpected parse failure"),
    }
}

#[test]
fn primary_chart_from_response() {
    let resp = response(
        2291301747,
        vec![
            month_entry("2017-06", 19799459),
            month_entry("2017-07", 21077099),
            month_entry("2017-08", 20541902),
        ],
    );
    let chart = built(build_chart(&resp, "query=nginx&facets=", ""));
    assert_eq!(chart.datasets.len(), 1);
    assert_eq!(chart.datasets[0].total, 2291301747);
    assert_eq!(chart.datasets[0].label, "query=nginx&facets=");
    assert_eq!(
        chart.datasets[0].data,
        vec![(0, 19799459), (1, 21077099), (2, 20541902)]
    );
    assert_eq!(chart.x_labels, vec!["Jun 2017", "Jul 2017", "Aug 2017"]);
    assert_eq!(chart.x_ticks.len(), 3);
    assert_eq!(chart.x_ticks, vec!["Jun 2017", "Jul 2017", "Aug 2017"]);
    assert_eq!(chart.x_bounds, (0, 2));
    assert_eq!(chart.y_bounds, (0, 21077099));
    assert_eq!(chart.y_ticks.len(), 3);
    assert_eq!(chart.y_ticks, vec!["0", "10.5M", "21.1M"]);
    assert!(chart.facets.is_none());
}

#[test]
fn single_month_ticks_coincide() {
    let resp = response(7, vec![month_entry("2020-01", 7)]);
    let chart = built(build_chart(&resp, "q", ""));
    assert_eq!(chart.x_ticks.len(), 3);
    assert_eq!(chart.x_ticks, vec!["Jan 2020", "Jan 2020", "Jan 2020"]);
    assert_eq!(chart.y_ticks.len(), 3);
    assert_eq!(chart.y_ticks, vec!["0", "3", "7"]);
    assert_eq!(chart.x_bounds, (0, 0));
    assert_eq!(chart.x_labels.len(), chart.datasets[0].data.len());
}

#[test]
fn two_month_ticks_repeat_middle() {
    let resp = response(5, vec![month_entry("2020-01", 2), month_entry("2020-02", 3)]);
    let chart = built(build_chart(&resp, "q", ""));
    // the middle pick is labels[len / 2], which is the second of two months
    assert_eq!(chart.x_ticks, vec!["Jan 2020", "Feb 2020", "Feb 2020"]);
    assert_eq!(chart.x_labels.len(), chart.datasets[0].data.len());
}

#[test]
fn facet_chart_aggregates_and_sorts() {
    let mut resp_fields = vec![
        field("total", JsonValue::Int(100)),
        field(
            "matches",
            JsonValue::Array(vec![month_entry("2019-03", 60), month_entry("2019-04", 40)]),
        ),
    ];
    let buckets = vec![
        facet_bucket(
            "2019-03",
            vec![
                (JsonValue::Str(String::from("Linux")), 30),
                (JsonValue::Str(String::from("BSD")), 10),
            ],
        ),
        facet_bucket(
            "2019-04",
            vec![
                (JsonValue::Str(String::from("Linux")), 25),
                (JsonValue::Int(80), 7),
            ],
        ),
    ];
    resp_fields.push(field(
        "facets",
        JsonValue::Object(vec![field("os", JsonValue::Array(buckets))]),
    ));
    let resp = JsonValue::Object(resp_fields);
    let chart = built(build_chart(&resp, "id", "os:5"));
    let facets = chart.facets.expect("facet chart expected");
    assert_eq!(facets.datasets.len(), 3);
    // sorted by total descending: Linux 55, BSD 10, "80" 7
    assert_eq!(facets.datasets[0].label, "Linux");
    assert_eq!(facets.datasets[0].total, 55);
    assert_eq!(facets.datasets[0].data, vec![(0, 30), (1, 25)]);
    assert_eq!(facets.datasets[1].label, "BSD");
    assert_eq!(facets.datasets[1].total, 10);
    assert_eq!(facets.datasets[1].data, vec![(0, 10), (1, 0)]);
    assert_eq!(facets.datasets[2].label, "80");
    assert_eq!(facets.datasets[2].total, 7);
    assert_eq!(facets.datasets[2].data, vec![(0, 0), (1, 7)]);
    assert_eq!(facets.x_labels, vec!["Mar 2019", "Apr 2019"]);
    assert_eq!(facets.x_ticks.len(), 3);
    assert_eq!(facets.y_ticks.len(), 3);
    assert_eq!(facets.y_bounds, (0, 30));
    assert!(facets.facets.is_none());
}

#[test]
fn facet_sort_is_stable_for_equal_totals() {
    let resp = JsonValue::Object(vec![
        field("total", JsonValue::Int(10)),
        field(
            "matches",
            JsonValue::Array(vec![month_entry("2021-01", 5), month_entry("2021-02", 5)]),
        ),
        field(
            "facets",
            JsonValue::Object(vec![field(
                "org",
                JsonValue::Array(vec![
                    facet_bucket("2021-01", vec![(JsonValue::Str(String::from("beta")), 5)]),
                    facet_bucket("2021-02", vec![(JsonValue::Str(String::from("alpha")), 5)]),
                ]),
            )]),
        ),
    ]);
    let chart = built(build_chart(&resp, "id", "org"));
    let facets = chart.facets.expect("facet chart expected");
    // equal totals: first-encountered value stays first
    assert_eq!(facets.datasets[0].label, "beta");
    assert_eq!(facets.datasets[1].label, "alpha");
    assert_eq!(facets.datasets[0].total, 5);
    assert_eq!(facets.datasets[1].total, 5);
}

#[test]
fn sparse_facet_value_zero_filled_over_many_months() {
    // 75 months; one value present in 60 of them, another in only 10
    let mut months: Vec<String> = Vec::new();
    let mut y = 2017;
    let mut m = 6;
    for _ in 0..75 {
        months.push(format!("{:04}-{:02}", y, m));
        m += 1;
        if m > 12 {
            m = 1;
            y += 1;
        }
    }
    let matches: Vec<JsonValue> = months.iter().map(|k| month_entry(k, 1000)).collect();
    let buckets: Vec<JsonValue> = months
        .iter()
        .enumerate()
        .map(|(i, k)| {
            let mut vals: Vec<(JsonValue, i64)> = Vec::new();
            if i < 60 {
                vals.push((JsonValue::Str(String::from("Linux 3.x")), 100));
            }
            if (20..30).contains(&i) {
                vals.push((JsonValue::Str(String::from("Windows XP")), 50));
            }
            facet_bucket(k, vals)
        })
        .collect();
    let resp = JsonValue::Object(vec![
        field("total", JsonValue::Int(75000)),
        field("matches", JsonValue::Array(matches)),
        field(
            "facets",
            JsonValue::Object(vec![field("os", JsonValue::Array(buckets))]),
        ),
    ]);
    let chart = built(build_chart(&resp, "id", "os"));
    let facets = chart.facets.expect("facet chart expected");
    assert_eq!(facets.datasets.len(), 2);
    let linux = &facets.datasets[0];
    let windows = &facets.datasets[1];
    assert_eq!(linux.label, "Linux 3.x");
    assert_eq!(windows.label, "Windows XP");
    assert!(linux.total > windows.total);
    assert_eq!(windows.data.len(), 75);
    let zero_months = windows.data.iter().filter(|p| p.1 == 0).count();
    assert_eq!(zero_months, 65);
    for (i, p) in windows.data.iter().enumerate() {
        assert_eq!(p.0, i);
        if (20..30).contains(&i) {
            assert_eq!(p.1, 50);
        } else {
            assert_eq!(p.1, 0);
        }
    }
}

#[test]
fn missing_total_is_parse_failure() {
    let resp = JsonValue::Object(vec![field("matches", JsonValue::Array(vec![]))]);
    assert!(build_chart(&resp, "q", "").is_err());
}

#[test]
fn non_integer_total_is_parse_failure() {
    let resp = JsonValue::Object(vec![
        field("total", JsonValue::Str(String::from("10"))),
        field("matches", JsonValue::Array(vec![month_entry("2020-01", 1)])),
    ]);
    assert!(build_chart(&resp, "q", "").is_err());
}

#[test]
fn malformed_month_is_parse_failure() {
    let resp = response(5, vec![month_entry("garbage", 5)]);
    assert!(build_chart(&resp, "q", "").is_err());
    let resp13 = response(5, vec![month_entry("2020-13", 5)]);
    assert!(build_chart(&resp13, "q", "").is_err());
}

#[test]
fn missing_count_is_parse_failure() {
    let entry = JsonValue::Object(vec![field(
        "month",
        JsonValue::Str(String::from("2020-01")),
    )]);
    let resp = response(5, vec![entry]);
    assert!(build_chart(&resp, "q", "").is_err());
}

#[test]
fn empty_matches_is_parse_failure() {
    let resp = response(5, vec![]);
    assert!(build_chart(&resp, "q", "").is_err());
}

#[test]
fn missing_facet_dimension_is_parse_failure() {
    let resp = response(5, vec![month_entry("2020-01", 5)]);
    assert!(build_chart(&resp, "q", "os").is_err());
}

#[test]
fn only_first_facet_term_is_used() {
    let resp = JsonValue::Object(vec![
        field("total", JsonValue::Int(5)),
        field("matches", JsonValue::Array(vec![month_entry("2020-01", 5)])),
        field(
            "facets",
            JsonValue::Object(vec![field(
                "os",
                JsonValue::Array(vec![facet_bucket(
                    "2020-01",
                    vec![(JsonValue::Str(String::from("Linux")), 5)],
                )]),
            )]),
        ),
    ]);
    // the colon hint and the second term are ignored for aggregation
    let chart = built(build_chart(&resp, "id", "os:5,org"));
    let facets = chart.facets.expect("facet chart expected");
    assert_eq!(facets.datasets[0].label, "Linux");
}

#[test]
fn zero_total_yields_no_results() {
    let resp = response(0, vec![month_entry("2020-01", 0)]);
    match build_chart(&resp, "q", "") {
        Ok(BuildOutcome::NoResults) => {}
        _ => panic!("expected the no-results outcome"),
    }
}

#[test]
fn negative_counts_keep_zero_bounds() {
    let resp = response(3, vec![month_entry("2020-01", -4), month_entry("2020-02", 3)]);
    let chart = built(build_chart(&resp, "q", ""));
    assert_eq!(chart.y_bounds, (0, 3));
    assert_eq!(chart.datasets[0].data, vec![(0, -4), (1, 3)]);
}
