use strend::cache::{default_selection, FacetIndex, SelectionCache};
use strend::chart::{build_chart, BuildOutcome};
use strend::json::JsonValue;
use strend::store::{QueryStore, MAX_SAVED_QUERIES};

fn small_chart(label: &str) -> strend::chart::Chart {
    let resp = JsonValue::Object(vec![
        (String::from("total"), JsonValue::Int(5)),
        (
            String::from("matches"),
            JsonValue::Array(vec![JsonValue::Object(vec![
                (String::from("month"), JsonValue::Str(String::from("2020-01"))),
                (String::from("count"), JsonValue::Int(5)),
            ])]),
        ),
    ]);
    match build_chart(&resp, label, "") {
        Ok(BuildOutcome::Built(c)) => c,
        _ => panic!("chart expected"),
    }
}

#[test]
fn store_keeps_at_most_five_entries() {
    let mut store = QueryStore::new();
    for i in 0..7 {
        let id = format!("query=q{}&facets=", i);
        store.insert_bounded(id.clone(), small_chart(&id));
        assert!(store.len() <= MAX_SAVED_QUERIES);
    }
    assert_eq!(store.len(), 5);
    // the two oldest identities were evicted, the five newest remain
    assert!(store.get("query=q0&facets=").is_none());
    assert!(store.get("query=q1&facets=").is_none());
    for i in 2..7 {
        let id = format!("query=q{}&facets=", i);
        assert!(store.get(&id).is_some());
    }
}

#[test]
fn store_reinsert_keeps_position_and_replaces_chart() {
    let mut store = QueryStore::new();
    store.insert_bounded(String::from("a"), small_chart("first"));
    store.insert_bounded(String::from("b"), small_chart("second"));
    store.insert_bounded(String::from("a"), small_chart("third"));
    assert_eq!(store.len(), 2);
    let a = store.get("a").expect("entry expected");
    assert_eq!(a.datasets[0].label, "third");
    // "b" is still the most recently appended identity
    let last = store.last().expect("non-empty");
    assert_eq!(last.0, "b");
}

#[test]
fn store_last_is_most_recently_inserted() {
    let mut store = QueryStore::new();
    assert!(store.last().is_none());
    store.insert_bounded(String::from("x"), small_chart("x"));
    store.insert_bounded(String::from("y"), small_chart("y"));
    let last = store.last().expect("non-empty");
    assert_eq!(last.0, "y");
}

#[test]
fn cache_round_trip_returns_exact_entry() {
    let mut cache = SelectionCache::new();
    cache.put(
        String::from("q1"),
        FacetIndex { selected: Some(2), selected_indexes: vec![0, 2] },
    );
    let e = cache.get("q1").expect("entry expected");
    assert_eq!(e.selected, Some(2));
    assert_eq!(e.selected_indexes, vec![0, 2]);
    assert!(cache.get("q2").is_none());
}

#[test]
fn cache_identities_are_independent() {
    let mut cache = SelectionCache::new();
    cache.put(
        String::from("q1"),
        FacetIndex { selected: Some(0), selected_indexes: vec![0] },
    );
    cache.put(
        String::from("q2"),
        FacetIndex { selected: Some(1), selected_indexes: vec![1, 3] },
    );
    let e1 = cache.get("q1").expect("entry expected");
    assert_eq!(e1.selected_indexes, vec![0]);
    let e2 = cache.get("q2").expect("entry expected");
    assert_eq!(e2.selected_indexes, vec![1, 3]);
}

#[test]
fn cache_later_write_shadows_earlier() {
    let mut cache = SelectionCache::new();
    cache.put(
        String::from("q"),
        FacetIndex { selected: None, selected_indexes: vec![0, 1, 2] },
    );
    cache.put(
        String::from("q"),
        FacetIndex { selected: Some(4), selected_indexes: vec![4] },
    );
    let e = cache.get("q").expect("entry expected");
    assert_eq!(e.selected, Some(4));
    assert_eq!(e.selected_indexes, vec![4]);
}

#[test]
fn default_selection_checks_first_five() {
    let d = default_selection(8);
    assert_eq!(d.selected_indexes, vec![0, 1, 2, 3, 4]);
    assert_eq!(d.selected, Some(5));
    let d3 = default_selection(3);
    assert_eq!(d3.selected_indexes, vec![0, 1, 2]);
    assert_eq!(d3.selected, Some(2));
}

#[test]
fn selection_restored_after_switching_queries() {
    // choosing rows 0 and 2 under one identity, then writing another
    // identity, must leave the first identity's snapshot intact
    let mut cache = SelectionCache::new();
    cache.put(
        String::from("query=q1&facets=os"),
        FacetIndex { selected: Some(2), selected_indexes: vec![0, 2] },
    );
    let d = default_selection(7);
    cache.put(String::from("query=q2&facets=os"), d);
    let restored = cache.get("query=q1&facets=os").expect("entry expected");
    assert_eq!(restored.selected_indexes, vec![0, 2]);
    assert_ne!(restored.selected_indexes, vec![0, 1, 2, 3, 4]);
}

#[test]
fn aggregate_view_combines_selected_series() {
    let mut store = QueryStore::new();
    store.insert_bounded(String::from("query=a&facets="), small_chart("query=a&facets="));
    store.insert_bounded(String::from("query=b&facets="), small_chart("query=b&facets="));
    let agg = strend::export::aggregate_chart(&store, &vec![0, 1]).expect("non-empty store");
    assert_eq!(agg.datasets.len(), 2);
    assert_eq!(agg.datasets[0].label, "query=a&facets=");
    assert_eq!(agg.datasets[1].label, "query=b&facets=");
    // both charts top out at 5, so the combined bounds do too
    assert_eq!(agg.y_bounds, (0, 5));
    assert_eq!(agg.y_ticks, vec!["0", "2", "5"]);
    // the month axis comes from the most recently inserted chart
    assert_eq!(agg.x_labels, vec!["Jan 2020"]);
    // an aggregate over one series exports with two columns
    let table = strend::export::build_export(&agg, &vec![1]);
    assert_eq!(table[0], vec!["Month", "query=b&facets="]);
    assert_eq!(table[1], vec!["Jan 2020", "5"]);
    // nothing selected: the aggregate still carries the axis, no series
    let empty = strend::export::aggregate_chart(&store, &vec![]).expect("non-empty store");
    assert_eq!(empty.datasets.len(), 0);
    assert_eq!(empty.y_bounds, (0, 0));
}
