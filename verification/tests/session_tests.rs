use strend::encode::query_identity;
use strend::json::JsonValue;
use strend::session::{FetchOutcome, Session, SubmitAction};

fn field(name: &str, v: JsonValue) -> (String, JsonValue) {
    (String::from(name), v)
}

fn good_body(total: i64) -> JsonValue {
    JsonValue::Object(vec![
        field("total", JsonValue::Int(total)),
        field(
            "matches",
            JsonValue::Array(vec![JsonValue::Object(vec![
                field("month", JsonValue::Str(String::from("2017-06"))),
                field("count", JsonValue::Int(total)),
            ])]),
        ),
    ])
}

#[test]
fn identity_is_form_encoded_and_trimmed() {
    assert_eq!(query_identity("nginx", "os:5"), "query=nginx&facets=os%3A5");
    assert_eq!(query_identity("  nginx ", "\tos:5\n"), "query=nginx&facets=os%3A5");
    assert_eq!(query_identity("apache port:80", ""), "query=apache+port%3A80&facets=");
}

#[test]
fn submit_rejects_empty_query() {
    let mut s = Session::new();
    match s.submit("", "os") {
        SubmitAction::Rejected => {}
        _ => panic!("expected rejection"),
    }
    assert_eq!(s.api_error, "Invalid search query");
    assert!(!s.blocking);
    // whitespace-only query text is rejected the same way
    let mut s2 = Session::new();
    match s2.submit("   ", "") {
        SubmitAction::Rejected => {}
        _ => panic!("expected rejection"),
    }
}

#[test]
fn submit_dispatches_once_and_blocks() {
    let mut s = Session::new();
    let action = s.submit("nginx", " os:5 ");
    match action {
        SubmitAction::Dispatch(q, f) => {
            assert_eq!(q, "nginx");
            assert_eq!(f, "os:5");
        }
        _ => panic!("expected dispatch"),
    }
    assert!(s.blocking);
    // a second submit while one fetch is outstanding is ignored
    match s.submit("apache", "") {
        SubmitAction::Ignored => {}
        _ => panic!("expected the submit to be ignored"),
    }
}

#[test]
fn successful_result_stores_chart_and_unblocks() {
    let mut s = Session::new();
    s.submit("nginx", "");
    s.on_result(FetchOutcome::Response(Some(good_body(42))));
    assert!(!s.blocking);
    assert!(!s.no_results);
    assert_eq!(s.api_error, "");
    assert_eq!(s.last_query, "query=nginx&facets=");
    let chart = s.store.get("query=nginx&facets=").expect("chart stored");
    assert_eq!(chart.datasets[0].total, 42);
}

#[test]
fn zero_total_signals_no_results_and_stores_nothing() {
    let mut s = Session::new();
    s.submit("port:111222", "org");
    s.on_result(FetchOutcome::Response(Some(good_body(0))));
    assert!(!s.blocking);
    assert!(s.no_results);
    assert_eq!(s.api_error, "");
    assert_eq!(s.store.len(), 0);
}

#[test]
fn unparsable_body_reports_parse_failure() {
    let mut s = Session::new();
    s.submit("nginx", "");
    s.on_result(FetchOutcome::Response(None));
    assert_eq!(s.api_error, "Failed to parse API response.");
    assert_eq!(s.store.len(), 0);
    assert!(!s.blocking);
}

#[test]
fn mistyped_body_reports_parse_failure() {
    let mut s = Session::new();
    s.submit("nginx", "");
    let body = JsonValue::Object(vec![field("total", JsonValue::Str(String::from("x")))]);
    s.on_result(FetchOutcome::Response(Some(body)));
    assert_eq!(s.api_error, "Failed to parse API response.");
    assert_eq!(s.store.len(), 0);
}

#[test]
fn http_error_body_message_is_surfaced() {
    let mut s = Session::new();
    s.submit("nginx", "orggg");
    let body = JsonValue::Object(vec![field(
        "error",
        JsonValue::Str(String::from("Invalid search facet")),
    )]);
    s.on_result(FetchOutcome::HttpStatus(Some(body)));
    assert_eq!(s.api_error, "Invalid search facet");
    assert_eq!(s.store.len(), 0);
    assert!(!s.blocking);
}

#[test]
fn http_error_without_message_gets_fallback() {
    let mut s = Session::new();
    s.submit("nginx", "");
    s.on_result(FetchOutcome::HttpStatus(None));
    assert_eq!(s.api_error, "Search failed, please try again later.");
    let mut s2 = Session::new();
    s2.submit("nginx", "");
    let body = JsonValue::Object(vec![field("status", JsonValue::Int(503))]);
    s2.on_result(FetchOutcome::HttpStatus(Some(body)));
    assert_eq!(s2.api_error, "Search failed, please try again later.");
}

#[test]
fn transport_timeout_gets_its_own_message() {
    let mut s = Session::new();
    s.submit("nginx", "");
    s.on_result(FetchOutcome::Transport(String::from(
        "https://example.test: Network Error: connection timed out",
    )));
    assert_eq!(s.api_error, "Timed out, please try again later.");
    let mut s2 = Session::new();
    s2.submit("nginx", "");
    s2.on_result(FetchOutcome::Transport(String::from("connection refused")));
    assert_eq!(s2.api_error, "Search failed, please try again later.");
}

#[test]
fn errors_leave_previous_charts_intact() {
    let mut s = Session::new();
    s.submit("nginx", "");
    s.on_result(FetchOutcome::Response(Some(good_body(9))));
    assert_eq!(s.store.len(), 1);
    s.submit("apache", "");
    s.on_result(FetchOutcome::HttpStatus(None));
    assert_eq!(s.store.len(), 1);
    assert!(s.store.get("query=nginx&facets=").is_some());
}

#[test]
fn six_searches_evict_the_oldest() {
    let mut s = Session::new();
    for i in 0..6 {
        let q = format!("q{}", i);
        s.submit(&q, "");
        s.on_result(FetchOutcome::Response(Some(good_body(i + 1))));
    }
    assert_eq!(s.store.len(), 5);
    assert!(s.store.get("query=q0&facets=").is_none());
    assert!(s.store.get("query=q5&facets=").is_some());
}

#[test]
fn quit_stops_the_loop() {
    let mut s = Session::new();
    assert!(s.running);
    s.quit();
    assert!(!s.running);
}

#[test]
fn identity_decodes_back_to_query_and_facets() {
    let (q, f) = strend::encode::identity_fields("query=nginx&facets=os%3A5");
    assert_eq!(q, "nginx");
    assert_eq!(f, "os:5");
    let id = query_identity(" apache port:80 ", "");
    let (q2, f2) = strend::encode::identity_fields(&id);
    assert_eq!(q2, "apache port:80");
    assert_eq!(f2, "");
    let (q3, f3) = strend::encode::identity_fields("");
    assert_eq!(q3, "");
    assert_eq!(f3, "");
}
