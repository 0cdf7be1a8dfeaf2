use strend::cache::SelectionCache;
use strend::chart::{build_chart, BuildOutcome, Chart};
use strend::export::build_export;
use strend::input::{InputKey, UserInput};
use strend::json::JsonValue;
use strend::keys::KeySymbols;
use strend::selection::{ListKey, MultiStatefulList, SelectionState};
use strend::widgets::{Widgets, FACETS_INPUT, LINE_CHART, SAVED_QUERIES, SEARCH_INPUT};

#[test]
fn cursor_wraps_both_ways() {
    let mut s = SelectionState::new();
    s.move_next(3);
    assert_eq!(s.cursor, Some(0));
    s.move_next(3);
    assert_eq!(s.cursor, Some(1));
    s.move_next(3);
    assert_eq!(s.cursor, Some(2));
    s.move_next(3);
    assert_eq!(s.cursor, Some(0));
    s.move_previous(3);
    assert_eq!(s.cursor, Some(2));
    s.unselect_cursor(3);
    assert_eq!(s.cursor, None);
    s.move_previous(3);
    assert_eq!(s.cursor, Some(0));
}

#[test]
fn operations_on_empty_list_do_nothing() {
    let mut s = SelectionState::new();
    s.move_next(0);
    s.move_previous(0);
    s.toggle(0);
    s.select_all(0);
    s.clear_all(0);
    assert_eq!(s.cursor, None);
    assert!(s.selected.is_empty());
}

#[test]
fn toggle_flips_membership_keeping_order() {
    let mut s = SelectionState::new();
    s.select_all(4);
    assert_eq!(s.selected, vec![0, 1, 2, 3]);
    assert_eq!(s.cursor, Some(3));
    s.move_next(4);
    assert_eq!(s.cursor, Some(0));
    s.toggle(4);
    assert_eq!(s.selected, vec![1, 2, 3]);
    s.toggle(4);
    assert_eq!(s.selected, vec![1, 2, 3, 0]);
    s.clear_all(4);
    assert!(s.selected.is_empty());
    assert_eq!(s.cursor, None);
}

#[test]
fn list_keys_drive_selection_and_cache() {
    let mut list = MultiStatefulList::new();
    let mut cache = SelectionCache::new();
    list.set_items(vec![String::from("a"), String::from("b"), String::from("c")]);
    list.set_state_key(Some(String::from("id1")));
    list.handle_key(ListKey::Right, &mut cache);
    assert_eq!(list.state.selected, vec![0, 1, 2]);
    let cached = cache.get("id1").expect("snapshot written");
    assert_eq!(cached.selected_indexes, vec![0, 1, 2]);
    list.handle_key(ListKey::Down, &mut cache);
    list.handle_key(ListKey::Enter, &mut cache);
    assert_eq!(list.state.selected, vec![1, 2]);
    let cached = cache.get("id1").expect("snapshot written");
    assert_eq!(cached.selected_indexes, vec![1, 2]);
    list.handle_key(ListKey::Left, &mut cache);
    assert!(list.state.selected.is_empty());
    assert_eq!(list.state.cursor, None);
}

#[test]
fn empty_list_writes_no_snapshot() {
    let mut list = MultiStatefulList::new();
    let mut cache = SelectionCache::new();
    list.set_state_key(Some(String::from("id1")));
    list.handle_key(ListKey::Right, &mut cache);
    assert!(cache.get("id1").is_none());
}

fn chart_with_two_series() -> Chart {
    let resp = JsonValue::Object(vec![
        (String::from("total"), JsonValue::Int(30)),
        (
            String::from("matches"),
            JsonValue::Array(vec![
                JsonValue::Object(vec![
                    (String::from("month"), JsonValue::Str(String::from("2022-11"))),
                    (String::from("count"), JsonValue::Int(10)),
                ]),
                JsonValue::Object(vec![
                    (String::from("month"), JsonValue::Str(String::from("2022-12"))),
                    (String::from("count"), JsonValue::Int(20)),
                ]),
            ]),
        ),
        (
            String::from("facets"),
            JsonValue::Object(vec![(
                String::from("os"),
                JsonValue::Array(vec![
                    JsonValue::Object(vec![
                        (String::from("key"), JsonValue::Str(String::from("2022-11"))),
                        (
                            String::from("values"),
                            JsonValue::Array(vec![
                                JsonValue::Object(vec![
                                    (String::from("value"), JsonValue::Str(String::from("Linux"))),
                                    (String::from("count"), JsonValue::Int(7)),
                                ]),
                                JsonValue::Object(vec![
                                    (String::from("value"), JsonValue::Str(String::from("BSD"))),
                                    (String::from("count"), JsonValue::Int(-3)),
                                ]),
                            ]),
                        ),
                    ]),
                    JsonValue::Object(vec![
                        (String::from("key"), JsonValue::Str(String::from("2022-12"))),
                        (String::from("values"), JsonValue::Array(vec![])),
                    ]),
                ]),
            )]),
        ),
    ]);
    match build_chart(&resp, "query=x&facets=os", "os") {
        Ok(BuildOutcome::Built(c)) => c,
        _ => panic!("chart expected"),
    }
}

#[test]
fn export_zero_selection_is_header_only() {
    let chart = chart_with_two_series();
    let table = build_export(&chart, &vec![]);
    assert_eq!(table.len(), 1);
    assert_eq!(table[0], vec![String::from("Month")]);
}

#[test]
fn export_columns_match_selection() {
    let chart = chart_with_two_series();
    let table = build_export(&chart, &vec![0]);
    assert_eq!(table.len(), 3);
    for row in &table {
        assert_eq!(row.len(), 2);
    }
    assert_eq!(table[0], vec!["Month", "query=x&facets=os"]);
    assert_eq!(table[1], vec!["Nov 2022", "10"]);
    assert_eq!(table[2], vec!["Dec 2022", "20"]);
}

#[test]
fn export_facet_chart_in_selection_order() {
    let chart = chart_with_two_series();
    let facets = chart.facets.as_ref().expect("facet chart expected");
    // selection order decides the column order, including negatives
    let table = build_export(facets, &vec![1, 0]);
    assert_eq!(table.len(), 3);
    for row in &table {
        assert_eq!(row.len(), 3);
    }
    assert_eq!(table[0], vec!["Month", "BSD", "Linux"]);
    assert_eq!(table[1], vec!["Nov 2022", "-3", "7"]);
    assert_eq!(table[2], vec!["Dec 2022", "0", "0"]);
}

#[test]
fn input_editor_edits_at_cursor() {
    let mut input = UserInput::new("ngnx");
    assert_eq!(input.cursor_position, 4);
    input.handle_key(InputKey::Left);
    input.handle_key(InputKey::Left);
    input.handle_key(InputKey::Char('i'));
    assert_eq!(input.get_input(), "nginx");
    assert_eq!(input.cursor_position, 3);
    input.handle_key(InputKey::Backspace);
    assert_eq!(input.get_input(), "ngnx");
    input.set_input("apache");
    assert_eq!(input.get_input(), "apache");
    assert_eq!(input.cursor_position, 6);
}

#[test]
fn input_cursor_clamps_at_both_ends() {
    let mut input = UserInput::new("ab");
    input.handle_key(InputKey::Right);
    assert_eq!(input.cursor_position, 2);
    input.handle_key(InputKey::Left);
    input.handle_key(InputKey::Left);
    input.handle_key(InputKey::Left);
    assert_eq!(input.cursor_position, 0);
    input.handle_key(InputKey::Backspace);
    assert_eq!(input.get_input(), "ab");
}

#[test]
fn tab_cycle_skips_hidden_panels() {
    let mut w = Widgets::new();
    // fresh layout: lists and chart hidden, cycle starts on the chart slot
    assert_eq!(w.index, LINE_CHART);
    w.switch_widgets(false);
    assert_eq!(w.index, SEARCH_INPUT);
    assert!(w.panels[SEARCH_INPUT].focused);
    w.switch_widgets(false);
    assert_eq!(w.index, FACETS_INPUT);
    w.switch_widgets(false);
    // saved queries, facet values and the chart are hidden: wrap to search
    assert_eq!(w.index, SEARCH_INPUT);
    w.switch_widgets(true);
    assert_eq!(w.index, FACETS_INPUT);
}

#[test]
fn visibility_follows_session_state() {
    let mut w = Widgets::new();
    // a successful search shows the lists and the chart
    w.update_visibility(false, false, false);
    assert!(!w.panels[SAVED_QUERIES].hidden);
    assert!(!w.panels[LINE_CHART].hidden);
    // an error with saved queries hides only the chart
    w.update_visibility(false, true, false);
    assert!(!w.panels[SAVED_QUERIES].hidden);
    assert!(w.panels[LINE_CHART].hidden);
    // an error with no saved queries hides all three
    let mut w2 = Widgets::new();
    w2.update_visibility(false, false, false);
    w2.update_visibility(true, false, true);
    assert!(w2.panels[SAVED_QUERIES].hidden);
    assert!(w2.panels[LINE_CHART].hidden);
}

#[test]
fn key_symbols_render_as_glyphs() {
    assert_eq!(KeySymbols::TAB.symbol(), "\u{21e5}");
    assert_eq!(KeySymbols::ENTER.symbol(), "\u{23ce}");
    assert_eq!(KeySymbols::CONTROL.symbol(), "^");
    assert_eq!(KeySymbols::UP.symbol(), "\u{2191}");
    assert_eq!(KeySymbols::DOWN.symbol(), "\u{2193}");
}

#[test]
fn help_texts_name_the_key_glyphs() {
    let list = MultiStatefulList::new();
    assert_eq!(
        list.help_keys(),
        vec![
            "Up/ Down [\u{2191}\u{2193}]",
            "Toggle [\u{23ce}]",
            "Select/ Unselect All [\u{2192}\u{2190}]",
        ]
    );
    let input = UserInput::new("");
    assert_eq!(
        input.help_keys(),
        vec![
            "Search [\u{23ce}]",
            "Move cursor [\u{2190}\u{2192}]",
            "Delete Char [\u{232b}]",
            "Up/ Down [\u{2191}\u{2193}]",
        ]
    );
}
