use picon::app::App;
use picon::latest::{update_marker_symbols, Setting};

#[test]
fn toggle_mark_twice_restores_membership_and_text() {
    let mut app = App::new(String::new());
    update_marker_symbols(&mut app, "ETH");
    let before = update_marker_symbols(&mut app, "BTC");
    let list_before = app.latest_setting.marker_symbols.clone();
    let removed = update_marker_symbols(&mut app, "ETH");
    assert_eq!(removed, "[\"BTC\"]");
    assert!(!app.latest_setting.is_marked("ETH"));
    let after = update_marker_symbols(&mut app, "ETH");
    assert!(app.latest_setting.is_marked("ETH"));
    assert_eq!(after, before);
    assert_eq!(app.latest_setting.marker_symbols, list_before);
}

#[test]
fn marks_are_kept_sorted_and_exact() {
    let mut s = Setting::new();
    s.toggle_mark("b");
    s.toggle_mark("B");
    s.toggle_mark("a");
    assert_eq!(s.marker_symbols, vec!["B".to_string(), "a".to_string(), "b".to_string()]);
    assert!(s.is_marked("B"));
    assert!(!s.is_marked("c"));
    assert_eq!(s.marker_symbols_json(), "[\"B\",\"a\",\"b\"]");
}

#[test]
fn load_marker_symbols_replaces_the_set() {
    let mut s = Setting::new();
    s.toggle_mark("OLD");
    assert!(s.load_marker_symbols("[\"X\",\"A\",\"X\"]"));
    assert_eq!(s.marker_symbols, vec!["A".to_string(), "X".to_string()]);
    assert!(!s.load_marker_symbols("{\"a\":1}"));
    assert_eq!(s.marker_symbols, vec!["A".to_string(), "X".to_string()]);
}

#[test]
fn mark_all_unions() {
    let mut s = Setting::new();
    s.toggle_mark("Z");
    s.mark_all(&vec!["Y".to_string(), "Z".to_string()]);
    assert_eq!(s.marker_symbols, vec!["Y".to_string(), "Z".to_string()]);
}

#[test]
fn empty_starred_set_is_an_empty_json_list() {
    assert_eq!(Setting::new().marker_symbols_json(), "[]");
}
