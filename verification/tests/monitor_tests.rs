use system_monitor::monitor::{key_for_window, track, WindowFacts};
use system_monitor::store::{ActiveRecord, ActivityStore};

fn facts(app_name: &str, window_title: &str) -> Option<WindowFacts> {
    Some(WindowFacts { app_name: app_name.to_string(), window_title: window_title.to_string() })
}

#[test]
fn key_of_a_plain_window() {
    assert_eq!(key_for_window("notepad.exe", "notes.txt - Notepad"), "notepad.exe:notes.txt - Notepad");
}

#[test]
fn key_of_a_browser_window_with_an_address() {
    assert_eq!(
        key_for_window("Chrome.exe", "Docs - https://docs.rs"),
        "Chrome.exe:https://docs.rs"
    );
    assert_eq!(
        key_for_window("firefox.exe", "http://a.b - Mozilla Firefox"),
        "firefox.exe:http://a.b"
    );
}

#[test]
fn key_of_a_browser_window_without_an_address() {
    assert_eq!(
        key_for_window("chrome.exe", "Docs - Google Chrome"),
        "chrome.exe:Docs - Google Chrome"
    );
}

#[test]
fn a_look_that_found_nothing_changes_nothing() {
    let mut store = ActivityStore::new();
    track(&mut store, &facts("a.exe", "One"), 100);
    track(&mut store, &None, 101);
    assert_eq!(store.tracked_keys(), 1);
    assert_eq!(
        store.record("a.exe:One"),
        Some(ActiveRecord { active: true, last_seen: 100, active_since: 100 })
    );
}

#[test]
fn a_look_on_an_empty_store_that_found_nothing() {
    let mut store = ActivityStore::new();
    track(&mut store, &None, 5);
    assert_eq!(store.tracked_keys(), 0);
}

#[test]
fn looks_follow_the_focus() {
    let mut store = ActivityStore::new();
    track(&mut store, &facts("a.exe", "One"), 100);
    track(&mut store, &facts("a.exe", "One"), 101);
    track(&mut store, &facts("chrome.exe", "Docs - https://docs.rs"), 102);
    assert_eq!(
        store.record("a.exe:One"),
        Some(ActiveRecord { active: false, last_seen: 101, active_since: 100 })
    );
    assert_eq!(store.drain(110), vec![("chrome.exe:https://docs.rs".to_string(), 8)]);
}

#[test]
fn readings_without_a_name_or_title_are_unknown() {
    assert_eq!(
        WindowFacts::from_readings(Some("a.exe".to_string()), Some("One".to_string())),
        WindowFacts { app_name: "a.exe".to_string(), window_title: "One".to_string() }
    );
    assert_eq!(
        WindowFacts::from_readings(None, Some("One".to_string())),
        WindowFacts { app_name: "Unknown".to_string(), window_title: "One".to_string() }
    );
    assert_eq!(
        WindowFacts::from_readings(Some("a.exe".to_string()), None),
        WindowFacts { app_name: "a.exe".to_string(), window_title: "Unknown".to_string() }
    );
}
