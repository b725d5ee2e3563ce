use system_monitor::dashboard::{build_snapshot, DashboardSnapshot};
use system_monitor::log::UsageLogRow;
use system_monitor::store::ActivityStore;

fn row(name: &str, timestamp: u64, duration: u64) -> UsageLogRow {
    UsageLogRow {
        identifier: format!("app.exe:{}", name),
        app_name: "app.exe".to_string(),
        window_title: name.to_string(),
        url: None,
        timestamp,
        duration,
    }
}

#[test]
fn dashboard_of_an_empty_store() {
    let store = ActivityStore::new();
    let snap = build_snapshot(&store, &vec![], 2000, 1500, 3600, 50);
    assert_eq!(
        snap,
        DashboardSnapshot {
            current_app: None,
            current_window: None,
            current_url: None,
            active_set: vec![],
            recent_activity: vec![],
            total_tracked_keys: 0,
            process_uptime_seconds: 500,
        }
    );
}

#[test]
fn dashboard_shows_the_window_in_focus() {
    let mut store = ActivityStore::new();
    store.observe("chrome.exe:https://docs.rs".to_string(), 1000);
    store.observe("notepad.exe:notes.txt".to_string(), 1100);
    let log = vec![row("old", 10, 5), row("a", 1050, 50), row("b", 1105, 5)];
    let snap = build_snapshot(&store, &log, 1130, 900, 3600, 50);
    assert_eq!(
        snap,
        DashboardSnapshot {
            current_app: Some("notepad.exe".to_string()),
            current_window: Some("notes.txt".to_string()),
            current_url: None,
            active_set: vec![("notepad.exe:notes.txt".to_string(), 30)],
            recent_activity: vec![row("b", 1105, 5), row("a", 1050, 50), row("old", 10, 5)],
            total_tracked_keys: 2,
            process_uptime_seconds: 230,
        }
    );
}

#[test]
fn dashboard_shows_the_address_in_focus() {
    let mut store = ActivityStore::new();
    store.observe("chrome.exe:https://docs.rs".to_string(), 1000);
    let snap = build_snapshot(&store, &vec![], 1060, 1000, 3600, 50);
    assert_eq!(snap.current_app, Some("chrome.exe".to_string()));
    assert_eq!(snap.current_window, None);
    assert_eq!(snap.current_url, Some("https://docs.rs".to_string()));
    assert_eq!(snap.active_set, vec![("chrome.exe:https://docs.rs".to_string(), 60)]);
    assert_eq!(snap.total_tracked_keys, 1);
    assert_eq!(snap.process_uptime_seconds, 60);
}

#[test]
fn dashboard_of_a_key_without_colon() {
    let mut store = ActivityStore::new();
    store.observe("explorer".to_string(), 1000);
    let snap = build_snapshot(&store, &vec![], 1001, 1000, 3600, 50);
    assert_eq!(snap.current_app, Some("explorer".to_string()));
    assert_eq!(snap.current_window, Some("Unknown".to_string()));
    assert_eq!(snap.current_url, None);
}

#[test]
fn dashboard_with_only_idle_keys() {
    let mut store = ActivityStore::new();
    store.restore(&vec![("a.exe:One".to_string(), 5), ("b.exe:Two".to_string(), 6)]);
    let snap = build_snapshot(&store, &vec![], 100, 90, 3600, 50);
    assert_eq!(snap.current_app, None);
    assert_eq!(snap.current_window, None);
    assert_eq!(snap.current_url, None);
    assert_eq!(snap.active_set, vec![]);
    assert_eq!(snap.total_tracked_keys, 2);
    assert_eq!(snap.process_uptime_seconds, 10);
}

#[test]
fn dashboard_cuts_the_recent_rows() {
    let store = ActivityStore::new();
    let log = vec![row("a", 100, 1), row("b", 200, 1), row("c", 300, 1), row("d", 90, 1)];
    let snap = build_snapshot(&store, &log, 300, 0, 200, 2);
    assert_eq!(snap.recent_activity, vec![row("c", 300, 1), row("b", 200, 1)]);
}

#[test]
fn uptime_is_zero_when_the_clock_went_back() {
    let store = ActivityStore::new();
    let snap = build_snapshot(&store, &vec![], 100, 200, 3600, 50);
    assert_eq!(snap.process_uptime_seconds, 0);
}

#[test]
fn building_the_dashboard_changes_nothing() {
    let mut store = ActivityStore::new();
    store.observe("a.exe:One".to_string(), 10);
    let before = store.record("a.exe:One");
    let first = build_snapshot(&store, &vec![], 20, 0, 3600, 50);
    let second = build_snapshot(&store, &vec![], 25, 0, 3600, 50);
    assert_eq!(first.active_set, vec![("a.exe:One".to_string(), 10)]);
    assert_eq!(second.active_set, vec![("a.exe:One".to_string(), 15)]);
    assert_eq!(store.record("a.exe:One"), before);
}
