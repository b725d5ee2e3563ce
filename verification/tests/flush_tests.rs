use system_monitor::flush::{flush_cycle, flush_rows};
use system_monitor::log::UsageLogRow;
use system_monitor::store::ActivityStore;

#[test]
fn flush_right_after_activation_writes_nothing() {
    let mut store = ActivityStore::new();
    store.observe("app.exe:Title".to_string(), 700);
    assert_eq!(flush_cycle(&store, 700), vec![]);
}

#[test]
fn flush_after_a_switch_writes_nothing_for_either_key() {
    let mut store = ActivityStore::new();
    store.observe("a.exe:One".to_string(), 700);
    store.observe("b.exe:Two".to_string(), 760);
    assert_eq!(flush_cycle(&store, 760), vec![]);
}

#[test]
fn flush_of_an_empty_store_writes_nothing() {
    let store = ActivityStore::new();
    assert_eq!(flush_cycle(&store, 12345), vec![]);
}

#[test]
fn flush_writes_a_row_for_a_title_key() {
    let mut store = ActivityStore::new();
    store.observe("notepad.exe:notes.txt".to_string(), 1000);
    assert_eq!(
        flush_cycle(&store, 1005),
        vec![UsageLogRow {
            identifier: "notepad.exe:notes.txt".to_string(),
            app_name: "notepad.exe".to_string(),
            window_title: "notes.txt".to_string(),
            url: None,
            timestamp: 1005,
            duration: 5,
        }]
    );
}

#[test]
fn flush_writes_a_row_for_an_address_key() {
    let mut store = ActivityStore::new();
    store.observe("chrome.exe:https://docs.rs".to_string(), 1000);
    assert_eq!(
        flush_cycle(&store, 1042),
        vec![UsageLogRow {
            identifier: "chrome.exe:https://docs.rs".to_string(),
            app_name: "chrome.exe".to_string(),
            window_title: "https://docs.rs".to_string(),
            url: Some("https://docs.rs".to_string()),
            timestamp: 1042,
            duration: 42,
        }]
    );
}

#[test]
fn flush_writes_a_row_for_a_key_without_colon() {
    let mut store = ActivityStore::new();
    store.observe("explorer".to_string(), 10);
    assert_eq!(
        flush_cycle(&store, 11),
        vec![UsageLogRow {
            identifier: "explorer".to_string(),
            app_name: "explorer".to_string(),
            window_title: "Unknown".to_string(),
            url: None,
            timestamp: 11,
            duration: 1,
        }]
    );
}

#[test]
fn consecutive_flushes_are_cumulative() {
    // The duration of each row counts from the activation, not from the
    // row before: the second row takes in the time of the first.
    let mut store = ActivityStore::new();
    store.observe("app.exe:Title".to_string(), 1000);
    let first = flush_cycle(&store, 1005);
    let second = flush_cycle(&store, 1010);
    assert_eq!(first.len(), 1);
    assert_eq!(second.len(), 1);
    assert_eq!(first[0].duration, 5);
    assert_eq!(first[0].timestamp, 1005);
    assert_eq!(second[0].duration, 10);
    assert_eq!(second[0].timestamp, 1010);
}

#[test]
fn observing_the_active_key_between_flushes_keeps_the_count() {
    let mut store = ActivityStore::new();
    store.observe("app.exe:Title".to_string(), 1000);
    assert_eq!(flush_cycle(&store, 1005)[0].duration, 5);
    store.observe("app.exe:Title".to_string(), 1007);
    assert_eq!(flush_cycle(&store, 1010)[0].duration, 10);
}

#[test]
fn flush_rows_skips_spans_of_zero_seconds() {
    let spans = vec![
        ("a.exe:One".to_string(), 0),
        ("b.exe:http://two".to_string(), 7),
        ("c.exe:Three".to_string(), 0),
        ("d.exe:Four".to_string(), 1),
    ];
    let rows = flush_rows(&spans, 900);
    assert_eq!(
        rows,
        vec![
            UsageLogRow {
                identifier: "b.exe:http://two".to_string(),
                app_name: "b.exe".to_string(),
                window_title: "http://two".to_string(),
                url: Some("http://two".to_string()),
                timestamp: 900,
                duration: 7,
            },
            UsageLogRow {
                identifier: "d.exe:Four".to_string(),
                app_name: "d.exe".to_string(),
                window_title: "Four".to_string(),
                url: None,
                timestamp: 900,
                duration: 1,
            },
        ]
    );
}

#[test]
fn flush_rows_of_nothing() {
    assert_eq!(flush_rows(&vec![], 5), vec![]);
}

#[test]
fn flush_when_the_clock_went_back_writes_nothing() {
    let mut store = ActivityStore::new();
    store.observe("app.exe:Title".to_string(), 1000);
    assert_eq!(flush_cycle(&store, 990), vec![]);
}

#[test]
fn duplicate_reads_the_same() {
    let row = UsageLogRow {
        identifier: "b.exe:http://two".to_string(),
        app_name: "b.exe".to_string(),
        window_title: "http://two".to_string(),
        url: Some("http://two".to_string()),
        timestamp: 900,
        duration: 7,
    };
    assert_eq!(row.duplicate(), row);
}
