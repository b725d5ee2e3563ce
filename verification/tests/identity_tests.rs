use system_monitor::identity::{decompose, has_http_prefix, resolve};

#[test]
fn resolve_prefers_the_address() {
    let key = resolve("chrome.exe", "Docs - Google Chrome", Some("https://docs.rs"));
    assert_eq!(key, "chrome.exe:https://docs.rs");
}

#[test]
fn resolve_falls_back_to_the_title() {
    let key = resolve("notepad.exe", "notes.txt - Notepad", None);
    assert_eq!(key, "notepad.exe:notes.txt - Notepad");
}

#[test]
fn resolve_keeps_case_and_spaces() {
    let key = resolve("Code.EXE", "  Main.rs  ", None);
    assert_eq!(key, "Code.EXE:  Main.rs  ");
}

#[test]
fn decompose_splits_at_the_first_colon() {
    let parts = decompose("chrome.exe:https://docs.rs/a:b");
    assert_eq!(parts.app_name, "chrome.exe");
    assert_eq!(parts.detail, "https://docs.rs/a:b");
    assert!(parts.is_url);
}

#[test]
fn decompose_tells_a_title_from_an_address() {
    let parts = decompose("notepad.exe:notes.txt - Notepad");
    assert_eq!(parts.app_name, "notepad.exe");
    assert_eq!(parts.detail, "notes.txt - Notepad");
    assert!(!parts.is_url);
}

#[test]
fn decompose_without_a_colon() {
    let parts = decompose("explorer.exe");
    assert_eq!(parts.app_name, "explorer.exe");
    assert_eq!(parts.detail, "Unknown");
    assert!(!parts.is_url);
}

#[test]
fn decompose_with_nothing_behind_the_colon() {
    let parts = decompose("app:");
    assert_eq!(parts.app_name, "app");
    assert_eq!(parts.detail, "");
    assert!(!parts.is_url);
}

#[test]
fn decompose_with_nothing_before_the_colon() {
    let parts = decompose(":http");
    assert_eq!(parts.app_name, "");
    assert_eq!(parts.detail, "http");
    assert!(parts.is_url);
}

#[test]
fn decompose_of_the_empty_key() {
    let parts = decompose("");
    assert_eq!(parts.app_name, "");
    assert_eq!(parts.detail, "Unknown");
    assert!(!parts.is_url);
}

#[test]
fn decompose_counts_characters_not_bytes() {
    let parts = decompose("caf\u{e9}.exe:\u{fc}ber uns");
    assert_eq!(parts.app_name, "caf\u{e9}.exe");
    assert_eq!(parts.detail, "\u{fc}ber uns");
    assert!(!parts.is_url);
}

#[test]
fn round_trip_with_an_address() {
    let key = resolve("firefox.exe", "Rust - Mozilla Firefox", Some("http://rust-lang.org"));
    let parts = decompose(&key);
    assert_eq!(parts.app_name, "firefox.exe");
    assert_eq!(parts.detail, "http://rust-lang.org");
    assert!(parts.is_url);
}

#[test]
fn round_trip_with_a_title() {
    let key = resolve("code.exe", "main.rs: editing", None);
    let parts = decompose(&key);
    assert_eq!(parts.app_name, "code.exe");
    assert_eq!(parts.detail, "main.rs: editing");
    assert!(!parts.is_url);
}

#[test]
fn round_trip_classifies_by_the_detail() {
    let key = resolve("app.exe", "httpd is running", None);
    let parts = decompose(&key);
    assert_eq!(parts.app_name, "app.exe");
    assert!(parts.is_url);
    let key = resolve("app.exe", "title", Some("ftp://host/file"));
    let parts = decompose(&key);
    assert_eq!(parts.detail, "ftp://host/file");
    assert!(!parts.is_url);
}

#[test]
fn http_prefix_is_exact() {
    assert!(has_http_prefix("http"));
    assert!(has_http_prefix("https://example.com"));
    assert!(!has_http_prefix("htt"));
    assert!(!has_http_prefix("HTTP://example.com"));
    assert!(!has_http_prefix(" http://example.com"));
    assert!(!has_http_prefix(""));
}
