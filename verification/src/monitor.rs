//! One look at the foreground: from what the system reports of the window
//! in focus to the change in the store.

use crate::identity::{resolve, spec_resolve};
use crate::store::{observed, ActivityStore, Records};
use crate::url_hint::{browser_url, extract_browser_url, lowercase_of};
use vstd::prelude::*;

verus! {

/// What the system reports of the window in focus.
#[derive(Clone, Debug, PartialEq, Eq)]
pub struct WindowFacts {
    /// The name of the executable that owns the window.
    pub app_name: String,
    /// The title of the window.
    pub window_title: String,
}

impl WindowFacts {
    /// Puts together what was read of a window. A window that gave no title,
    /// or a process whose path gave no file name, is called `Unknown`.
    pub fn from_readings(app_name: Option<String>, window_title: Option<String>) -> (facts:
        WindowFacts)
        ensures
            facts.app_name@ == (match app_name {
                Some(name) => name@,
                None => "Unknown"@,
            }),
            facts.window_title@ == (match window_title {
                Some(title) => title@,
                None => "Unknown"@,
            }),
    {
        let app_name = match app_name {
            Some(name) => name,
            None => String::from_str("Unknown"),
        };
        let window_title = match window_title {
            Some(title) => title,
            None => String::from_str("Unknown"),
        };
        WindowFacts { app_name, window_title }
    }
}

/// The key of a window: the application name with the address that its
/// title shows, or with the title where it shows none.
pub open spec fn window_key(app_name: Seq<char>, window_title: Seq<char>) -> Seq<char> {
    spec_resolve(app_name, window_title, browser_url(lowercase_of(app_name), window_title))
}

/// The records after one look at the foreground. A look that found nothing
/// changes nothing.
pub open spec fn after_look(m: Records, facts: Option<WindowFacts>, now: u64) -> Records {
    match facts {
        Some(f) => observed(m, window_key(f.app_name@, f.window_title@), now),
        None => m,
    }
}

/// Makes the key of a window.
pub fn key_for_window(app_name: &str, window_title: &str) -> (key: String)
    ensures
        key@ == window_key(app_name@, window_title@),
{
    match extract_browser_url(app_name, window_title) {
        Some(url) => resolve(app_name, window_title, Some(url.as_str())),
        None => resolve(app_name, window_title, None),
    }
}

/// Takes one look at the foreground into the store. Where the system could
/// report no window the tick is passed over: the store stays as it is, and
/// that is no error.
pub fn track(store: &mut ActivityStore, facts: &Option<WindowFacts>, now: u64)
    requires
        old(store).wf(),
    ensures
        final(store).wf(),
        final(store)@ == after_look(old(store)@, *facts, now),
{
    match facts {
        Some(f) => {
            let key = key_for_window(f.app_name.as_str(), f.window_title.as_str());
            store.observe(key, now);
        },
        None => {},
    }
}

} // verus!
