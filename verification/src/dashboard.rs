//! The dashboard: what is in focus now, how long it has been, what the log
//! holds of late, and a few totals. It is worked out afresh for each
//! request and changes nothing.

use crate::identity::{decompose, spec_decompose};
use crate::log::{row_views, text_view, LogRowView, UsageLogRow};
use crate::retention::{recent_activity, recent_rows};
use crate::store::{active_spans, elapsed_since, focus, span_views, ActivityStore, Records};
use vstd::prelude::*;

verus! {

/// What a dashboard shows.
#[derive(Clone, Debug, PartialEq, Eq)]
pub struct DashboardSnapshot {
    /// The application in focus.
    pub current_app: Option<String>,
    /// The title of the window in focus, where the key holds a title.
    pub current_window: Option<String>,
    /// The address of the page in focus, where the key holds an address.
    pub current_url: Option<String>,
    /// The active keys with the seconds each has been active, the longest
    /// first.
    pub active_set: Vec<(String, u64)>,
    /// The recent rows of the log, newest first.
    pub recent_activity: Vec<UsageLogRow>,
    /// The number of keys ever seen.
    pub total_tracked_keys: usize,
    /// Seconds since the process started.
    pub process_uptime_seconds: u64,
}

/// A dashboard as mathematical values.
pub ghost struct DashboardView {
    pub current_app: Option<Seq<char>>,
    pub current_window: Option<Seq<char>>,
    pub current_url: Option<Seq<char>>,
    pub active_set: Seq<(Seq<char>, u64)>,
    pub recent_activity: Seq<LogRowView>,
    pub total_tracked_keys: nat,
    pub process_uptime_seconds: u64,
}

impl View for DashboardSnapshot {
    type V = DashboardView;

    open spec fn view(&self) -> DashboardView {
        DashboardView {
            current_app: text_view(self.current_app),
            current_window: text_view(self.current_window),
            current_url: text_view(self.current_url),
            active_set: span_views(self.active_set@),
            recent_activity: row_views(self.recent_activity@),
            total_tracked_keys: self.total_tracked_keys as nat,
            process_uptime_seconds: self.process_uptime_seconds,
        }
    }
}

/// The application of the key in focus.
pub open spec fn current_app_of(m: Records) -> Option<Seq<char>> {
    match focus(m) {
        Some(k) => Some(spec_decompose(k).app_name),
        None => None,
    }
}

/// The window title of the key in focus, unless its detail is an address.
pub open spec fn current_window_of(m: Records) -> Option<Seq<char>> {
    match focus(m) {
        Some(k) => if spec_decompose(k).is_url {
            None
        } else {
            Some(spec_decompose(k).detail)
        },
        None => None,
    }
}

/// The address of the key in focus, if its detail is one.
pub open spec fn current_url_of(m: Records) -> Option<Seq<char>> {
    match focus(m) {
        Some(k) => if spec_decompose(k).is_url {
            Some(spec_decompose(k).detail)
        } else {
            None
        },
        None => None,
    }
}

/// The dashboard of a store and a log at `now`, for a process that started
/// at `started`.
pub open spec fn spec_build_snapshot(
    m: Records,
    log: Seq<LogRowView>,
    now: u64,
    started: u64,
    window: u64,
    limit: nat,
) -> DashboardView {
    DashboardView {
        current_app: current_app_of(m),
        current_window: current_window_of(m),
        current_url: current_url_of(m),
        active_set: active_spans(m, now),
        recent_activity: recent_rows(log, now, window, limit),
        total_tracked_keys: m.len(),
        process_uptime_seconds: elapsed_since(started, now),
    }
}

/// Builds the dashboard.
///
/// The key in focus is taken apart for the current application and its
/// window or address. The active set pairs each active key with the seconds
/// since it became active; a valid store has at most one, so the set is in
/// order, longest first, as it stands. The recent rows are those that the
/// retention query gives for `log`. The uptime is never negative: a clock
/// that has gone back behind `started` gives zero.
pub fn build_snapshot(
    store: &ActivityStore,
    log: &Vec<UsageLogRow>,
    now: u64,
    started: u64,
    window: u64,
    limit: usize,
) -> (snap: DashboardSnapshot)
    requires
        store.wf(),
    ensures
        snap@ == spec_build_snapshot(store@, row_views(log@), now, started, window, limit as nat),
        forall|i: int, j: int|
            0 <= i < j < snap.active_set.len() ==> snap.active_set[i].1 >= snap.active_set[j].1,
{
    let spans = store.drain(now);
    proof {
        assert(span_views(spans@).len() == spans.len());
        if spans.len() > 0 {
            assert(span_views(spans@)[0] == (spans[0].0@, spans[0].1));
            assert(focus(store@) == Some(spans[0].0@));
        } else {
            assert(focus(store@) is None);
        }
    }
    let mut current_app: Option<String> = None;
    let mut current_window: Option<String> = None;
    let mut current_url: Option<String> = None;
    if spans.len() > 0 {
        let parts = decompose(spans[0].0.as_str());
        current_app = Some(parts.app_name);
        if parts.is_url {
            current_url = Some(parts.detail);
        } else {
            current_window = Some(parts.detail);
        }
    }
    let recent = recent_activity(log, now, window, limit);
    let uptime: u64 = if now >= started {
        now - started
    } else {
        0
    };
    let total = store.tracked_keys();
    let snap = DashboardSnapshot {
        current_app,
        current_window,
        current_url,
        active_set: spans,
        recent_activity: recent,
        total_tracked_keys: total,
        process_uptime_seconds: uptime,
    };
    proof {
        let want = spec_build_snapshot(
            store@,
            row_views(log@),
            now,
            started,
            window,
            limit as nat,
        );
        assert(snap@.current_app == want.current_app);
        assert(snap@.current_window == want.current_window);
        assert(snap@.current_url == want.current_url);
        assert(snap@.active_set == want.active_set);
        assert(snap@.recent_activity == want.recent_activity);
        assert(snap@.total_tracked_keys == want.total_tracked_keys);
    }
    snap
}

} // verus!
