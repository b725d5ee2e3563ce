//! Rows of the usage log.
//!
//! The log is append-only: a flush adds rows and nothing here changes or
//! removes one. The store that keeps the log numbers the rows as it takes
//! them in; that number is its own affair and is not part of a row here.

use vstd::prelude::*;

verus! {

/// One row of the usage log: a key was active for `duration` seconds when
/// the log was written at `timestamp`.
#[derive(Clone, Debug, PartialEq, Eq)]
pub struct UsageLogRow {
    pub identifier: String,
    pub app_name: String,
    pub window_title: String,
    pub url: Option<String>,
    /// Seconds since the epoch at which the row was written.
    pub timestamp: u64,
    /// Seconds from the start of the activation to `timestamp`.
    pub duration: u64,
}

/// A row of the usage log as mathematical values.
pub ghost struct LogRowView {
    pub identifier: Seq<char>,
    pub app_name: Seq<char>,
    pub window_title: Seq<char>,
    pub url: Option<Seq<char>>,
    pub timestamp: u64,
    pub duration: u64,
}

/// Text that may be missing, as a sequence of characters.
pub open spec fn text_view(text: Option<String>) -> Option<Seq<char>> {
    match text {
        Some(t) => Some(t@),
        None => None,
    }
}

impl View for UsageLogRow {
    type V = LogRowView;

    open spec fn view(&self) -> LogRowView {
        LogRowView {
            identifier: self.identifier@,
            app_name: self.app_name@,
            window_title: self.window_title@,
            url: text_view(self.url),
            timestamp: self.timestamp,
            duration: self.duration,
        }
    }
}

/// Rows as mathematical values.
pub open spec fn row_views(rows: Seq<UsageLogRow>) -> Seq<LogRowView> {
    rows.map_values(|r: UsageLogRow| r@)
}

impl UsageLogRow {
    /// A second row that reads the same.
    pub fn duplicate(&self) -> (copy: UsageLogRow)
        ensures
            copy@ == self@,
    {
        let url = match &self.url {
            Some(u) => Some(u.clone()),
            None => None,
        };
        UsageLogRow {
            identifier: self.identifier.clone(),
            app_name: self.app_name.clone(),
            window_title: self.window_title.clone(),
            url,
            timestamp: self.timestamp,
            duration: self.duration,
        }
    }
}

} // verus!
