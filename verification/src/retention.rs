//! The retention query: the newest rows of the log within a window of time.

use crate::log::{row_views, LogRowView, UsageLogRow};
use vstd::prelude::*;

verus! {

/// The window that is shown where none is asked for: a day, in seconds.
pub const DEFAULT_RETENTION_SECONDS: u64 = 86400;

/// The number of rows that is shown where none is asked for.
pub const DEFAULT_RECENT_LIMIT: usize = 50;

/// A row is recent at `now` when it was written no more than `window`
/// seconds earlier.
pub open spec fn is_recent(row: LogRowView, now: u64, window: u64) -> bool {
    row.timestamp >= now - window
}

/// The recent rows of a log, in the order of the log.
pub open spec fn retained(rows: Seq<LogRowView>, now: u64, window: u64) -> Seq<LogRowView> {
    rows.filter(|r: LogRowView| is_recent(r, now, window))
}

/// `ranked`, which runs from newest to oldest, with `row` put in: behind
/// every row that is as new or newer, before every older one.
pub open spec fn placed(ranked: Seq<LogRowView>, row: LogRowView) -> Seq<LogRowView>
    decreases ranked.len(),
{
    if ranked.len() > 0 && ranked.last().timestamp < row.timestamp {
        placed(ranked.drop_last(), row).push(ranked.last())
    } else {
        ranked.push(row)
    }
}

/// The rows from newest to oldest. Rows written at the same second keep the
/// order they have in the log.
pub open spec fn newest_first(rows: Seq<LogRowView>) -> Seq<LogRowView>
    decreases rows.len(),
{
    if rows.len() == 0 {
        rows
    } else {
        placed(newest_first(rows.drop_last()), rows.last())
    }
}

/// The first `limit` of `rows`, or all of them where there are fewer.
pub open spec fn at_most(rows: Seq<LogRowView>, limit: nat) -> Seq<LogRowView> {
    if rows.len() <= limit {
        rows
    } else {
        rows.take(limit as int)
    }
}

/// The answer to the retention query: the recent rows, newest first, and no
/// more than `limit` of them.
pub open spec fn recent_rows(rows: Seq<LogRowView>, now: u64, window: u64, limit: nat) -> Seq<
    LogRowView,
> {
    at_most(newest_first(retained(rows, now, window)), limit)
}

/// The rows run from newest to oldest.
pub open spec fn runs_newest_first(rows: Seq<LogRowView>) -> bool {
    forall|i: int, j: int| 0 <= i < j < rows.len() ==> rows[i].timestamp >= rows[j].timestamp
}

/// Putting a row at place `at` of a ranked sequence is what `placed` does,
/// where `at` parts the rows that are as new or newer from the older ones.
pub proof fn lemma_placed_at(ranked: Seq<LogRowView>, row: LogRowView, at: int)
    requires
        0 <= at <= ranked.len(),
        forall|j: int| 0 <= j < at ==> ranked[j].timestamp >= row.timestamp,
        forall|j: int| at <= j < ranked.len() ==> ranked[j].timestamp < row.timestamp,
    ensures
        placed(ranked, row) == ranked.insert(at, row),
    decreases ranked.len(),
{
    if at < ranked.len() {
        lemma_placed_at(ranked.drop_last(), row, at);
        assert(ranked.drop_last().insert(at, row).push(ranked.last()) =~= ranked.insert(at, row));
    } else {
        assert(ranked.push(row) =~= ranked.insert(at, row));
    }
}

/// `placed` keeps a ranked sequence ranked, and adds the row and nothing
/// else.
pub proof fn lemma_placed_ranked(ranked: Seq<LogRowView>, row: LogRowView)
    requires
        runs_newest_first(ranked),
    ensures
        runs_newest_first(placed(ranked, row)),
        placed(ranked, row).len() == ranked.len() + 1,
        placed(ranked, row).contains(row),
        forall|i: int| 0 <= i < ranked.len() ==> placed(ranked, row).contains(#[trigger] ranked[i]),
        forall|i: int|
            0 <= i < placed(ranked, row).len() ==> (#[trigger] placed(ranked, row)[i]) == row
                || ranked.contains(placed(ranked, row)[i]),
    decreases ranked.len(),
{
    let out = placed(ranked, row);
    if ranked.len() > 0 && ranked.last().timestamp < row.timestamp {
        let front = ranked.drop_last();
        let inner = placed(front, row);
        lemma_placed_ranked(front, row);
        assert forall|i: int, j: int| 0 <= i < j < out.len() implies out[i].timestamp
            >= out[j].timestamp by {
            if j == out.len() - 1 {
                assert(out[i] == inner[i]);
                if inner[i] != row {
                    let k = choose|k: int| 0 <= k < front.len() && front[k] == inner[i];
                    assert(ranked[k] == inner[i]);
                }
            } else {
                assert(out[i] == inner[i] && out[j] == inner[j]);
            }
        }
        let w = choose|w: int| 0 <= w < inner.len() && inner[w] == row;
        assert(out[w] == row);
        assert forall|i: int| 0 <= i < ranked.len() implies out.contains(#[trigger] ranked[i]) by {
            if i == ranked.len() - 1 {
                assert(out[out.len() - 1] == ranked[i]);
            } else {
                assert(front[i] == ranked[i]);
                let k = choose|k: int| 0 <= k < inner.len() && inner[k] == front[i];
                assert(out[k] == ranked[i]);
            }
        }
        assert forall|i: int| 0 <= i < out.len() implies (#[trigger] out[i]) == row
            || ranked.contains(out[i]) by {
            if i == out.len() - 1 {
                assert(ranked[ranked.len() - 1] == out[i]);
            } else {
                assert(out[i] == inner[i]);
                if inner[i] != row {
                    let k = choose|k: int| 0 <= k < front.len() && front[k] == inner[i];
                    assert(ranked[k] == out[i]);
                }
            }
        }
    } else {
        assert(out[ranked.len() as int] == row);
        assert forall|i: int| 0 <= i < ranked.len() implies out.contains(#[trigger] ranked[i]) by {
            assert(out[i] == ranked[i]);
        }
        assert forall|i: int| 0 <= i < out.len() implies (#[trigger] out[i]) == row
            || ranked.contains(out[i]) by {
            if i < ranked.len() {
                assert(ranked[i] == out[i]);
            }
        }
    }
}

/// `newest_first` rearranges: its result runs from newest to oldest, is as
/// long as the rows it was given, and holds those rows and no others.
pub proof fn lemma_newest_first(rows: Seq<LogRowView>)
    ensures
        runs_newest_first(newest_first(rows)),
        newest_first(rows).len() == rows.len(),
        forall|i: int| 0 <= i < rows.len() ==> newest_first(rows).contains(#[trigger] rows[i]),
        forall|i: int|
            0 <= i < newest_first(rows).len() ==> rows.contains(#[trigger] newest_first(rows)[i]),
    decreases rows.len(),
{
    if rows.len() > 0 {
        let front = rows.drop_last();
        let ranked = newest_first(front);
        let out = newest_first(rows);
        lemma_newest_first(front);
        lemma_placed_ranked(ranked, rows.last());
        assert forall|i: int| 0 <= i < rows.len() implies out.contains(#[trigger] rows[i]) by {
            if i < rows.len() - 1 {
                assert(front[i] == rows[i]);
                let k = choose|k: int| 0 <= k < ranked.len() && ranked[k] == front[i];
                assert(out.contains(ranked[k]));
            }
        }
        assert forall|i: int| 0 <= i < out.len() implies rows.contains(#[trigger] out[i]) by {
            if out[i] == rows.last() {
                assert(rows[rows.len() - 1] == out[i]);
            } else {
                let k = choose|k: int| 0 <= k < ranked.len() && ranked[k] == out[i];
                let f = choose|f: int| 0 <= f < front.len() && front[f] == ranked[k];
                assert(rows[f] == out[i]);
            }
        }
    }
}

/// What the retention query promises of its answer: no row older than the
/// window, no more rows than the limit, newest first, every row one of the
/// log, and no recent row left out while there is room.
pub proof fn lemma_recent_rows(rows: Seq<LogRowView>, now: u64, window: u64, limit: nat)
    ensures
        recent_rows(rows, now, window, limit).len() <= limit,
        recent_rows(rows, now, window, limit).len() <= rows.len(),
        runs_newest_first(recent_rows(rows, now, window, limit)),
        forall|i: int|
            0 <= i < recent_rows(rows, now, window, limit).len() ==> is_recent(
                #[trigger] recent_rows(rows, now, window, limit)[i],
                now,
                window,
            ) && rows.contains(recent_rows(rows, now, window, limit)[i]),
        forall|i: int|
            0 <= i < rows.len() && is_recent(#[trigger] rows[i], now, window) ==> recent_rows(
                rows,
                now,
                window,
                limit,
            ).len() == limit || recent_rows(rows, now, window, limit).contains(rows[i]),
{
    let keep = |r: LogRowView| is_recent(r, now, window);
    let kept = retained(rows, now, window);
    let ranked = newest_first(kept);
    let out = recent_rows(rows, now, window, limit);
    rows.lemma_filter_len(keep);
    lemma_newest_first(kept);
    assert forall|i: int| 0 <= i < out.len() implies is_recent(#[trigger] out[i], now, window)
        && rows.contains(out[i]) by {
        assert(out[i] == ranked[i]);
        assert(kept.contains(ranked[i]));
        let k = choose|k: int| 0 <= k < kept.len() && kept[k] == ranked[i];
        rows.lemma_filter_pred(keep, k);
        rows.lemma_filter_contains_rev(keep, kept[k]);
    }
    assert forall|i: int| 0 <= i < rows.len() && is_recent(#[trigger] rows[i], now, window) implies out.len()
        == limit || out.contains(rows[i]) by {
        if out.len() != limit {
            assert(out == ranked);
            rows.lemma_filter_contains(keep, i);
            let k = choose|k: int| 0 <= k < kept.len() && kept[k] == rows[i];
            assert(ranked.contains(kept[k]));
        }
    }
}

/// The oldest time of writing that is still recent at `now`: `window`
/// seconds earlier, and the epoch where the clock has not got that far.
pub fn retention_cutoff(now: u64, window: u64) -> (cutoff: u64)
    ensures
        cutoff == (if now >= window {
            now - window
        } else {
            0
        }),
        forall|row: LogRowView| is_recent(row, now, window) <==> row.timestamp >= cutoff,
{
    if now >= window {
        now - window
    } else {
        0
    }
}

/// The retention query over a log held in memory: the rows written within
/// `window` seconds before `now`, newest first, cut to `limit` rows. Rows
/// written at the same second keep the order of the log.
pub fn recent_activity(rows: &Vec<UsageLogRow>, now: u64, window: u64, limit: usize) -> (recent:
    Vec<UsageLogRow>)
    ensures
        row_views(recent@) == recent_rows(row_views(rows@), now, window, limit as nat),
        recent.len() <= limit,
        forall|i: int| 0 <= i < recent.len() ==> (#[trigger] recent[i]).timestamp >= now - window,
        forall|i: int, j: int|
            0 <= i < j < recent.len() ==> recent[i].timestamp >= recent[j].timestamp,
{
    let ghost all = row_views(rows@);
    let ghost keep = |r: LogRowView| is_recent(r, now, window);
    let cutoff = retention_cutoff(now, window);
    let mut recent: Vec<UsageLogRow> = Vec::new();
    let mut i: usize = 0;
    while i < rows.len()
        invariant
            i <= rows.len(),
            forall|row: LogRowView| is_recent(row, now, window) <==> row.timestamp >= cutoff,
            all == row_views(rows@),
            keep == |r: LogRowView| is_recent(r, now, window),
            row_views(recent@) == newest_first(retained(all.take(i as int), now, window)),
        decreases rows.len() - i,
    {
        let ghost upto = all.take(i + 1);
        let ghost ranked = row_views(recent@);
        proof {
            assert(upto.drop_last() =~= all.take(i as int));
            assert(upto.last() == rows[i as int]@);
            assert(upto.filter(keep) == if keep(upto.last()) {
                upto.drop_last().filter(keep).push(upto.last())
            } else {
                upto.drop_last().filter(keep)
            }) by {
                reveal(Seq::filter);
            }
            lemma_newest_first(retained(all.take(i as int), now, window));
        }
        if rows[i].timestamp >= cutoff {
            let stamp: u64 = rows[i].timestamp;
            let mut at: usize = 0;
            while at < recent.len() && recent[at].timestamp >= stamp
                invariant
                    at <= recent.len(),
                    ranked == row_views(recent@),
                    forall|j: int| 0 <= j < at ==> ranked[j].timestamp >= stamp,
                decreases recent.len() - at,
            {
                proof {
                    assert(ranked[at as int] == recent[at as int]@);
                }
                at += 1;
            }
            proof {
                assert forall|j: int| at <= j < ranked.len() implies ranked[j].timestamp
                    < stamp by {
                    assert(ranked[at as int] == recent[at as int]@);
                }
                lemma_placed_at(ranked, rows[i as int]@, at as int);
                let kept = retained(upto, now, window);
                assert(kept.drop_last() =~= retained(all.take(i as int), now, window));
                assert(kept.last() == rows[i as int]@);
            }
            let copy = rows[i].duplicate();
            recent.insert(at, copy);
            proof {
                assert(row_views(recent@) =~= ranked.insert(at as int, rows[i as int]@));
            }
        }
        i += 1;
    }
    proof {
        assert(all.take(rows.len() as int) =~= all);
    }
    let ghost ranked = row_views(recent@);
    recent.truncate(limit);
    proof {
        assert(row_views(recent@) =~= at_most(ranked, limit as nat));
        lemma_recent_rows(all, now, window, limit as nat);
        assert forall|i: int| 0 <= i < recent.len() implies (#[trigger] recent[i]).timestamp >= now
            - window by {
            assert(row_views(recent@)[i] == recent[i]@);
        }
        assert forall|i: int, j: int| 0 <= i < j < recent.len() implies recent[i].timestamp
            >= recent[j].timestamp by {
            assert(row_views(recent@)[i] == recent[i]@);
            assert(row_views(recent@)[j] == recent[j]@);
        }
    }
    recent
}

} // verus!
