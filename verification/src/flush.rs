//! The flush: what a cycle writes to the usage log.
//!
//! A cycle drains the store and writes one row for each active key that has
//! been active for at least a second. The caller writes the rows of one
//! cycle together, all or none, after it has let go of the store.
//!
//! The duration of a row counts from the start of the activation, not from
//! the row before it. A key that stays active over several cycles therefore
//! gets a row in each, every one with the whole time so far, and only the
//! last row of an activation tells how long it lasted. Adding the rows up
//! counts time more than once.

use crate::identity::{decompose, spec_decompose};
use crate::log::{row_views, LogRowView, UsageLogRow};
use crate::store::{
    active_spans, lemma_focus_is, lemma_observed_single_focus, observed, span_views, well_formed,
    ActivityStore, Records,
};
use vstd::prelude::*;

verus! {

/// The row written for a key that has been active for `span.1` seconds.
/// The title column takes the detail of the key, and the address column
/// takes it too where the detail is an address.
pub open spec fn row_for(span: (Seq<char>, u64), now: u64) -> LogRowView {
    let parts = spec_decompose(span.0);
    LogRowView {
        identifier: span.0,
        app_name: parts.app_name,
        window_title: parts.detail,
        url: if parts.is_url {
            Some(parts.detail)
        } else {
            None
        },
        timestamp: now,
        duration: span.1,
    }
}

/// The rows of one cycle: one for each span of at least a second, in order.
pub open spec fn spec_flush_rows(spans: Seq<(Seq<char>, u64)>, now: u64) -> Seq<LogRowView> {
    spans.filter(|s: (Seq<char>, u64)| s.1 > 0).map_values(|s: (Seq<char>, u64)| row_for(s, now))
}

/// The rows of the cycle at `now` for what was drained at `now`. Spans of
/// zero seconds give no row.
pub fn flush_rows(spans: &Vec<(String, u64)>, now: u64) -> (rows: Vec<UsageLogRow>)
    ensures
        row_views(rows@) == spec_flush_rows(span_views(spans@), now),
{
    let mut rows: Vec<UsageLogRow> = Vec::new();
    let mut i: usize = 0;
    while i < spans.len()
        invariant
            i <= spans.len(),
            row_views(rows@) == spec_flush_rows(span_views(spans@).take(i as int), now),
        decreases spans.len() - i,
    {
        let ghost upto = span_views(spans@).take(i + 1);
        let ghost keep = |s: (Seq<char>, u64)| s.1 > 0;
        proof {
            assert(upto.drop_last() =~= span_views(spans@).take(i as int));
            assert(upto.last() == (spans[i as int].0@, spans[i as int].1));
            assert(upto.filter(keep) == if keep(upto.last()) {
                upto.drop_last().filter(keep).push(upto.last())
            } else {
                upto.drop_last().filter(keep)
            }) by {
                reveal(Seq::filter);
            }
        }
        if spans[i].1 > 0 {
            let parts = decompose(spans[i].0.as_str());
            let url = if parts.is_url {
                Some(parts.detail.clone())
            } else {
                None
            };
            let ghost earlier = rows@;
            rows.push(
                UsageLogRow {
                    identifier: spans[i].0.clone(),
                    app_name: parts.app_name,
                    window_title: parts.detail,
                    url,
                    timestamp: now,
                    duration: spans[i].1,
                },
            );
            proof {
                assert(rows@.last()@ == row_for(upto.last(), now));
                assert(row_views(rows@) =~= row_views(earlier).push(row_for(upto.last(), now)));
                assert(spec_flush_rows(upto, now) =~= spec_flush_rows(upto.drop_last(), now).push(
                    row_for(upto.last(), now),
                ));
            }
        }
        i += 1;
    }
    proof {
        assert(span_views(spans@).take(spans.len() as int) =~= span_views(spans@));
    }
    rows
}

/// One cycle at `now`: drains the store and gives the rows to write. The
/// store is only read, so the caller can let go of it before it writes.
pub fn flush_cycle(store: &ActivityStore, now: u64) -> (rows: Vec<UsageLogRow>)
    requires
        store.wf(),
    ensures
        row_views(rows@) == spec_flush_rows(active_spans(store@, now), now),
{
    let spans = store.drain(now);
    flush_rows(&spans, now)
}

/// A cycle that runs no later than the moment a key was activated writes
/// nothing: the one active key has no second to its name yet.
pub proof fn lemma_flush_after_activation_is_empty(m: Records, key: Seq<char>, now: u64, at: u64)
    requires
        well_formed(m),
        !(m.contains_key(key) && m[key].active),
        at <= now,
    ensures
        spec_flush_rows(active_spans(observed(m, key, now), at), at) == Seq::<LogRowView>::empty(),
{
    let after = observed(m, key, now);
    lemma_observed_single_focus(m, key, now);
    let spans = active_spans(after, at);
    assert(spans == seq![(key, 0u64)]);
    let keep = |s: (Seq<char>, u64)| s.1 > 0;
    assert(spans.filter(keep) =~= Seq::<(Seq<char>, u64)>::empty()) by {
        reveal(Seq::filter);
        assert(spans.drop_last() =~= Seq::<(Seq<char>, u64)>::empty());
        assert(spans.drop_last().filter(keep) =~= Seq::<(Seq<char>, u64)>::empty());
    }
    assert(spec_flush_rows(spans, at) =~= Seq::<LogRowView>::empty());
}

/// A cycle at `at`, later than the start of the activation of the key in
/// focus, writes exactly one row, and its duration is the whole time since
/// that start. Two cycles with no observation between them see the same
/// records, so each writes the time since the same start: the durations are
/// cumulative.
pub proof fn lemma_flush_counts_from_activation(m: Records, key: Seq<char>, at: u64)
    requires
        well_formed(m),
        m.contains_key(key),
        m[key].active,
        at > m[key].active_since,
    ensures
        spec_flush_rows(active_spans(m, at), at) == seq![
            row_for((key, (at - m[key].active_since) as u64), at),
        ],
{
    lemma_focus_is(m, key);
    let span = (key, (at - m[key].active_since) as u64);
    let spans = active_spans(m, at);
    assert(spans == seq![span]);
    let keep = |s: (Seq<char>, u64)| s.1 > 0;
    assert(spans.filter(keep) =~= spans) by {
        reveal(Seq::filter);
        assert(spans.drop_last() =~= Seq::<(Seq<char>, u64)>::empty());
        assert(spans.drop_last().filter(keep) =~= Seq::<(Seq<char>, u64)>::empty());
        assert(spans.last() == span);
    }
    assert(spec_flush_rows(spans, at) =~= seq![row_for(span, at)]);
}

} // verus!
