//! The activity store: the live record of every key seen so far, with at
//! most one of them in focus.

use crate::table::{
    key_views, table_contents, table_get, table_insert, table_keys, table_len, table_new,
    RecordTable,
};
use vstd::prelude::*;

verus! {

/// The live state of one activity key.
#[derive(Clone, Copy, Debug, PartialEq, Eq, Structural)]
pub struct ActiveRecord {
    /// Whether the key has the focus now.
    pub active: bool,
    /// When the key was last observed.
    pub last_seen: u64,
    /// When the current activation began.
    pub active_since: u64,
}

/// The records of a store, by key.
pub type Records = Map<Seq<char>, ActiveRecord>;

/// At most one key is active.
pub open spec fn single_focus(m: Records) -> bool {
    forall|a: Seq<char>, b: Seq<char>|
        m.contains_key(a) && m[a].active && m.contains_key(b) && m[b].active ==> a == b
}

/// What every store satisfies: finitely many keys, at most one in focus.
pub open spec fn well_formed(m: Records) -> bool {
    m.dom().finite() && single_focus(m)
}

/// A record that begins an activation at `now`.
pub open spec fn fresh_at(now: u64) -> ActiveRecord {
    ActiveRecord { active: true, last_seen: now, active_since: now }
}

/// A record with the focus taken away; its times stay.
pub open spec fn quiet(r: ActiveRecord) -> ActiveRecord {
    ActiveRecord { active: false, last_seen: r.last_seen, active_since: r.active_since }
}

/// The record of `key` after it is observed at `now`: an active key keeps
/// the start of its activation, any other begins a new one.
pub open spec fn activated(m: Records, key: Seq<char>, now: u64) -> ActiveRecord {
    if m.contains_key(key) && m[key].active {
        ActiveRecord { active: true, last_seen: now, active_since: m[key].active_since }
    } else {
        fresh_at(now)
    }
}

/// The records after `key` is observed at `now`: `key` is active, and every
/// other key has lost the focus.
pub open spec fn observed(m: Records, key: Seq<char>, now: u64) -> Records {
    Map::new(
        |k: Seq<char>| k == key || m.contains_key(k),
        |k: Seq<char>|
            if k == key {
                activated(m, key, now)
            } else {
                quiet(m[k])
            },
    )
}

/// Seconds from `since` to `now`, and zero where the clock has gone back.
pub open spec fn elapsed_since(since: u64, now: u64) -> u64 {
    if now >= since {
        (now - since) as u64
    } else {
        0
    }
}

/// The key in focus, if there is one.
pub open spec fn focus(m: Records) -> Option<Seq<char>> {
    if exists|k: Seq<char>| m.contains_key(k) && m[k].active {
        Some(choose|k: Seq<char>| m.contains_key(k) && m[k].active)
    } else {
        None
    }
}

/// Keys with the seconds counted for them, keys as character sequences.
pub open spec fn span_views(spans: Seq<(String, u64)>) -> Seq<(Seq<char>, u64)> {
    spans.map_values(|s: (String, u64)| (s.0@, s.1))
}

/// The active keys with the seconds since each became active.
pub open spec fn active_spans(m: Records, now: u64) -> Seq<(Seq<char>, u64)> {
    match focus(m) {
        Some(k) => seq![(k, elapsed_since(m[k].active_since, now))],
        None => Seq::empty(),
    }
}

/// In a store with a single focus, an active key is the focus.
pub proof fn lemma_focus_is(m: Records, key: Seq<char>)
    requires
        single_focus(m),
        m.contains_key(key),
        m[key].active,
    ensures
        focus(m) == Some(key),
{
}

/// Observing a key leaves exactly that key active, whatever was there.
pub proof fn lemma_observed_single_focus(m: Records, key: Seq<char>, now: u64)
    ensures
        single_focus(observed(m, key, now)),
        focus(observed(m, key, now)) == Some(key),
        m.dom().finite() ==> observed(m, key, now).dom().finite(),
{
    let after = observed(m, key, now);
    assert(after.contains_key(key) && after[key].active);
    lemma_focus_is(after, key);
    assert(after.dom() =~= m.dom().insert(key));
}

/// The records after a run of observations, each a key and its time, made
/// in order.
pub open spec fn observed_all(m: Records, events: Seq<(Seq<char>, u64)>) -> Records
    decreases events.len(),
{
    if events.len() == 0 {
        m
    } else {
        observed(observed_all(m, events.drop_last()), events.last().0, events.last().1)
    }
}

/// However many observations are made, and of whatever keys, after each of
/// them the store is valid: at most one key is active.
pub proof fn lemma_single_focus_after_each(m: Records, events: Seq<(Seq<char>, u64)>)
    requires
        well_formed(m),
    ensures
        forall|n: int|
            0 <= n <= events.len() ==> well_formed(#[trigger] observed_all(m, events.take(n))),
    decreases events.len(),
{
    assert forall|n: int| 0 <= n <= events.len() implies well_formed(
        #[trigger] observed_all(m, events.take(n)),
    ) by {
        if n > 0 {
            let upto = events.take(n);
            lemma_single_focus_after_each(m, upto.drop_last());
            assert(upto.drop_last().take(n - 1) =~= upto.drop_last());
            lemma_observed_single_focus(
                observed_all(m, upto.drop_last()),
                upto.last().0,
                upto.last().1,
            );
        }
    }
}

/// A record that was loaded from the log: not active, both times at `at`.
pub open spec fn idle_at(at: u64) -> ActiveRecord {
    ActiveRecord { active: false, last_seen: at, active_since: at }
}

/// The records after loading `rows` in order. Each row, a key and a time,
/// puts an idle record under its key; a later row for a key replaces an
/// earlier one.
pub open spec fn restored(m: Records, rows: Seq<(Seq<char>, u64)>) -> Records
    decreases rows.len(),
{
    if rows.len() == 0 {
        m
    } else {
        restored(m, rows.drop_last()).insert(rows.last().0, idle_at(rows.last().1))
    }
}

/// `entries` lists the records of `m`: every key once with its record, in
/// some order.
pub open spec fn lists(entries: Seq<(String, ActiveRecord)>, m: Records) -> bool {
    &&& entries.len() == m.len()
    &&& forall|i: int|
        0 <= i < entries.len() ==> m.contains_key(#[trigger] entries[i].0@) && m[entries[i].0@]
            == entries[i].1
    &&& forall|i: int, j: int|
        0 <= i < j < entries.len() ==> #[trigger] entries[i].0@ != #[trigger] entries[j].0@
    &&& forall|k: Seq<char>|
        m.contains_key(k) ==> exists|i: int| 0 <= i < entries.len() && #[trigger] entries[i].0@ == k
}

/// The live records, one per key ever seen. Keys are never removed.
pub struct ActivityStore {
    table: RecordTable,
}

impl View for ActivityStore {
    type V = Records;

    closed spec fn view(&self) -> Records {
        table_contents(self.table)
    }
}

impl ActivityStore {
    /// The store is valid: finitely many keys, at most one in focus.
    pub open spec fn wf(&self) -> bool {
        well_formed(self@)
    }

    /// A store that has seen nothing.
    pub fn new() -> (store: ActivityStore)
        ensures
            store@ == Records::empty(),
            store.wf(),
    {
        ActivityStore { table: table_new() }
    }

    /// The number of keys ever seen, active or not.
    pub fn tracked_keys(&self) -> (n: usize)
        ensures
            n == self@.len(),
    {
        table_len(&self.table)
    }

    /// The record of one key, if the key was ever seen.
    pub fn record(&self, key: &str) -> (found: Option<ActiveRecord>)
        ensures
            found == (if self@.contains_key(key@) {
                Some(self@[key@])
            } else {
                None
            }),
    {
        table_get(&self.table, key)
    }

    /// Records that `key` has the focus at `now`.
    ///
    /// A key seen for the first time, or one that had lost the focus, begins
    /// a new activation at `now`; what was counted for an earlier activation
    /// is not carried over. A key that is active already only has its
    /// `last_seen` moved. Every other key loses the focus.
    pub fn observe(&mut self, key: String, now: u64)
        requires
            old(self).wf(),
        ensures
            final(self).wf(),
            final(self)@ == observed(old(self)@, key@, now),
            old(self)@.contains_key(key@) && !old(self)@[key@].active ==> final(self)@[key@]
                == fresh_at(now),
    {
        let ghost before = self@;
        let keys = table_keys(&self.table);
        let mut i: usize = 0;
        while i < keys.len()
            invariant
                i <= keys.len(),
                key_views(keys@).no_duplicates(),
                key_views(keys@).to_set() == before.dom(),
                well_formed(before),
                self@.dom() == before.dom(),
                forall|j: int|
                    0 <= j < keys.len() ==> #[trigger] self@[keys[j]@] == (if j < i && keys[j]@
                        != key@ {
                        quiet(before[keys[j]@])
                    } else {
                        before[keys[j]@]
                    }),
                forall|k: Seq<char>|
                    self@.contains_key(k) && self@[k].active ==> before.contains_key(k)
                        && before[k].active,
            decreases keys.len() - i,
        {
            let ghost at_entry = self@;
            proof {
                assert(key_views(keys@)[i as int] == keys[i as int]@);
                assert(key_views(keys@).to_set().contains(keys[i as int]@));
            }
            if !(keys[i] == key) {
                match table_get(&self.table, keys[i].as_str()) {
                    Some(r) => {
                        if r.active {
                            table_insert(
                                &mut self.table,
                                keys[i].clone(),
                                ActiveRecord {
                                    active: false,
                                    last_seen: r.last_seen,
                                    active_since: r.active_since,
                                },
                            );
                            proof {
                                assert(self@ == at_entry.insert(keys[i as int]@, quiet(r)));
                                assert(self@.dom() =~= before.dom());
                            }
                        }
                    },
                    None => {},
                }
            }
            proof {
                assert forall|j: int| 0 <= j < keys.len() implies #[trigger] self@[keys[j]@] == (if j
                    < i + 1 && keys[j]@ != key@ {
                    quiet(before[keys[j]@])
                } else {
                    before[keys[j]@]
                }) by {
                    assert(key_views(keys@)[j] == keys[j]@);
                    if j != i as int {
                        assert(key_views(keys@)[j] != key_views(keys@)[i as int]);
                        assert(self@[keys[j]@] == at_entry[keys[j]@]);
                    }
                }
            }
            i += 1;
        }
        let next = match table_get(&self.table, key.as_str()) {
            Some(r) => {
                if r.active {
                    ActiveRecord { active: true, last_seen: now, active_since: r.active_since }
                } else {
                    ActiveRecord { active: true, last_seen: now, active_since: now }
                }
            },
            None => ActiveRecord { active: true, last_seen: now, active_since: now },
        };
        let ghost swept = self@;
        proof {
            if before.contains_key(key@) {
                let j = choose|j: int|
                    0 <= j < key_views(keys@).len() && key_views(keys@)[j] == key@;
                assert(key_views(keys@)[j] == keys[j]@);
                assert(swept[keys[j]@] == before[key@]);
            }
            assert(next == activated(before, key@, now));
        }
        table_insert(&mut self.table, key, next);
        proof {
            let after = observed(before, key@, now);
            assert forall|k: Seq<char>| after.contains_key(k) implies #[trigger] self@[k]
                == after[k] by {
                if k != key@ {
                    let j = choose|j: int|
                        0 <= j < key_views(keys@).len() && key_views(keys@)[j] == k;
                    assert(key_views(keys@)[j] == keys[j]@);
                    assert(swept[keys[j]@] == quiet(before[k]));
                }
            }
            assert(self@ =~= after);
            lemma_observed_single_focus(before, key@, now);
        }
    }

    /// The active keys, each with the seconds since it became active.
    ///
    /// Nothing is changed: the start of the activation stays where it is, so
    /// a second call made later, with no observation between, counts from
    /// the same start and reports the larger figure. The seconds are never
    /// negative: a clock that has gone back gives zero.
    pub fn drain(&self, now: u64) -> (spans: Vec<(String, u64)>)
        requires
            self.wf(),
        ensures
            span_views(spans@) == active_spans(self@, now),
    {
        let keys = table_keys(&self.table);
        let mut spans: Vec<(String, u64)> = Vec::new();
        let mut i: usize = 0;
        while i < keys.len()
            invariant
                i <= keys.len(),
                self.wf(),
                key_views(keys@).no_duplicates(),
                key_views(keys@).to_set() == self@.dom(),
                spans.len() <= 1,
                spans.len() == 1 ==> exists|j: int|
                    0 <= j < i && #[trigger] self@[keys[j]@].active && spans[0].0@ == keys[j]@,
                forall|j: int|
                    0 <= j < i && #[trigger] self@[keys[j]@].active ==> spans.len() == 1
                        && spans[0].0@ == keys[j]@ && spans[0].1 == elapsed_since(
                        self@[keys[j]@].active_since,
                        now,
                    ),
            decreases keys.len() - i,
        {
            proof {
                assert(key_views(keys@)[i as int] == keys[i as int]@);
                assert(key_views(keys@).to_set().contains(keys[i as int]@));
            }
            match table_get(&self.table, keys[i].as_str()) {
                Some(r) => {
                    if r.active {
                        proof {
                            if spans.len() == 1 {
                                let j = choose|j: int|
                                    0 <= j < i && #[trigger] self@[keys[j]@].active && spans[0].0@
                                        == keys[j]@;
                                assert(key_views(keys@)[j] == keys[j]@);
                                assert(key_views(keys@)[j] != key_views(keys@)[i as int]);
                                assert(key_views(keys@).to_set().contains(keys[j]@));
                            }
                        }
                        let seconds: u64 = if now >= r.active_since {
                            now - r.active_since
                        } else {
                            0
                        };
                        spans.push((keys[i].clone(), seconds));
                    }
                },
                None => {},
            }
            i += 1;
        }
        proof {
            let m = self@;
            match focus(m) {
                Some(k) => {
                    let j = choose|j: int|
                        0 <= j < key_views(keys@).len() && key_views(keys@)[j] == k;
                    assert(key_views(keys@)[j] == keys[j]@);
                    assert(m[keys[j]@].active);
                    assert(span_views(spans@) =~= active_spans(m, now));
                },
                None => {
                    if spans.len() == 1 {
                        let j = choose|j: int|
                            0 <= j < i && #[trigger] m[keys[j]@].active && spans[0].0@ == keys[j]@;
                        assert(key_views(keys@)[j] == keys[j]@);
                        assert(key_views(keys@).to_set().contains(keys[j]@));
                    }
                    assert(span_views(spans@) =~= active_spans(m, now));
                },
            }
        }
        spans
    }

    /// A copy of every record, active or not, each with its key. The order
    /// is that of the table and nothing is said of it.
    pub fn snapshot(&self) -> (entries: Vec<(String, ActiveRecord)>)
        ensures
            lists(entries@, self@),
    {
        let keys = table_keys(&self.table);
        let mut entries: Vec<(String, ActiveRecord)> = Vec::new();
        let mut i: usize = 0;
        while i < keys.len()
            invariant
                i <= keys.len(),
                entries.len() == i,
                key_views(keys@).no_duplicates(),
                key_views(keys@).to_set() == self@.dom(),
                forall|j: int|
                    0 <= j < i ==> (#[trigger] entries[j]).0@ == keys[j]@ && self@.contains_key(
                        keys[j]@,
                    ) && entries[j].1 == self@[keys[j]@],
            decreases keys.len() - i,
        {
            proof {
                assert(key_views(keys@)[i as int] == keys[i as int]@);
                assert(key_views(keys@).to_set().contains(keys[i as int]@));
            }
            match table_get(&self.table, keys[i].as_str()) {
                Some(r) => {
                    entries.push((keys[i].clone(), r));
                },
                None => {
                    assert(false);
                },
            }
            i += 1;
        }
        proof {
            let m = self@;
            key_views(keys@).unique_seq_to_set();
            assert forall|a: int, b: int| 0 <= a < b < entries.len() implies #[trigger] entries[a].0@
                != #[trigger] entries[b].0@ by {
                assert(key_views(keys@)[a] == keys[a]@);
                assert(key_views(keys@)[b] == keys[b]@);
            }
            assert forall|k: Seq<char>| m.contains_key(k) implies exists|a: int|
                0 <= a < entries.len() && #[trigger] entries[a].0@ == k by {
                let j = choose|j: int|
                    0 <= j < key_views(keys@).len() && key_views(keys@)[j] == k;
                assert(key_views(keys@)[j] == keys[j]@);
                assert(entries[j].0@ == k);
            }
        }
        entries
    }

    /// Loads what an earlier run left in the log: each row, a key and the
    /// time of its entry, puts an idle record under its key. Rows are taken
    /// in order, so for a key with several rows the last one stays.
    pub fn restore(&mut self, rows: &Vec<(String, u64)>)
        requires
            old(self).wf(),
        ensures
            final(self).wf(),
            final(self)@ == restored(old(self)@, span_views(rows@)),
    {
        let ghost before = self@;
        let mut i: usize = 0;
        while i < rows.len()
            invariant
                i <= rows.len(),
                self.wf(),
                self@ == restored(before, span_views(rows@).take(i as int)),
            decreases rows.len() - i,
        {
            let ghost at_entry = self@;
            table_insert(
                &mut self.table,
                rows[i].0.clone(),
                ActiveRecord { active: false, last_seen: rows[i].1, active_since: rows[i].1 },
            );
            proof {
                let upto = span_views(rows@).take(i + 1);
                assert(upto.drop_last() =~= span_views(rows@).take(i as int));
                assert(upto.last() == (rows[i as int].0@, rows[i as int].1));
                assert(self@.dom() =~= at_entry.dom().insert(rows[i as int].0@));
            }
            i += 1;
        }
        proof {
            assert(span_views(rows@).take(rows.len() as int) =~= span_views(rows@));
        }
    }
}

} // verus!
