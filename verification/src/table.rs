//! The table behind the activity store: a `hashbrown::HashMap` from
//! activity key to live record.
//!
//! Verus does not look inside the map. What the map holds is given a name,
//! `table_contents`, and each function below states what one method of the
//! map does to it. These statements are taken on trust; everything built on
//! them is proved.

use crate::store::{ActiveRecord, Records};
use vstd::prelude::*;

verus! {

/// A `hashbrown::HashMap<String, ActiveRecord>`.
#[verifier::external_body]
pub struct RecordTable {
    inner: hashbrown::HashMap<String, ActiveRecord>,
}

/// What a table holds: the record stored under each key, keys taken as
/// sequences of characters.
pub uninterp spec fn table_contents(table: RecordTable) -> Map<Seq<char>, ActiveRecord>;

/// Keys as sequences of characters.
pub open spec fn key_views(keys: Seq<String>) -> Seq<Seq<char>> {
    keys.map_values(|k: String| k@)
}

/// `hashbrown::HashMap::new`: the new map holds nothing.
#[verifier::external_body]
pub(crate) fn table_new() -> (made: RecordTable)
    ensures
        table_contents(made) == Records::empty(),
{
    RecordTable { inner: hashbrown::HashMap::new() }
}

/// `hashbrown::HashMap::len`: the number of keys that the map holds.
#[verifier::external_body]
pub(crate) fn table_len(table: &RecordTable) -> (n: usize)
    ensures
        n == table_contents(*table).dom().len(),
{
    table.inner.len()
}

/// `hashbrown::HashMap::get`: the record stored under `key`, if the map has
/// that key. The record is handed out as a copy.
#[verifier::external_body]
pub(crate) fn table_get(table: &RecordTable, key: &str) -> (found: Option<ActiveRecord>)
    ensures
        found == (if table_contents(*table).contains_key(key@) {
            Some(table_contents(*table)[key@])
        } else {
            None
        }),
{
    table.inner.get(key).copied()
}

/// `hashbrown::HashMap::insert`: afterwards `key` maps to `record`, whether
/// or not the map had the key, and every other key is as before.
#[verifier::external_body]
pub(crate) fn table_insert(table: &mut RecordTable, key: String, record: ActiveRecord)
    ensures
        table_contents(*final(table)) == table_contents(*old(table)).insert(key@, record),
{
    table.inner.insert(key, record);
}

/// `hashbrown::HashMap::keys`: every key of the map, each once. The order
/// is the map's own and nothing is said of it.
#[verifier::external_body]
pub(crate) fn table_keys(table: &RecordTable) -> (keys: Vec<String>)
    ensures
        key_views(keys@).no_duplicates(),
        key_views(keys@).to_set() == table_contents(*table).dom(),
{
    table.inner.keys().cloned().collect()
}

} // verus!
