use vstd::prelude::*;

use crate::store::{clamped_sub, newest_first_matches, trimmed, TimeSeriesStore};
use crate::table_entree::TableEntree;

verus! {

/// The body of a plain lookup request: only the topic.
#[derive(Debug)]
pub struct Topic {
    pub topic: String,
}

/// The lookup endpoint core: the newest row of the requested topic, or the
/// placeholder error row when the topic has no rows.
pub fn get_entree(database: &TimeSeriesStore, table_topic: &Topic) -> (r: TableEntree)
    ensures
        newest_first_matches(database.rows_model(), table_topic.topic@, 0u32).len() > 0 ==> r
            == newest_first_matches(database.rows_model(), table_topic.topic@, 0u32)[0],
        newest_first_matches(database.rows_model(), table_topic.topic@, 0u32).len() == 0
            ==> r.topic@ == "ERROR"@ && r.value@ == "ERROR"@ && r.timestamp == 0u32,
{
    crate::api::get_entree(database, table_topic.topic.as_str())
}

/// The trim endpoint core: trim with the configured window.
pub fn clean_database(database: &mut TimeSeriesStore)
    ensures
        final(database).rows_model() == trimmed(
            old(database).rows_model(),
            clamped_sub(old(database).spec_last_update(), old(database).spec_min_window()),
        ),
        final(database).spec_last_update() == old(database).spec_last_update(),
        final(database).spec_min_window() == old(database).spec_min_window(),
{
    database.clean_database();
}

} // verus!
