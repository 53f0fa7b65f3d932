use vstd::prelude::*;

use crate::codes::{Error, Success};
use crate::store::{clamped_sub, newest_first_matches, trimmed, window_spec, TimeSeriesStore};
use crate::table_entree::TableEntree;

verus! {

/// The windowed-read endpoint core: a missing amount is a bad request and is
/// answered at once with its error code; otherwise the store is read with
/// the given age cutoff, or with none when no cutoff was sent.
pub fn get_entries(
    database: &TimeSeriesStore,
    topic: &str,
    amount: Option<u32>,
    time_since_last_update: Option<u32>,
) -> (r: Result<Vec<TableEntree>, Error>)
    ensures
        amount is None ==> r == Err::<Vec<TableEntree>, Error>(Error::DatabaseInvalidAmountError(
            1,
        )),
        amount is Some && time_since_last_update is Some ==> r is Ok && r->Ok_0@ == window_spec(
            database.rows_model(),
            topic@,
            clamped_sub(database.spec_last_update(), time_since_last_update->0),
            amount->0,
        ),
        amount is Some && time_since_last_update is None ==> r is Ok && r->Ok_0@ == window_spec(
            database.rows_model(),
            topic@,
            0u32,
            amount->0,
        ),
{
    match amount {
        None => Err(Error::new(&Error::DatabaseInvalidAmountError(-1))),
        Some(amount) => {
            let values = match time_since_last_update {
                Some(time) => database.get_values(topic, time, amount),
                None => database.get_values_no_time(topic, amount),
            };
            Ok(values)
        },
    }
}

/// The latest-row endpoint core: the newest row of the topic, or nothing
/// when the topic has no rows.
pub fn get_entry(database: &TimeSeriesStore, topic: &str) -> (r: Option<TableEntree>)
    ensures
        newest_first_matches(database.rows_model(), topic@, 0u32).len() > 0 ==> r == Some(
            newest_first_matches(database.rows_model(), topic@, 0u32)[0],
        ),
        newest_first_matches(database.rows_model(), topic@, 0u32).len() == 0 ==> r is None,
{
    match database.get_value(topic) {
        Ok(topic_value) => Some(topic_value),
        Err(_) => None,
    }
}

/// Like `get_entry`, but a topic without rows is answered with the
/// placeholder error row instead of nothing.
pub fn get_entree(database: &TimeSeriesStore, topic: &str) -> (r: TableEntree)
    ensures
        newest_first_matches(database.rows_model(), topic@, 0u32).len() > 0 ==> r
            == newest_first_matches(database.rows_model(), topic@, 0u32)[0],
        newest_first_matches(database.rows_model(), topic@, 0u32).len() == 0 ==> r.topic@
            == "ERROR"@ && r.value@ == "ERROR"@ && r.timestamp == 0u32,
{
    match database.get_value(topic) {
        Ok(topic_value) => topic_value,
        Err(_) => TableEntree::get_error(),
    }
}

/// The read-then-trim endpoint core: look the topic up first, then trim with
/// the given window, or with the configured one when none was sent, and
/// answer with the row as it stood before the trim.
pub fn get_entry_and_clean(
    database: &mut TimeSeriesStore,
    topic: &str,
    time_since_last_update: Option<u32>,
) -> (r: Option<TableEntree>)
    ensures
        newest_first_matches(old(database).rows_model(), topic@, 0u32).len() > 0 ==> r == Some(
            newest_first_matches(old(database).rows_model(), topic@, 0u32)[0],
        ),
        newest_first_matches(old(database).rows_model(), topic@, 0u32).len() == 0 ==> r is None,
        final(database).rows_model() == trimmed(
            old(database).rows_model(),
            clamped_sub(
                old(database).spec_last_update(),
                match time_since_last_update {
                    Some(time) => time,
                    None => old(database).spec_min_window(),
                },
            ),
        ),
        final(database).spec_last_update() == old(database).spec_last_update(),
        final(database).spec_min_window() == old(database).spec_min_window(),
{
    let topic_value = database.get_value(topic);
    match time_since_last_update {
        Some(time) => database.clean_database_time(time),
        None => database.clean_database(),
    }
    match topic_value {
        Ok(topic_value) => Some(topic_value),
        Err(_) => None,
    }
}

/// The trim endpoint core: trim with the configured window and report
/// success.
pub fn clean_whole_database(database: &mut TimeSeriesStore) -> (r: Result<Success, Error>)
    ensures
        r == Ok::<Success, Error>(Success::DatabaseCleaningSuccess()),
        final(database).rows_model() == trimmed(
            old(database).rows_model(),
            clamped_sub(old(database).spec_last_update(), old(database).spec_min_window()),
        ),
        final(database).spec_last_update() == old(database).spec_last_update(),
        final(database).spec_min_window() == old(database).spec_min_window(),
{
    database.clean_database();
    Ok(Success::DatabaseCleaningSuccess())
}

/// The clear endpoint core: delete every row and report success.
pub fn clear_database(database: &mut TimeSeriesStore) -> (r: Result<Success, Error>)
    ensures
        r == Ok::<Success, Error>(Success::DatabaseClearingSuccess()),
        final(database).rows_model() == Seq::<TableEntree>::empty(),
        final(database).spec_last_update() == old(database).spec_last_update(),
        final(database).spec_min_window() == old(database).spec_min_window(),
{
    database.clear_database();
    Ok(Success::DatabaseClearingSuccess())
}

} // verus!
