use telemetry_relay::store::{put_data_in_database, StoreError, TimeSeriesStore};
use telemetry_relay::table_entree::TableEntree;

fn fresh_database(min_time_between_cleans: u32) -> TimeSeriesStore {
    let mut db = TimeSeriesStore::new(min_time_between_cleans);
    db.clear_database();
    db
}

#[test]
fn test_clean_and_new() {
    let mut database = fresh_database(2);
    database.add_value(TableEntree::new("test".to_string(), "test".to_string(), 1));
    drop(database);

    let database = fresh_database(2);

    assert_eq!(database.length(), 0);
}

#[test]
fn test_topic_length() {
    let mut database = put_data_in_database(fresh_database(2), 5, 1);
    database.add_value(TableEntree::new("test1".to_string(), "test".to_string(), 1));
    assert_eq!(database.topic_length("test"), 5);
}

#[test]
fn test_length() {
    let database = put_data_in_database(fresh_database(2), 5, 1);
    assert_eq!(database.length(), 5);
}

#[test]
fn test_add_value() {
    let mut database = fresh_database(2);
    database.add_value(TableEntree::new("test".to_string(), "test".to_string(), 1));

    assert!(database.get_value("test").is_ok());
}

#[test]
fn test_get_values() {
    let database = put_data_in_database(fresh_database(2), 5, 1);
    let values = database.get_values("test", 2, 5);
    assert_eq!(values.len(), 3);
}

#[test]
fn test_get_values_no_time() {
    let database = put_data_in_database(fresh_database(2), 5, 1);
    let values = database.get_values_no_time("test", 5);
    assert_eq!(values.len(), 5);
}

#[test]
fn database_test_clean_database() {
    let mut database = put_data_in_database(fresh_database(2), 5, 1);
    database.clean_database();

    assert_eq!(database.length(), 2);
}

#[test]
fn retention_leaves_newest_two() {
    // Timestamps 0..=4 on "test", window 2, cursor 4: the trim must keep
    // exactly the rows with timestamps 3 and 4.
    let mut database = put_data_in_database(fresh_database(2), 5, 1);
    database.clean_database();

    let remaining = database.get_values_no_time("test", 10);
    assert_eq!(remaining.len(), 2);
    assert_eq!(remaining[0].timestamp, 4);
    assert_eq!(remaining[1].timestamp, 3);
}

#[test]
fn retention_trim_twice_removes_nothing() {
    let mut database = put_data_in_database(fresh_database(2), 5, 1);
    database.clean_database();
    let after_first = database.length();
    database.clean_database();
    assert_eq!(database.length(), after_first);
}

#[test]
fn query_window_newest_first_exact() {
    // Timestamps 0..=4 on "test": a window of age 2 and limit 5 must return
    // exactly [4, 3, 2], newest first.
    let database = put_data_in_database(fresh_database(2), 5, 1);
    let values = database.get_values("test", 2, 5);
    assert_eq!(values.len(), 3);
    assert_eq!(values[0].timestamp, 4);
    assert_eq!(values[1].timestamp, 3);
    assert_eq!(values[2].timestamp, 2);
    for v in &values {
        assert_eq!(v.topic, "test");
    }
}

#[test]
fn query_window_limits_count() {
    let database = put_data_in_database(fresh_database(2), 5, 1);
    let values = database.get_values_no_time("test", 3);
    assert_eq!(values.len(), 3);
    assert_eq!(values[0].timestamp, 4);
    assert_eq!(values[1].timestamp, 3);
    assert_eq!(values[2].timestamp, 2);
}

#[test]
fn query_window_filters_topic() {
    let mut database = fresh_database(2);
    database.add_value(TableEntree::new("alpha".to_string(), "1".to_string(), 1));
    database.add_value(TableEntree::new("beta".to_string(), "2".to_string(), 2));
    database.add_value(TableEntree::new("alpha".to_string(), "3".to_string(), 3));
    let values = database.get_values_no_time("alpha", 10);
    assert_eq!(values.len(), 2);
    assert_eq!(values[0].timestamp, 3);
    assert_eq!(values[1].timestamp, 1);
    assert_eq!(values[0].topic, "alpha");
    assert_eq!(values[1].topic, "alpha");
}

#[test]
fn query_window_equal_timestamps_latest_insertion_first() {
    // Duplicate (topic, timestamp) pairs are allowed; among equal timestamps
    // the row inserted later comes first.
    let mut database = fresh_database(2);
    database.add_value(TableEntree::new("test".to_string(), "first".to_string(), 7));
    database.add_value(TableEntree::new("test".to_string(), "second".to_string(), 7));
    database.add_value(TableEntree::new("test".to_string(), "third".to_string(), 7));
    let values = database.get_values_no_time("test", 10);
    assert_eq!(values.len(), 3);
    assert_eq!(values[0].value, "third");
    assert_eq!(values[1].value, "second");
    assert_eq!(values[2].value, "first");
}

#[test]
fn get_value_returns_newest_row() {
    let mut database = fresh_database(2);
    database.add_value(TableEntree::new("test".to_string(), "old".to_string(), 1));
    database.add_value(TableEntree::new("test".to_string(), "new".to_string(), 9));
    let row = database.get_value("test").unwrap();
    assert_eq!(row.timestamp, 9);
    assert_eq!(row.value, "new");
}

#[test]
fn get_value_not_found_on_missing_topic() {
    let database = fresh_database(2);
    assert!(matches!(database.get_value("absent"), Err(StoreError::NotFound)));
}

#[test]
fn clear_empties_every_topic() {
    let mut database = fresh_database(2);
    database.add_value(TableEntree::new("one".to_string(), "a".to_string(), 1));
    database.add_value(TableEntree::new("two".to_string(), "b".to_string(), 2));
    database.add_value(TableEntree::new("one".to_string(), "c".to_string(), 3));
    database.clear_database();
    assert_eq!(database.length(), 0);
    assert_eq!(database.topic_length("one"), 0);
    assert_eq!(database.topic_length("two"), 0);
}

#[test]
fn trim_window_larger_than_cursor_clamps_to_zero() {
    // The cutoff is clamped at zero, so a window wider than the cursor still
    // deletes the rows with timestamp zero and keeps the rest.
    let mut database = fresh_database(2);
    database.add_value(TableEntree::new("test".to_string(), "a".to_string(), 0));
    database.add_value(TableEntree::new("test".to_string(), "b".to_string(), 1));
    database.add_value(TableEntree::new("test".to_string(), "c".to_string(), 2));
    database.clean_database_time(5);
    let values = database.get_values_no_time("test", 10);
    assert_eq!(values.len(), 2);
    assert_eq!(values[0].timestamp, 2);
    assert_eq!(values[1].timestamp, 1);
}

#[test]
fn last_write_wins_retention_cursor() {
    // The cursor follows the latest append even when its timestamp is
    // smaller, so a trim measures age against that smaller cursor.
    let mut database = fresh_database(0);
    database.add_value(TableEntree::new("test".to_string(), "a".to_string(), 10));
    database.add_value(TableEntree::new("test".to_string(), "b".to_string(), 3));
    database.clean_database_time(1);
    // cutoff = 3 - 1 = 2: both rows survive
    assert_eq!(database.length(), 2);
    database.clean_database_time(0);
    // cutoff = 3: only the row with timestamp 10 survives
    let values = database.get_values_no_time("test", 10);
    assert_eq!(values.len(), 1);
    assert_eq!(values[0].timestamp, 10);
}

#[test]
fn query_window_on_empty_store() {
    let database = fresh_database(2);
    assert!(database.get_values("test", 0, 10).is_empty());
    assert!(database.get_values_no_time("test", 10).is_empty());
    assert_eq!(database.length(), 0);
}

#[test]
fn query_window_zero_limit() {
    let database = put_data_in_database(fresh_database(2), 5, 1);
    assert!(database.get_values_no_time("test", 0).is_empty());
}

#[test]
fn error_row_shape() {
    let row = TableEntree::get_error();
    assert_eq!(row.topic, "ERROR");
    assert_eq!(row.value, "ERROR");
    assert_eq!(row.timestamp, 0);
}
