use vstd::prelude::*;

use crate::table_entree::TableEntree;

verus! {

/// Error returned by lookups that found nothing.
#[derive(Debug, Clone, Copy, PartialEq, Eq, Structural)]
pub enum StoreError {
    NotFound,
}

/// `base - delta`, clamped at zero so the subtraction never wraps.
pub open spec fn clamped_sub(base: u32, delta: u32) -> u32 {
    if delta >= base {
        0u32
    } else {
        (base - delta) as u32
    }
}

/// Whether a stored row belongs to `topic` and is no older than `thr`.
pub open spec fn row_matches(r: TableEntree, topic: Seq<char>, thr: u32) -> bool {
    r.topic@ == topic && r.timestamp >= thr
}

/// A row survives a trim with cutoff `thr` when it is strictly newer.
pub open spec fn survives(r: TableEntree, thr: u32) -> bool {
    r.timestamp > thr
}

/// The rows that a trim with cutoff `thr` keeps, in their stored order.
pub open spec fn trimmed(rows: Seq<TableEntree>, thr: u32) -> Seq<TableEntree> {
    rows.filter(|r: TableEntree| survives(r, thr))
}

/// Insert `r` into a newest-first sequence: `r` lands behind every row whose
/// timestamp is at least its own, so of two equally timed rows the one
/// inserted later stands behind the one inserted earlier.
pub open spec fn insert_newest_first(s: Seq<TableEntree>, r: TableEntree) -> Seq<TableEntree>
    decreases s.len(),
{
    if s.len() == 0 {
        seq![r]
    } else if s[0].timestamp >= r.timestamp {
        seq![s[0]] + insert_newest_first(s.skip(1), r)
    } else {
        seq![r] + s
    }
}

/// All rows of `rows` that match `topic` at cutoff `thr`, ordered newest
/// first; rows with equal timestamps keep descending insertion order.
/// `rows[0]` is the oldest stored row, so it is placed last among its peers.
pub open spec fn newest_first_matches(rows: Seq<TableEntree>, topic: Seq<char>, thr: u32) -> Seq<
    TableEntree,
>
    decreases rows.len(),
{
    if rows.len() == 0 {
        Seq::empty()
    } else {
        let rest = newest_first_matches(rows.skip(1), topic, thr);
        if row_matches(rows[0], topic, thr) {
            insert_newest_first(rest, rows[0])
        } else {
            rest
        }
    }
}

/// How many rows of `rows` match `topic` at cutoff `thr`.
pub open spec fn count_matching(rows: Seq<TableEntree>, topic: Seq<char>, thr: u32) -> nat
    decreases rows.len(),
{
    if rows.len() == 0 {
        0nat
    } else {
        (if row_matches(rows[0], topic, thr) {
            1nat
        } else {
            0nat
        }) + count_matching(rows.skip(1), topic, thr)
    }
}

/// The newest-first matching rows, cut down to at most `max_count`.
pub open spec fn window_spec(
    rows: Seq<TableEntree>,
    topic: Seq<char>,
    thr: u32,
    max_count: u32,
) -> Seq<TableEntree> {
    let all = newest_first_matches(rows, topic, thr);
    if all.len() <= max_count {
        all
    } else {
        all.take(max_count as int)
    }
}

/// A sequence of rows ordered by non-increasing timestamp.
pub open spec fn sorted_newest_first(s: Seq<TableEntree>) -> bool {
    forall|i: int, j: int| 0 <= i <= j < s.len() ==> #[trigger] s[i].timestamp >= #[trigger] s[j].timestamp
}

/// Append-only history of telemetry rows with windowed reads and retention
/// trimming. Retention is measured against one cursor shared by all topics:
/// `last_update` is whatever timestamp the most recent append carried.
pub struct TimeSeriesStore {
    rows: Vec<TableEntree>,
    last_update: u32,
    min_time_between_cleans: u32,
}

impl TimeSeriesStore {
    /// The stored rows, oldest first.
    pub closed spec fn rows_model(&self) -> Seq<TableEntree> {
        self.rows@
    }

    /// The timestamp carried by the most recent append.
    pub closed spec fn spec_last_update(&self) -> u32 {
        self.last_update
    }

    /// The configured minimum retention window.
    pub closed spec fn spec_min_window(&self) -> u32 {
        self.min_time_between_cleans
    }

    pub fn new(min_time_between_cleans: u32) -> (s: Self)
        ensures
            s.rows_model() == Seq::<TableEntree>::empty(),
            s.spec_last_update() == 0u32,
            s.spec_min_window() == min_time_between_cleans,
    {
        TimeSeriesStore { rows: Vec::new(), last_update: 0, min_time_between_cleans }
    }

    /// Append a row and move the shared retention cursor to its timestamp,
    /// even when that timestamp is smaller than the previous cursor.
    pub fn add_value(&mut self, data: TableEntree)
        requires
            data.topic@.len() > 0,
        ensures
            final(self).rows_model() == old(self).rows_model().push(data),
            final(self).spec_last_update() == data.timestamp,
            final(self).spec_min_window() == old(self).spec_min_window(),
    {
        let ts = data.timestamp;
        self.rows.push(data);
        self.last_update = ts;
    }

    /// Rows of `topic` with `timestamp >= last_update - min_time_since_last_update`
    /// (clamped at zero), newest first, at most `max_count` of them.
    pub fn get_values(&self, topic: &str, min_time_since_last_update: u32, max_count: u32) -> (r:
        Vec<TableEntree>)
        ensures
            r@ == window_spec(
                self.rows_model(),
                topic@,
                clamped_sub(self.spec_last_update(), min_time_since_last_update),
                max_count,
            ),
    {
        let thr = if min_time_since_last_update >= self.last_update {
            0
        } else {
            self.last_update - min_time_since_last_update
        };
        let topic_owned: String = topic.to_owned();
        let n = self.rows.len();
        let mut result: Vec<TableEntree> = Vec::new();
        let mut i: usize = n;
        while i > 0
            invariant
                i <= n,
                n == self.rows@.len(),
                topic_owned@ == topic@,
                thr == clamped_sub(self.spec_last_update(), min_time_since_last_update),
                result@ == newest_first_matches(
                    self.rows@.subrange(i as int, n as int),
                    topic@,
                    thr,
                ),
            decreases i,
        {
            i = i - 1;
            let ghost pre = self.rows@.subrange(i as int, n as int);
            proof {
                assert(pre.skip(1) =~= self.rows@.subrange(i + 1, n as int));
                assert(pre[0] == self.rows@[i as int]);
            }
            let row_ref = &self.rows[i];
            if row_ref.topic == topic_owned && row_ref.timestamp >= thr {
                let row = row_ref.clone();
                let mut j: usize = 0;
                while j < result.len() && result[j].timestamp >= row.timestamp
                    invariant
                        j <= result@.len(),
                        row == self.rows@[i as int],
                        forall|k: int| 0 <= k < j ==> #[trigger] result@[k].timestamp
                            >= row.timestamp,
                    decreases result@.len() - j,
                {
                    j = j + 1;
                }
                proof {
                    lemma_insert_at(result@, row, j as int);
                }
                result.insert(j, row);
                proof {
                    assert(result@ =~= newest_first_matches(pre, topic@, thr));
                }
            } else {
                proof {
                    assert(!row_matches(self.rows@[i as int], topic@, thr));
                    assert(result@ == newest_first_matches(pre, topic@, thr));
                }
            }
        }
        proof {
            assert(self.rows@.subrange(0, n as int) =~= self.rows@);
        }
        if result.len() > max_count as usize {
            result.truncate(max_count as usize);
        }
        result
    }

    /// Rows of `topic` with no age cutoff, newest first, at most `max_count`.
    pub fn get_values_no_time(&self, topic: &str, max_count: u32) -> (r: Vec<TableEntree>)
        ensures
            r@ == window_spec(self.rows_model(), topic@, 0u32, max_count),
    {
        self.get_values(topic, self.last_update, max_count)
    }

    /// The newest row of `topic`, or `NotFound` when the topic has no rows.
    pub fn get_value(&self, topic: &str) -> (r: Result<TableEntree, StoreError>)
        ensures
            newest_first_matches(self.rows_model(), topic@, 0u32).len() > 0 ==> r == Ok::<
                TableEntree,
                StoreError,
            >(newest_first_matches(self.rows_model(), topic@, 0u32)[0]),
            newest_first_matches(self.rows_model(), topic@, 0u32).len() == 0 ==> r == Err::<
                TableEntree,
                StoreError,
            >(StoreError::NotFound),
    {
        let mut v = self.get_values(topic, self.last_update, 1);
        let ghost all = newest_first_matches(self.rows_model(), topic@, 0u32);
        proof {
            if all.len() > 1 {
                assert(v@ == all.take(1));
                assert(v@[0] == all[0]);
            }
        }
        match v.pop() {
            Some(row) => Ok(row),
            None => Err(StoreError::NotFound),
        }
    }

    /// Delete every row, of every topic, with
    /// `timestamp <= last_update - min_time_since_last_update` (clamped at
    /// zero). The retention cursor itself is unchanged.
    pub fn clean_database_time(&mut self, min_time_since_last_update: u32)
        ensures
            final(self).rows_model() == trimmed(
                old(self).rows_model(),
                clamped_sub(old(self).spec_last_update(), min_time_since_last_update),
            ),
            final(self).spec_last_update() == old(self).spec_last_update(),
            final(self).spec_min_window() == old(self).spec_min_window(),
    {
        let thr = if min_time_since_last_update >= self.last_update {
            0
        } else {
            self.last_update - min_time_since_last_update
        };
        let n = self.rows.len();
        let mut kept: Vec<TableEntree> = Vec::new();
        let mut i: usize = 0;
        while i < n
            invariant
                i <= n,
                n == self.rows@.len(),
                thr == clamped_sub(self.spec_last_update(), min_time_since_last_update),
                kept@ == trimmed(self.rows@.take(i as int), thr),
            decreases n - i,
        {
            let ghost prefix = self.rows@.take(i + 1);
            proof {
                reveal(Seq::filter);
                assert(prefix.drop_last() =~= self.rows@.take(i as int));
                assert(prefix.last() == self.rows@[i as int]);
            }
            if self.rows[i].timestamp > thr {
                kept.push(self.rows[i].clone());
            }
            proof {
                assert(kept@ == trimmed(prefix, thr));
            }
            i = i + 1;
        }
        proof {
            assert(self.rows@.take(n as int) =~= self.rows@);
        }
        self.rows = kept;
    }

    /// Trim with the configured minimum retention window.
    pub fn clean_database(&mut self)
        ensures
            final(self).rows_model() == trimmed(
                old(self).rows_model(),
                clamped_sub(old(self).spec_last_update(), old(self).spec_min_window()),
            ),
            final(self).spec_last_update() == old(self).spec_last_update(),
            final(self).spec_min_window() == old(self).spec_min_window(),
    {
        let w = self.min_time_between_cleans;
        self.clean_database_time(w)
    }

    /// Delete every row of every topic.
    pub fn clear_database(&mut self)
        ensures
            final(self).rows_model() == Seq::<TableEntree>::empty(),
            final(self).spec_last_update() == old(self).spec_last_update(),
            final(self).spec_min_window() == old(self).spec_min_window(),
    {
        self.rows.clear();
    }

    /// The timestamp carried by the most recent append.
    pub fn last_update(&self) -> (r: u32)
        ensures
            r == self.spec_last_update(),
    {
        self.last_update
    }

    /// The configured minimum retention window.
    pub fn min_time_between_cleans(&self) -> (r: u32)
        ensures
            r == self.spec_min_window(),
    {
        self.min_time_between_cleans
    }

    /// How many rows the store holds, over all topics.
    pub fn length(&self) -> (r: usize)
        ensures
            r == self.rows_model().len(),
    {
        self.rows.len()
    }

    /// How many rows the store holds for `topic`.
    pub fn topic_length(&self, topic: &str) -> (r: usize)
        ensures
            r as nat == count_matching(self.rows_model(), topic@, 0u32),
    {
        let topic_owned: String = topic.to_owned();
        let n = self.rows.len();
        let mut count: usize = 0;
        let mut i: usize = n;
        while i > 0
            invariant
                i <= n,
                n == self.rows@.len(),
                topic_owned@ == topic@,
                count <= n - i,
                count as nat == count_matching(
                    self.rows@.subrange(i as int, n as int),
                    topic@,
                    0u32,
                ),
            decreases i,
        {
            i = i - 1;
            let ghost pre = self.rows@.subrange(i as int, n as int);
            proof {
                assert(pre.skip(1) =~= self.rows@.subrange(i + 1, n as int));
                assert(pre[0] == self.rows@[i as int]);
            }
            if self.rows[i].topic == topic_owned {
                count = count + 1;
            }
        }
        proof {
            assert(self.rows@.subrange(0, n as int) =~= self.rows@);
        }
        count
    }
}

/// Seed a store the way the tests do: `data_amt` rows of topic "test",
/// their timestamps spaced `time_step` apart starting at zero.
pub fn put_data_in_database(database: TimeSeriesStore, data_amt: u32, time_step: u32) -> (r:
    TimeSeriesStore)
    requires
        data_amt > 0 ==> (data_amt - 1) as int * time_step as int <= u32::MAX as int,
    ensures
        r.rows_model().len() == database.rows_model().len() + data_amt,
        forall|k: int| 0 <= k < database.rows_model().len() ==> r.rows_model()[k]
            == database.rows_model()[k],
        forall|k: int| 0 <= k < data_amt ==> (#[trigger] r.rows_model()[database.rows_model().len()
            + k]).topic@ == "test"@,
        forall|k: int| 0 <= k < data_amt ==> (#[trigger] r.rows_model()[database.rows_model().len()
            + k]).value@ == "test"@,
        forall|k: int| 0 <= k < data_amt ==> (#[trigger] r.rows_model()[database.rows_model().len()
            + k]).timestamp as int == k * time_step as int,
        data_amt > 0 ==> r.spec_last_update() as int == (data_amt - 1) as int * time_step as int,
        data_amt == 0 ==> r.spec_last_update() == database.spec_last_update(),
        r.spec_min_window() == database.spec_min_window(),
{
    let mut database = database;
    let ghost orig = database;
    let mut i: u32 = 0;
    while i < data_amt
        invariant
            i <= data_amt,
            data_amt > 0 ==> (data_amt - 1) as int * time_step as int <= u32::MAX as int,
            database.rows_model().len() == orig.rows_model().len() + i,
            forall|k: int| 0 <= k < orig.rows_model().len() ==> database.rows_model()[k]
                == orig.rows_model()[k],
            forall|k: int| 0 <= k < i ==> (#[trigger] database.rows_model()[orig.rows_model().len()
                + k]).topic@ == "test"@,
            forall|k: int| 0 <= k < i ==> (#[trigger] database.rows_model()[orig.rows_model().len()
                + k]).value@ == "test"@,
            forall|k: int| 0 <= k < i ==> (#[trigger] database.rows_model()[orig.rows_model().len()
                + k]).timestamp as int == k * time_step as int,
            i > 0 ==> database.spec_last_update() as int == (i - 1) as int * time_step as int,
            i == 0 ==> database.spec_last_update() == orig.spec_last_update(),
            database.spec_min_window() == orig.spec_min_window(),
        decreases data_amt - i,
    {
        proof {
            assert(i as int * time_step as int <= (data_amt - 1) as int * time_step as int)
                by (nonlinear_arith)
                requires
                    i < data_amt,
            ;
            reveal_strlit("test");
        }
        let ts = i * time_step;
        database.add_value(TableEntree::new("test".to_owned(), "test".to_owned(), ts));
        i = i + 1;
    }
    database
}

/// Inserting a row grows the sequence by exactly one.
proof fn lemma_insert_len(s: Seq<TableEntree>, r: TableEntree)
    ensures
        insert_newest_first(s, r).len() == s.len() + 1,
    decreases s.len(),
{
    if s.len() > 0 && s[0].timestamp >= r.timestamp {
        lemma_insert_len(s.skip(1), r);
    }
}

/// A property shared by every row of the sequence and by the inserted row
/// holds of every row after the insertion.
proof fn lemma_insert_pred(s: Seq<TableEntree>, r: TableEntree, pred: spec_fn(TableEntree) -> bool)
    requires
        forall|i: int| 0 <= i < s.len() ==> #[trigger] pred(s[i]),
        pred(r),
    ensures
        forall|i: int| 0 <= i < insert_newest_first(s, r).len() ==> #[trigger] pred(
            insert_newest_first(s, r)[i],
        ),
    decreases s.len(),
{
    let out = insert_newest_first(s, r);
    if s.len() == 0 {
        assert(out[0] == r);
    } else if s[0].timestamp >= r.timestamp {
        assert(forall|i: int| 0 <= i < s.skip(1).len() ==> #[trigger] pred(s.skip(1)[i]));
        lemma_insert_pred(s.skip(1), r, pred);
        let tail = insert_newest_first(s.skip(1), r);
        assert forall|i: int| 0 <= i < out.len() implies #[trigger] pred(out[i]) by {
            if i == 0 {
                assert(out[0] == s[0]);
            } else {
                assert(out[i] == tail[i - 1]);
            }
        }
    } else {
        assert forall|i: int| 0 <= i < out.len() implies #[trigger] pred(out[i]) by {
            if i == 0 {
                assert(out[0] == r);
            } else {
                assert(out[i] == s[i - 1]);
            }
        }
    }
}

/// Inserting into a newest-first sequence keeps it newest-first.
proof fn lemma_insert_sorted(s: Seq<TableEntree>, r: TableEntree)
    requires
        sorted_newest_first(s),
    ensures
        sorted_newest_first(insert_newest_first(s, r)),
    decreases s.len(),
{
    let out = insert_newest_first(s, r);
    if s.len() == 0 {
    } else if s[0].timestamp >= r.timestamp {
        assert(sorted_newest_first(s.skip(1)));
        lemma_insert_sorted(s.skip(1), r);
        let head_ts = s[0].timestamp;
        let below_head = |x: TableEntree| x.timestamp <= head_ts;
        assert forall|i: int| 0 <= i < s.skip(1).len() implies #[trigger] below_head(
            s.skip(1)[i],
        ) by {
            assert(s.skip(1)[i] == s[i + 1]);
        }
        lemma_insert_pred(s.skip(1), r, below_head);
        let tail = insert_newest_first(s.skip(1), r);
        assert forall|i: int, j: int| 0 <= i <= j < out.len() implies out[i].timestamp
            >= out[j].timestamp by {
            if i > 0 {
                assert(out[i] == tail[i - 1]);
                assert(out[j] == tail[j - 1]);
            } else if j > 0 {
                assert(out[0] == s[0]);
                assert(out[j] == tail[j - 1]);
                assert(below_head(tail[j - 1]));
            }
        }
    } else {
        assert forall|i: int, j: int| 0 <= i <= j < out.len() implies out[i].timestamp
            >= out[j].timestamp by {
            if i == 0 && j > 0 {
                assert(out[0] == r);
                assert(out[j] == s[j - 1]);
                assert(s[j - 1].timestamp <= s[0].timestamp);
            } else if i > 0 {
                assert(out[i] == s[i - 1]);
                assert(out[j] == s[j - 1]);
            }
        }
    }
}

/// The newest-first view of a topic is sorted, contains only matching rows,
/// and has exactly one entry per matching stored row.
proof fn lemma_nfm_props(rows: Seq<TableEntree>, topic: Seq<char>, thr: u32)
    ensures
        sorted_newest_first(newest_first_matches(rows, topic, thr)),
        forall|i: int| 0 <= i < newest_first_matches(rows, topic, thr).len() ==> row_matches(
            #[trigger] newest_first_matches(rows, topic, thr)[i],
            topic,
            thr,
        ),
        newest_first_matches(rows, topic, thr).len() == count_matching(rows, topic, thr),
    decreases rows.len(),
{
    if rows.len() > 0 {
        lemma_nfm_props(rows.skip(1), topic, thr);
        let rest = newest_first_matches(rows.skip(1), topic, thr);
        let out = newest_first_matches(rows, topic, thr);
        if row_matches(rows[0], topic, thr) {
            lemma_insert_sorted(rest, rows[0]);
            lemma_insert_len(rest, rows[0]);
            let pred = |x: TableEntree| row_matches(x, topic, thr);
            assert(forall|i: int| 0 <= i < rest.len() ==> #[trigger] pred(rest[i]));
            lemma_insert_pred(rest, rows[0], pred);
            assert forall|i: int| 0 <= i < out.len() implies row_matches(
                #[trigger] out[i],
                topic,
                thr,
            ) by {
                assert(pred(out[i]));
            }
        }
    }
}

/// For every store contents and every query, the windowed read returns at
/// most `max_count` rows, each matching the topic and the age cutoff, in
/// newest-first order.
pub proof fn lemma_query_window_shape(
    rows: Seq<TableEntree>,
    topic: Seq<char>,
    thr: u32,
    max_count: u32,
)
    ensures
        window_spec(rows, topic, thr, max_count).len() <= max_count,
        forall|i: int| 0 <= i < window_spec(rows, topic, thr, max_count).len() ==> row_matches(
            #[trigger] window_spec(rows, topic, thr, max_count)[i],
            topic,
            thr,
        ),
        sorted_newest_first(window_spec(rows, topic, thr, max_count)),
{
    lemma_nfm_props(rows, topic, thr);
    let all = newest_first_matches(rows, topic, thr);
    let w = window_spec(rows, topic, thr, max_count);
    assert(forall|i: int| 0 <= i < w.len() ==> w[i] == all[i]);
}

/// The newest-first view is empty exactly when the store holds no matching
/// row, so a lookup fails exactly on topics without rows.
pub proof fn lemma_lookup_fails_iff_absent(rows: Seq<TableEntree>, topic: Seq<char>, thr: u32)
    ensures
        newest_first_matches(rows, topic, thr).len() == 0 <==> count_matching(rows, topic, thr)
            == 0,
{
    lemma_nfm_props(rows, topic, thr);
}

/// Retention trimming keeps exactly the rows strictly newer than the cutoff:
/// every kept row is newer, every newer row is kept, and a second trim with
/// the same cutoff removes nothing.
pub proof fn lemma_retention_trim_exact(rows: Seq<TableEntree>, thr: u32)
    ensures
        forall|i: int| 0 <= i < trimmed(rows, thr).len() ==> (#[trigger] trimmed(
            rows,
            thr,
        )[i]).timestamp > thr,
        forall|i: int| 0 <= i < rows.len() && rows[i].timestamp > thr ==> trimmed(
            rows,
            thr,
        ).contains(#[trigger] rows[i]),
        trimmed(trimmed(rows, thr), thr) == trimmed(rows, thr),
    decreases rows.len(),
{
    reveal(Seq::filter);
    let out = trimmed(rows, thr);
    if rows.len() == 0 {
    } else {
        lemma_retention_trim_exact(rows.drop_last(), thr);
        let sub = trimmed(rows.drop_last(), thr);
        assert forall|i: int| 0 <= i < rows.len() && rows[i].timestamp > thr implies out.contains(
            #[trigger] rows[i],
        ) by {
            if i < rows.len() - 1 {
                assert(rows.drop_last()[i] == rows[i]);
                assert(sub.contains(rows[i]));
                let k = choose|k: int| 0 <= k < sub.len() && sub[k] == rows[i];
                assert(out[k] == rows[i]);
            } else {
                assert(out.last() == rows[i]);
            }
        }
    }
    lemma_trim_of_fresh_is_identity(trimmed(rows, thr), thr);
}

/// Trimming a sequence whose rows all outlive the cutoff changes nothing.
proof fn lemma_trim_of_fresh_is_identity(s: Seq<TableEntree>, thr: u32)
    requires
        forall|i: int| 0 <= i < s.len() ==> (#[trigger] s[i]).timestamp > thr,
    ensures
        trimmed(s, thr) == s,
    decreases s.len(),
{
    reveal(Seq::filter);
    if s.len() > 0 {
        assert(forall|i: int| 0 <= i < s.drop_last().len() ==> (#[trigger] s.drop_last()[i]).timestamp > thr);
        lemma_trim_of_fresh_is_identity(s.drop_last(), thr);
        assert(trimmed(s, thr) =~= s);
    } else {
        assert(trimmed(s, thr) =~= s);
    }
}

/// After a clear, every topic counts zero rows.
pub proof fn lemma_clear_empties_every_topic(topic: Seq<char>, thr: u32)
    ensures
        count_matching(Seq::<TableEntree>::empty(), topic, thr) == 0,
{
}

/// Where `insert_newest_first` puts the new row: at the first position whose
/// timestamp is smaller, leaving everything else in place.
proof fn lemma_insert_at(s: Seq<TableEntree>, r: TableEntree, j: int)
    requires
        0 <= j <= s.len(),
        forall|k: int| 0 <= k < j ==> #[trigger] s[k].timestamp >= r.timestamp,
        j < s.len() ==> s[j].timestamp < r.timestamp,
    ensures
        insert_newest_first(s, r) == s.take(j) + seq![r] + s.skip(j),
    decreases j,
{
    if j == 0 {
        assert(insert_newest_first(s, r) =~= s.take(0) + seq![r] + s.skip(0));
    } else {
        assert(s[0].timestamp >= r.timestamp);
        lemma_insert_at(s.skip(1), r, j - 1);
        assert(s.skip(1).take(j - 1) =~= s.take(j).skip(1));
        assert(s.skip(1).skip(j - 1) =~= s.skip(j));
        assert(insert_newest_first(s, r) =~= s.take(j) + seq![r] + s.skip(j));
    }
}

} // verus!
