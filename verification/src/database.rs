//! The local store of enriched records: append, batched atomic append,
//! ordered retrieval of pending records, idempotent mark-as-synced, and
//! age-based purge of synced records.

use vstd::prelude::*;

use crate::models::ProcessedSensorData;

verus! {

/// Milliseconds in one day.
pub const DAY_MILLIS: i64 = 86_400_000;

/// A store operation that was refused.
#[derive(Clone, Copy, Debug, PartialEq, Eq, Structural)]
pub enum StoreError {
    /// A record with the same identifier is already stored.
    DuplicateId,
}

/// One stored row: an enriched record and its sync state.
#[derive(Debug)]
pub struct StoredReading {
    /// The enriched record.
    pub reading: ProcessedSensorData,
    /// Whether the record has been delivered to the remote collector.
    pub synced: bool,
}

/// The row a freshly appended record becomes: pending.
pub open spec fn pending_row(data: ProcessedSensorData) -> StoredReading {
    StoredReading { reading: data, synced: false }
}

/// Rows are ordered by gateway timestamp, oldest first.
pub open spec fn sorted_by_time(s: Seq<StoredReading>) -> bool {
    forall|i: int, j: int|
        0 <= i < j < s.len() ==> #[trigger] s[i].reading.gateway_timestamp <= #[trigger] s[j].reading.gateway_timestamp
}

/// No two rows share a record identifier.
pub open spec fn unique_ids(s: Seq<StoredReading>) -> bool {
    forall|i: int, j: int|
        0 <= i < j < s.len() ==> (#[trigger] s[i].reading.id) != (#[trigger] s[j].reading.id)
}

/// Some row carries this record identifier.
pub open spec fn contains_id(s: Seq<StoredReading>, id: u128) -> bool {
    exists|i: int| 0 <= i < s.len() && (#[trigger] s[i].reading.id) == id
}

/// The pending records of the store in timestamp order, up to `limit`.
pub open spec fn spec_pending(s: Seq<StoredReading>, limit: int) -> Seq<ProcessedSensorData>
    decreases s.len(),
{
    if s.len() == 0 || limit <= 0 {
        Seq::empty()
    } else if !s[0].synced {
        seq![s[0].reading] + spec_pending(s.drop_first(), limit - 1)
    } else {
        spec_pending(s.drop_first(), limit)
    }
}

/// How many rows are pending.
pub open spec fn spec_pending_count(s: Seq<StoredReading>) -> int
    decreases s.len(),
{
    if s.len() == 0 {
        0
    } else {
        spec_pending_count(s.drop_last()) + if !s.last().synced {
            1int
        } else {
            0int
        }
    }
}

/// Every row named by `ids` becomes synced; the others are untouched. A
/// row that is already synced stays synced, so the operation is
/// idempotent.
pub open spec fn spec_mark(s: Seq<StoredReading>, ids: Seq<u128>) -> Seq<StoredReading> {
    Seq::new(
        s.len(),
        |i: int|
            if ids.contains(s[i].reading.id) {
                StoredReading { reading: s[i].reading, synced: true }
            } else {
                s[i]
            },
    )
}

/// Marking a second time with the same identifiers changes nothing.
pub proof fn lemma_mark_synced_idempotent(s: Seq<StoredReading>, ids: Seq<u128>)
    ensures
        spec_mark(spec_mark(s, ids), ids) == spec_mark(s, ids),
{
    assert(spec_mark(spec_mark(s, ids), ids) =~= spec_mark(s, ids));
}


/// Once a record is marked synced it disappears from every later pending
/// batch: no pending read of the marked store returns a marked id.
pub proof fn lemma_marked_not_pending(s: Seq<StoredReading>, ids: Seq<u128>, limit: int)
    ensures
        forall|k: int|
            0 <= k < spec_pending(spec_mark(s, ids), limit).len() ==> !ids.contains(
                (#[trigger] spec_pending(spec_mark(s, ids), limit)[k]).id,
            ),
    decreases s.len(),
{
    let m = spec_mark(s, ids);
    if s.len() == 0 || limit <= 0 {
    } else {
        assert(m.drop_first() =~= spec_mark(s.drop_first(), ids));
        lemma_marked_not_pending(s.drop_first(), ids, limit - 1);
        lemma_marked_not_pending(s.drop_first(), ids, limit);
        let p = spec_pending(m, limit);
        if !m[0].synced {
            assert(!ids.contains(s[0].reading.id));
            assert(m[0] == s[0]);
            let tail = spec_pending(spec_mark(s.drop_first(), ids), limit - 1);
            assert forall|k: int| 0 <= k < p.len() implies !ids.contains(
                (#[trigger] p[k]).id,
            ) by {
                if k == 0 {
                    assert(p[0] == s[0].reading);
                } else {
                    assert(p[k] == tail[k - 1]);
                }
            }
        } else {
            let tail = spec_pending(spec_mark(s.drop_first(), ids), limit);
            assert forall|k: int| 0 <= k < p.len() implies !ids.contains(
                (#[trigger] p[k]).id,
            ) by {
                assert(p[k] == tail[k]);
            }
        }
    }
}

/// The rows that survive a purge at `cutoff`: every pending row, and
/// every synced row no older than the cutoff.
pub open spec fn spec_purge(s: Seq<StoredReading>, cutoff: int) -> Seq<StoredReading>
    decreases s.len(),
{
    if s.len() == 0 {
        Seq::empty()
    } else if s[0].synced && s[0].reading.gateway_timestamp < cutoff {
        spec_purge(s.drop_first(), cutoff)
    } else {
        seq![s[0]] + spec_purge(s.drop_first(), cutoff)
    }
}

/// A purge never deletes a pending row, deletes exactly the synced rows
/// strictly older than the cutoff, and invents nothing.
pub proof fn lemma_purge_respects_pending(s: Seq<StoredReading>, cutoff: int)
    ensures
        forall|i: int|
            0 <= i < s.len() && !(#[trigger] s[i]).synced ==> spec_purge(s, cutoff).contains(s[i]),
        forall|i: int|
            0 <= i < s.len() && !((#[trigger] s[i]).synced && s[i].reading.gateway_timestamp
                < cutoff) ==> spec_purge(s, cutoff).contains(s[i]),
        forall|i: int|
            0 <= i < spec_purge(s, cutoff).len() ==> s.contains(
                #[trigger] spec_purge(s, cutoff)[i],
            ) && !(spec_purge(s, cutoff)[i].synced && spec_purge(s, cutoff)[i].reading.gateway_timestamp < cutoff),
    decreases s.len(),
{
    if s.len() > 0 {
        lemma_purge_respects_pending(s.drop_first(), cutoff);
        let rest = s.drop_first();
        assert forall|i: int|
            0 <= i < s.len() && !((#[trigger] s[i]).synced && s[i].reading.gateway_timestamp
                < cutoff) implies spec_purge(s, cutoff).contains(s[i]) by {
            if i == 0 {
                assert(spec_purge(s, cutoff)[0] == s[0]);
            } else {
                assert(rest[i - 1] == s[i]);
                assert(spec_purge(rest, cutoff).contains(s[i]));
                let w = choose|k: int|
                    0 <= k < spec_purge(rest, cutoff).len() && spec_purge(rest, cutoff)[k] == s[i];
                if s[0].synced && s[0].reading.gateway_timestamp < cutoff {
                    assert(spec_purge(s, cutoff)[w] == s[i]);
                } else {
                    assert(spec_purge(s, cutoff)[w + 1] == s[i]);
                }
            }
        }
        assert forall|i: int|
            0 <= i < s.len() && !(#[trigger] s[i]).synced implies spec_purge(s, cutoff).contains(
            s[i],
        ) by {
            assert(!(s[i].synced && s[i].reading.gateway_timestamp < cutoff));
        }
        assert forall|i: int| 0 <= i < spec_purge(s, cutoff).len() implies s.contains(
            #[trigger] spec_purge(s, cutoff)[i],
        ) && !(spec_purge(s, cutoff)[i].synced && spec_purge(s, cutoff)[i].reading.gateway_timestamp
            < cutoff) by {
            if s[0].synced && s[0].reading.gateway_timestamp < cutoff {
                assert(spec_purge(s, cutoff)[i] == spec_purge(rest, cutoff)[i]);
                assert(rest.contains(spec_purge(rest, cutoff)[i]));
                let w = choose|k: int| 0 <= k < rest.len() && rest[k] == spec_purge(rest, cutoff)[i];
                assert(s[w + 1] == rest[w]);
            } else {
                if i == 0 {
                    assert(spec_purge(s, cutoff)[0] == s[0]);
                } else {
                    assert(spec_purge(s, cutoff)[i] == spec_purge(rest, cutoff)[i - 1]);
                    assert(rest.contains(spec_purge(rest, cutoff)[i - 1]));
                    let w = choose|k: int|
                        0 <= k < rest.len() && rest[k] == spec_purge(rest, cutoff)[i - 1];
                    assert(s[w + 1] == rest[w]);
                }
            }
        }
    }
}

/// The most recent records of one device, newest first, up to `limit`.
pub open spec fn spec_recent(s: Seq<StoredReading>, device: Seq<char>, limit: int) -> Seq<
    ProcessedSensorData,
>
    decreases s.len(),
{
    if s.len() == 0 || limit <= 0 {
        Seq::empty()
    } else if s.last().reading.header.device_id@ == device {
        seq![s.last().reading] + spec_recent(s.drop_last(), device, limit - 1)
    } else {
        spec_recent(s.drop_last(), device, limit)
    }
}

/// The length of a pending batch never exceeds the limit, and every
/// record of it is the reading of some pending row.
pub proof fn lemma_spec_pending_props(s: Seq<StoredReading>, limit: int)
    ensures
        spec_pending(s, limit).len() <= (if limit > 0 { limit } else { 0int }),
        forall|i: int|
            0 <= i < spec_pending(s, limit).len() ==> exists|j: int|
                0 <= j < s.len() && !s[j].synced && (#[trigger] spec_pending(s, limit)[i])
                    == s[j].reading,
    decreases s.len(),
{
    if s.len() == 0 || limit <= 0 {
    } else {
        let rest = s.drop_first();
        lemma_spec_pending_props(rest, limit - 1);
        lemma_spec_pending_props(rest, limit);
        assert forall|i: int| 0 <= i < spec_pending(s, limit).len() implies exists|j: int|
            0 <= j < s.len() && !s[j].synced && (#[trigger] spec_pending(s, limit)[i])
                == s[j].reading by {
            if !s[0].synced {
                if i == 0 {
                    assert(spec_pending(s, limit)[0] == s[0].reading);
                } else {
                    let p = spec_pending(rest, limit - 1);
                    assert(spec_pending(s, limit)[i] == p[i - 1]);
                    let j = choose|j: int|
                        0 <= j < rest.len() && !rest[j].synced && p[i - 1] == rest[j].reading;
                    assert(s[j + 1] == rest[j]);
                }
            } else {
                let p = spec_pending(rest, limit);
                assert(spec_pending(s, limit)[i] == p[i]);
                let j = choose|j: int|
                    0 <= j < rest.len() && !rest[j].synced && p[i] == rest[j].reading;
                assert(s[j + 1] == rest[j]);
            }
        }
    }
}


/// The pending count peels from the front as well as from the back.
proof fn lemma_pending_count_drop_first(s: Seq<StoredReading>)
    requires
        s.len() > 0,
    ensures
        spec_pending_count(s) == (if !s[0].synced {
            1int
        } else {
            0int
        }) + spec_pending_count(s.drop_first()),
    decreases s.len(),
{
    if s.len() == 1 {
        assert(s.drop_last() =~= Seq::<StoredReading>::empty());
        assert(s.drop_first() =~= Seq::<StoredReading>::empty());
        assert(s.last() == s[0]);
    } else {
        lemma_pending_count_drop_first(s.drop_last());
        assert(s.drop_last().drop_first() =~= s.drop_first().drop_last());
        assert(s.drop_last()[0] == s[0]);
        assert(s.drop_first().last() == s.last());
    }
}

/// A pending read returns the whole backlog when it fits the limit, and
/// exactly the limit otherwise: the count that fires the threshold
/// trigger is the same count the next cycle fetches from.
pub proof fn lemma_pending_len_is_count(s: Seq<StoredReading>, limit: int)
    requires
        limit >= 0,
    ensures
        spec_pending(s, limit).len() == (if spec_pending_count(s) <= limit {
            spec_pending_count(s)
        } else {
            limit
        }),
    decreases s.len(),
{
    if s.len() == 0 {
    } else {
        lemma_pending_count_drop_first(s);
        if limit == 0 {
            lemma_spec_pending_props(s, limit);
            lemma_counts_nonneg(s);
        } else if !s[0].synced {
            lemma_pending_len_is_count(s.drop_first(), limit - 1);
            lemma_counts_nonneg(s.drop_first());
        } else {
            lemma_pending_len_is_count(s.drop_first(), limit);
        }
    }
}

/// The pending count is never negative.
proof fn lemma_counts_nonneg(s: Seq<StoredReading>)
    ensures
        spec_pending_count(s) >= 0,
    decreases s.len(),
{
    if s.len() > 0 {
        lemma_counts_nonneg(s.drop_last());
    }
}

/// The local store. Rows are kept ordered by gateway timestamp with
/// unique identifiers; `pending` reads oldest first, `recent` newest
/// first.
#[derive(Debug)]
pub struct Database {
    rows: Vec<StoredReading>,
}

impl View for Database {
    type V = Seq<StoredReading>;

    closed spec fn view(&self) -> Seq<StoredReading> {
        self.rows@
    }
}

impl Database {
    /// The store keeps its rows sorted by time with unique identifiers.
    pub open spec fn wf(&self) -> bool {
        sorted_by_time(self@) && unique_ids(self@)
    }

    /// An empty store.
    pub fn new() -> (r: Database)
        ensures
            r@ == Seq::<StoredReading>::empty(),
            r.wf(),
    {
        Database { rows: Vec::new() }
    }

    /// Whether a record with this identifier is stored.
    pub fn has_id(&self, id: u128) -> (r: bool)
        ensures
            r == contains_id(self@, id),
    {
        let mut i: usize = 0;
        while i < self.rows.len()
            invariant
                i <= self@.len(),
                self@ == self.rows@,
                forall|j: int| 0 <= j < i ==> (#[trigger] self@[j].reading.id) != id,
            decreases self@.len() - i,
        {
            if self.rows[i].reading.id == id {
                return true;
            }
            i = i + 1;
        }
        false
    }

    /// Inserts a fresh record in timestamp order, after existing rows of
    /// the same timestamp.
    fn insert_row(&mut self, data: ProcessedSensorData)
        requires
            old(self).wf(),
            !contains_id(old(self)@, data.id),
        ensures
            final(self).wf(),
            final(self)@.len() == old(self)@.len() + 1,
            exists|p: int|
                0 <= p <= old(self)@.len() && final(self)@ == old(self)@.insert(
                    p,
                    pending_row(data),
                ),
            forall|row: StoredReading|
                old(self)@.contains(row) ==> #[trigger] final(self)@.contains(row),
            final(self)@.contains(pending_row(data)),
            forall|row: StoredReading| #[trigger]
                final(self)@.contains(row) ==> old(self)@.contains(row) || row == pending_row(
                    data,
                ),
    {
        let ghost s0 = self.rows@;
        let mut p: usize = self.rows.len();
        while p > 0 && self.rows[p - 1].reading.gateway_timestamp > data.gateway_timestamp
            invariant
                p <= self.rows@.len(),
                self.rows@ == s0,
                forall|k: int|
                    p <= k < s0.len() ==> (#[trigger] s0[k].reading.gateway_timestamp)
                        > data.gateway_timestamp,
            decreases p,
        {
            p = p - 1;
        }
        proof {
            if p > 0 {
                assert(s0[p - 1].reading.gateway_timestamp <= data.gateway_timestamp);
                assert forall|k: int| 0 <= k < p implies (#[trigger] s0[k].reading.gateway_timestamp)
                    <= data.gateway_timestamp by {
                    assert(s0[k].reading.gateway_timestamp <= s0[p - 1].reading.gateway_timestamp);
                }
            }
        }
        self.rows.insert(p, StoredReading { reading: data, synced: false });
        proof {
            let s1 = self.rows@;
            let row = pending_row(data);
            assert(s1 == s0.insert(p as int, row));
            assert forall|i: int, j: int| 0 <= i < j < s1.len() implies (
            #[trigger] s1[i].reading.gateway_timestamp) <= (
            #[trigger] s1[j].reading.gateway_timestamp) by {
                assert(s1[i] == if i < p { s0[i] } else if i == p { row } else { s0[i - 1] });
                assert(s1[j] == if j < p { s0[j] } else if j == p { row } else { s0[j - 1] });
            }
            assert forall|i: int, j: int| 0 <= i < j < s1.len() implies (
            #[trigger] s1[i].reading.id) != (#[trigger] s1[j].reading.id) by {
                assert(s1[i] == if i < p { s0[i] } else if i == p { row } else { s0[i - 1] });
                assert(s1[j] == if j < p { s0[j] } else if j == p { row } else { s0[j - 1] });
                if i != p && j != p {
                } else {
                    let k = if i == p { j - 1 } else { i };
                    assert(0 <= k < s0.len());
                    if s0[k].reading.id == data.id {
                        assert(contains_id(s0, data.id));
                    }
                }
            }
            assert forall|row2: StoredReading| s0.contains(row2) implies #[trigger] s1.contains(
                row2,
            ) by {
                let w = choose|k: int| 0 <= k < s0.len() && s0[k] == row2;
                if w < p {
                    assert(s1[w] == row2);
                } else {
                    assert(s1[w + 1] == row2);
                }
            }
            assert(s1[p as int] == row);
            assert forall|row2: StoredReading| #[trigger] s1.contains(row2) implies s0.contains(row2)
                || row2 == row by {
                let w = choose|k: int| 0 <= k < s1.len() && s1[k] == row2;
                if w < p {
                    assert(s0[w] == row2);
                } else if w > p {
                    assert(s0[w - 1] == row2);
                }
            }
        }
    }

    /// Appends one record as pending. Refused when its identifier is
    /// already stored; the store is then unchanged.
    pub fn insert_reading(&mut self, data: ProcessedSensorData) -> (r: Result<(), StoreError>)
        requires
            old(self).wf(),
        ensures
            final(self).wf(),
            match r {
                Ok(()) => {
                    &&& !contains_id(old(self)@, data.id)
                    &&& final(self)@.len() == old(self)@.len() + 1
                    &&& final(self)@.contains(pending_row(data))
                    &&& forall|row: StoredReading|
                        old(self)@.contains(row) ==> #[trigger] final(self)@.contains(row)
                    &&& forall|row: StoredReading| #[trigger]
                        final(self)@.contains(row) ==> old(self)@.contains(row) || row
                            == pending_row(data)
                },
                Err(e) => {
                    &&& e == StoreError::DuplicateId
                    &&& contains_id(old(self)@, data.id)
                    &&& final(self)@ == old(self)@
                },
            },
    {
        if self.has_id(data.id) {
            return Err(StoreError::DuplicateId);
        }
        self.insert_row(data);
        Ok(())
    }


    /// A copy of every stored row in store order, for the process shell
    /// to persist: each record view-equal to its row, with its sync
    /// state.
    pub fn snapshot_rows(&self) -> (r: Vec<(ProcessedSensorData, bool)>)
        ensures
            r@.len() == self@.len(),
            forall|i: int|
                0 <= i < self@.len() ==> (#[trigger] r@[i]).0@ == self@[i].reading@ && r@[i].1
                    == self@[i].synced,
    {
        let mut out: Vec<(ProcessedSensorData, bool)> = Vec::new();
        let mut i: usize = 0;
        while i < self.rows.len()
            invariant
                i <= self@.len(),
                self@ == self.rows@,
                out@.len() == i,
                forall|j: int|
                    0 <= j < i ==> (#[trigger] out@[j]).0@ == self@[j].reading@ && out@[j].1
                        == self@[j].synced,
            decreases self@.len() - i,
        {
            out.push((self.rows[i].reading.clone(), self.rows[i].synced));
            i = i + 1;
        }
        out
    }

    /// Appends a batch atomically: either every record commits as
    /// pending, or (on any duplicate identifier) none does and the store
    /// is unchanged.
    pub fn insert_batch(&mut self, data: Vec<ProcessedSensorData>) -> (r: Result<(), StoreError>)
        requires
            old(self).wf(),
        ensures
            final(self).wf(),
            match r {
                Ok(()) => {
                    &&& batch_ids_fresh(old(self)@, data@)
                    &&& final(self)@.len() == old(self)@.len() + data@.len()
                    &&& forall|row: StoredReading|
                        old(self)@.contains(row) ==> #[trigger] final(self)@.contains(row)
                    &&& forall|j: int|
                        0 <= j < data@.len() ==> final(self)@.contains(pending_row(
                            #[trigger] data@[j],
                        ))
                    &&& forall|row: StoredReading| #[trigger]
                        final(self)@.contains(row) ==> old(self)@.contains(row) || exists|j: int|
                            0 <= j < data@.len() && row == pending_row(#[trigger] data@[j])
                },
                Err(e) => {
                    &&& e == StoreError::DuplicateId
                    &&& !batch_ids_fresh(old(self)@, data@)
                    &&& final(self)@ == old(self)@
                },
            },
    {
        let ghost s0 = self@;
        let ghost d0 = data@;
        let mut i: usize = 0;
        while i < data.len()
            invariant
                i <= d0.len(),
                data@ == d0,
                self@ == s0,
                old(self).wf(),
                s0 == old(self)@,
                forall|k: int| 0 <= k < i ==> !contains_id(s0, (#[trigger] d0[k]).id),
                forall|k: int, l: int| 0 <= k < l < i ==> (#[trigger] d0[k]).id != (
                #[trigger] d0[l]).id,
            decreases d0.len() - i,
        {
            if self.has_id(data[i].id) {
                return Err(StoreError::DuplicateId);
            }
            let mut j: usize = 0;
            while j < i
                invariant
                    j <= i,
                    i < d0.len(),
                    data@ == d0,
                    self@ == s0,
                    old(self).wf(),
                    s0 == old(self)@,
                    forall|l: int| 0 <= l < j ==> (#[trigger] d0[l]).id != d0[i as int].id,
                decreases i - j,
            {
                if data[j].id == data[i].id {
                    return Err(StoreError::DuplicateId);
                }
                j = j + 1;
            }
            i = i + 1;
        }
        let ghost n = d0.len();
        let mut remaining = data;
        while remaining.len() > 0
            invariant
                remaining@ == d0.take(remaining@.len() as int),
                remaining@.len() <= n,
                d0.len() == n,
                self.wf(),
                self@.len() == s0.len() + (n - remaining@.len()),
                forall|row: StoredReading|
                    s0.contains(row) ==> #[trigger] self@.contains(row),
                forall|j: int|
                    remaining@.len() <= j < n ==> self@.contains(pending_row(#[trigger] d0[j])),
                forall|row: StoredReading| #[trigger]
                    self@.contains(row) ==> s0.contains(row) || exists|j: int|
                        remaining@.len() <= j < n && row == pending_row(#[trigger] d0[j]),
                forall|k: int|
                    0 <= k < remaining@.len() ==> !contains_id(self@, (#[trigger] d0[k]).id),
                forall|k: int, l: int|
                    0 <= k < l < n ==> (#[trigger] d0[k]).id != (#[trigger] d0[l]).id,
            decreases remaining@.len(),
        {
            let ghost rl = remaining@.len() as int;
            let d = match remaining.pop() {
                Some(d) => d,
                None => {
                    proof {
                        assert(false);
                    }
                    return Err(StoreError::DuplicateId);
                },
            };
            proof {
                assert(d == d0.take(rl)[rl - 1]);
                assert(d == d0[rl - 1]);
                assert(remaining@ =~= d0.take(rl - 1));
                assert(!contains_id(self@, d.id));
            }
            let ghost before = self@;
            self.insert_row(d);
            proof {
                assert forall|k: int| 0 <= k < remaining@.len() implies !contains_id(
                    self@,
                    (#[trigger] d0[k]).id,
                ) by {
                    if contains_id(self@, d0[k].id) {
                        let w = choose|w: int|
                            0 <= w < self@.len() && (#[trigger] self@[w].reading.id) == d0[k].id;
                        assert(self@.contains(self@[w]));
                        if before.contains(self@[w]) {
                            let v = choose|v: int|
                                0 <= v < before.len() && before[v] == self@[w];
                            assert(contains_id(before, d0[k].id));
                        } else {
                            assert(self@[w] == pending_row(d));
                            assert(d0[k].id == d.id);
                            assert(d0[k].id != d0[rl - 1].id);
                        }
                    }
                }
            }
        }
        proof {
            assert(batch_ids_fresh(s0, d0));
        }
        Ok(())
    }

    /// Up to `limit` pending records, oldest first. Only records whose
    /// row is pending are ever returned.
    pub fn get_pending_sync(&self, limit: usize) -> (r: Vec<ProcessedSensorData>)
        ensures
            r@.len() == spec_pending(self@, limit as int).len(),
            forall|k: int|
                0 <= k < r@.len() ==> (#[trigger] r@[k])@ == spec_pending(self@, limit as int)[k]@,
            r@.len() <= limit,
            forall|k: int|
                0 <= k < r@.len() ==> exists|j: int|
                    0 <= j < self@.len() && !self@[j].synced && (#[trigger] r@[k])@
                        == self@[j].reading@,
    {
        let ghost s = self@;
        let ghost full = spec_pending(s, limit as int);
        let mut out: Vec<ProcessedSensorData> = Vec::new();
        let ghost mut taken: Seq<ProcessedSensorData> = Seq::empty();
        proof {
            assert(s.skip(0) =~= s);
            assert(Seq::<ProcessedSensorData>::empty() + full =~= full);
        }
        let mut i: usize = 0;
        while i < self.rows.len() && out.len() < limit
            invariant
                i <= s.len(),
                self@ == s,
                s == self.rows@,
                out@.len() == taken.len(),
                taken.len() <= limit,
                forall|k: int| 0 <= k < taken.len() ==> (#[trigger] out@[k])@ == taken[k]@,
                full == taken + spec_pending(s.skip(i as int), limit - taken.len()),
                forall|k: int|
                    0 <= k < taken.len() ==> exists|j: int|
                        0 <= j < s.len() && !s[j].synced && (#[trigger] taken[k]) == s[j].reading,
            decreases s.len() - i,
        {
            proof {
                assert(s.skip(i as int)[0] == s[i as int]);
                assert(s.skip(i as int).drop_first() =~= s.skip(i + 1 as int));
            }
            let ghost lim_before = limit - taken.len();
            if !self.rows[i].synced {
                out.push(self.rows[i].reading.clone());
                proof {
                    taken = taken + seq![s[i as int].reading];
                    assert(spec_pending(s.skip(i as int), lim_before) == seq![s[i as int].reading]
                        + spec_pending(s.skip(i + 1 as int), lim_before - 1));
                    assert(full =~= taken + spec_pending(
                        s.skip(i + 1 as int),
                        limit - taken.len(),
                    ));
                }
            }
            i = i + 1;
        }
        proof {
            if i == s.len() {
                assert(s.skip(i as int) =~= Seq::<StoredReading>::empty());
            }
            assert(full =~= taken);
        }
        out
    }

    /// How many records are pending; the cheap trigger signal.
    pub fn count_pending_sync(&self) -> (r: usize)
        ensures
            r == spec_pending_count(self@),
    {
        let ghost s = self@;
        let mut c: usize = 0;
        let mut i: usize = 0;
        while i < self.rows.len()
            invariant
                i <= s.len(),
                self@ == s,
                s == self.rows@,
                c <= i,
                c == spec_pending_count(s.take(i as int)),
            decreases s.len() - i,
        {
            proof {
                assert(s.take(i + 1 as int).drop_last() =~= s.take(i as int));
                assert(s.take(i + 1 as int).last() == s[i as int]);
            }
            if !self.rows[i].synced {
                c = c + 1;
            }
            i = i + 1;
        }
        proof {
            assert(s.take(i as int) =~= s);
        }
        c
    }

    /// Marks every stored record named by `ids` as synced. Marking an
    /// already-synced record is a no-op, so the operation is idempotent.
    pub fn mark_as_synced(&mut self, ids: &Vec<u128>)
        requires
            old(self).wf(),
        ensures
            final(self).wf(),
            final(self)@ == spec_mark(old(self)@, ids@),
    {
        let ghost s0 = self.rows@;
        let mut i: usize = 0;
        while i < self.rows.len()
            invariant
                i <= s0.len(),
                self.rows@.len() == s0.len(),
                forall|k: int| 0 <= k < i ==> self.rows@[k] == spec_mark(s0, ids@)[k],
                forall|k: int| i <= k < s0.len() ==> self.rows@[k] == s0[k],
            decreases s0.len() - i,
        {
            if ids_contain(ids, self.rows[i].reading.id) {
                let ghost before = self.rows@;
                self.rows[i].synced = true;
                proof {
                    assert(self.rows@ =~= before.update(
                        i as int,
                        StoredReading { reading: before[i as int].reading, synced: true },
                    ));
                }
            }
            i = i + 1;
        }
        proof {
            assert(self.rows@ =~= spec_mark(s0, ids@));
            assert forall|i2: int, j2: int| 0 <= i2 < j2 < self.rows@.len() implies (
            #[trigger] self.rows@[i2].reading.gateway_timestamp) <= (
            #[trigger] self.rows@[j2].reading.gateway_timestamp) by {
                assert(self.rows@[i2].reading == s0[i2].reading);
                assert(self.rows@[j2].reading == s0[j2].reading);
            }
            assert forall|i2: int, j2: int| 0 <= i2 < j2 < self.rows@.len() implies (
            #[trigger] self.rows@[i2].reading.id) != (#[trigger] self.rows@[j2].reading.id) by {
                assert(self.rows@[i2].reading == s0[i2].reading);
                assert(self.rows@[j2].reading == s0[j2].reading);
            }
        }
    }

    /// The most recent records of one device, newest first, up to
    /// `limit`.
    pub fn get_recent_readings(&self, device_id: &String, limit: usize) -> (r: Vec<
        ProcessedSensorData,
    >)
        ensures
            r@.len() == spec_recent(self@, device_id@, limit as int).len(),
            forall|k: int|
                0 <= k < r@.len() ==> (#[trigger] r@[k])@ == spec_recent(
                    self@,
                    device_id@,
                    limit as int,
                )[k]@,
    {
        let ghost s = self@;
        let ghost dev = device_id@;
        let ghost full = spec_recent(s, dev, limit as int);
        let mut out: Vec<ProcessedSensorData> = Vec::new();
        let ghost mut taken: Seq<ProcessedSensorData> = Seq::empty();
        proof {
            assert(s.take(s.len() as int) =~= s);
            assert(Seq::<ProcessedSensorData>::empty() + full =~= full);
        }
        let mut i: usize = self.rows.len();
        while i > 0 && out.len() < limit
            invariant
                i <= s.len(),
                self@ == s,
                s == self.rows@,
                dev == device_id@,
                out@.len() == taken.len(),
                taken.len() <= limit,
                forall|k: int| 0 <= k < taken.len() ==> (#[trigger] out@[k])@ == taken[k]@,
                full == taken + spec_recent(s.take(i as int), dev, limit - taken.len()),
            decreases i,
        {
            proof {
                assert(s.take(i as int).last() == s[i - 1]);
                assert(s.take(i as int).drop_last() =~= s.take(i - 1));
            }
            let ghost lim_before = limit - taken.len();
            let j = i - 1;
            let row = &self.rows[j];
            proof {
                assert(*row == s[j as int]);
            }
            let matches_dev = crate::text::str_eq(
                row.reading.header.device_id.as_str(),
                device_id.as_str(),
            );
            if matches_dev {
                out.push(row.reading.clone());
                proof {
                    taken = taken + seq![s[i - 1].reading];
                    assert(s[i - 1].reading.header.device_id@ == dev);
                    assert(s.take(i as int).len() == i);
                    assert(lim_before >= 1);
                    assert(s.take(i as int).last() == s[i - 1]);
                    assert(s.take(i as int).last().reading.header.device_id@ == dev);
                    assert(spec_recent(s.take(i as int), dev, lim_before) == seq![s[i - 1].reading]
                        + spec_recent(s.take(i - 1), dev, lim_before - 1));
                    assert(full =~= taken + spec_recent(s.take(i - 1), dev, limit - taken.len()));
                }
            }
            i = i - 1;
        }
        proof {
            if i == 0 {
                assert(s.take(0) =~= Seq::<StoredReading>::empty());
            }
            assert(full =~= taken);
        }
        out
    }

    /// Deletes the synced records strictly older than the retention
    /// cutoff; pending records are never deleted, whatever their age.
    /// Returns how many records were deleted.
    pub fn cleanup_old_synced(&mut self, days_to_keep: i64, now_millis: i64) -> (r: usize)
        requires
            old(self).wf(),
            0 <= days_to_keep <= 36_500,
            -4_000_000_000_000_000 <= now_millis <= 4_000_000_000_000_000,
        ensures
            final(self).wf(),
            final(self)@ == spec_purge(
                old(self)@,
                now_millis - days_to_keep * DAY_MILLIS,
            ),
            r == old(self)@.len() - final(self)@.len(),
    {
        let cutoff = now_millis - days_to_keep * DAY_MILLIS;
        let ghost s0 = self.rows@;
        proof {
            lemma_purge_wf(s0, cutoff as int);
        }
        let mut src: Vec<StoredReading> = Vec::new();
        core::mem::swap(&mut self.rows, &mut src);
        let before_len = src.len();
        while src.len() > 0
            invariant
                src@ == s0.skip(s0.len() - src@.len()),
                src@.len() <= s0.len(),
                spec_purge(s0, cutoff as int) == self.rows@ + spec_purge(src@, cutoff as int),
                self.rows@.len() <= s0.len() - src@.len(),
            decreases src@.len(),
        {
            proof {
                let k = s0.len() - src@.len();
                assert(src@[0] == s0[k as int]);
                assert(src@.drop_first() =~= s0.skip(k + 1));
            }
            let row = src.remove(0);
            if row.synced && row.reading.gateway_timestamp < cutoff {
            } else {
                self.rows.push(row);
            }
        }
        proof {
            assert(src@ =~= Seq::<StoredReading>::empty());
            assert(self.rows@ =~= spec_purge(s0, cutoff as int));
        }
        before_len - self.rows.len()
    }
}

/// The batch carries no identifier already stored and no identifier
/// twice.
pub open spec fn batch_ids_fresh(s: Seq<StoredReading>, data: Seq<ProcessedSensorData>) -> bool {
    &&& forall|i: int| 0 <= i < data.len() ==> !contains_id(s, (#[trigger] data[i]).id)
    &&& forall|i: int, j: int|
        0 <= i < j < data.len() ==> (#[trigger] data[i]).id != (#[trigger] data[j]).id
}

/// Whether the list of identifiers carries `id`.
fn ids_contain(ids: &Vec<u128>, id: u128) -> (r: bool)
    ensures
        r == ids@.contains(id),
{
    let mut i: usize = 0;
    while i < ids.len()
        invariant
            i <= ids@.len(),
            forall|j: int| 0 <= j < i ==> ids@[j] != id,
        decreases ids@.len() - i,
    {
        if ids[i] == id {
            return true;
        }
        i = i + 1;
    }
    false
}

/// Purging a well-formed store leaves it well-formed: the survivors keep
/// their order and identifiers.
proof fn lemma_purge_wf(s: Seq<StoredReading>, cutoff: int)
    requires
        sorted_by_time(s),
        unique_ids(s),
    ensures
        sorted_by_time(spec_purge(s, cutoff)),
        unique_ids(spec_purge(s, cutoff)),
    decreases s.len(),
{
    if s.len() > 0 {
        let rest = s.drop_first();
        lemma_purge_wf(rest, cutoff);
        lemma_purge_respects_pending(rest, cutoff);
        let p = spec_purge(s, cutoff);
        if s[0].synced && s[0].reading.gateway_timestamp < cutoff {
        } else {
            let pr = spec_purge(rest, cutoff);
            assert forall|i: int, j: int| 0 <= i < j < p.len() implies (
            #[trigger] p[i].reading.gateway_timestamp) <= (
            #[trigger] p[j].reading.gateway_timestamp) by {
                if i == 0 {
                    assert(p[j] == pr[j - 1]);
                    assert(rest.contains(pr[j - 1]));
                    let w = choose|w: int| 0 <= w < rest.len() && rest[w] == pr[j - 1];
                    assert(s[w + 1] == rest[w]);
                } else {
                    assert(p[i] == pr[i - 1] && p[j] == pr[j - 1]);
                }
            }
            assert forall|i: int, j: int| 0 <= i < j < p.len() implies (
            #[trigger] p[i].reading.id) != (#[trigger] p[j].reading.id) by {
                if i == 0 {
                    assert(p[j] == pr[j - 1]);
                    assert(rest.contains(pr[j - 1]));
                    let w = choose|w: int| 0 <= w < rest.len() && rest[w] == pr[j - 1];
                    assert(s[w + 1] == rest[w]);
                } else {
                    assert(p[i] == pr[i - 1] && p[j] == pr[j - 1]);
                }
            }
        }
    }
}

} // verus!
