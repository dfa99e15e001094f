//! Decisions of the broker adapter: parsing inbound topics, deriving the
//! acknowledgment topic, and the ingestion path that overrides the
//! payload's device identifier with the one from the topic.

use vstd::prelude::*;

use crate::cloud_sync::should_trigger_sync;
use crate::database::{contains_id, pending_row, spec_pending_count, Database, StoreError};
use crate::edge_processor::{process_reading_at, record_enriches};
use crate::ingest::{ids_fresh, spec_anomaly_count, spec_quality_total, BatchOutcome, IngestOutcome};
use crate::models::{ProcessedSensorData, SensorDataInput, SensorHeader};
use crate::text::str_eq;
use vstd::string::{StrSliceExecFns, StringExecFns};

verus! {

/// What kind of message a topic announces.
#[derive(Clone, Copy, Debug, PartialEq, Eq, Structural)]
pub enum TopicKind {
    /// A single reading.
    Data,
    /// A batch of readings.
    Batch,
    /// Something else; the message is dropped.
    Other,
}

/// A parsed inbound topic: the device segment and the message kind.
#[derive(Debug)]
pub struct ParsedTopic {
    /// The second segment of the topic: the device the message claims.
    pub device_id: String,
    /// The third segment, decoded.
    pub kind: TopicKind,
}

/// Position of the first separator at or after `from`, or the length.
pub open spec fn next_slash(s: Seq<char>, from: int) -> int
    decreases s.len() - from,
    when 0 <= from <= s.len()
{
    if from >= s.len() {
        s.len() as int
    } else if s[from] == '/' {
        from
    } else {
        next_slash(s, from + 1)
    }
}

/// A topic parses when it has at least three `/`-separated segments; the
/// second is the device identifier and the third names the kind.
pub open spec fn spec_parse_topic(s: Seq<char>) -> Option<(Seq<char>, TopicKind)> {
    let i1 = next_slash(s, 0);
    if i1 == s.len() {
        None
    } else {
        let i2 = next_slash(s, i1 + 1);
        if i2 == s.len() {
            None
        } else {
            let i3 = next_slash(s, i2 + 1);
            let device = s.subrange(i1 + 1, i2);
            let kind_str = s.subrange(i2 + 1, i3);
            let kind = if kind_str == "data"@ {
                TopicKind::Data
            } else if kind_str == "batch"@ {
                TopicKind::Batch
            } else {
                TopicKind::Other
            };
            Some((device, kind))
        }
    }
}

/// Finds `next_slash(s@, from)`.
fn find_slash(s: &str, from: usize) -> (r: usize)
    requires
        from <= s@.len(),
    ensures
        r == next_slash(s@, from as int),
        from <= r <= s@.len(),
        r < s@.len() ==> s@[r as int] == '/',
{
    let n = s.unicode_len();
    let mut i = from;
    while i < n
        invariant
            from <= i <= n,
            n == s@.len(),
            next_slash(s@, from as int) == next_slash(s@, i as int),
        decreases n - i,
    {
        if s.get_char(i) == '/' {
            return i;
        }
        i = i + 1;
    }
    i
}

/// Parses an inbound topic into its device and kind segments; topics
/// with fewer than three segments are rejected.
pub fn parse_topic(topic: &str) -> (r: Option<ParsedTopic>)
    ensures
        match r {
            Some(p) => spec_parse_topic(topic@) is Some && p.device_id@ == spec_parse_topic(
                topic@,
            ).unwrap().0 && p.kind == spec_parse_topic(topic@).unwrap().1,
            None => spec_parse_topic(topic@) is None,
        },
{
    let i1 = find_slash(topic, 0);
    let n = topic.unicode_len();
    if i1 == n {
        return None;
    }
    let i2 = find_slash(topic, i1 + 1);
    if i2 == n {
        return None;
    }
    let i3 = find_slash(topic, i2 + 1);
    let device = topic.substring_char(i1 + 1, i2).to_owned();
    let kind_str = topic.substring_char(i2 + 1, i3);
    let kind = if str_eq(kind_str, "data") {
        TopicKind::Data
    } else if str_eq(kind_str, "batch") {
        TopicKind::Batch
    } else {
        TopicKind::Other
    };
    Some(ParsedTopic { device_id: device, kind })
}

/// The topic an acknowledgment is published back to.
pub fn response_topic(device_id: &str, batch: bool) -> (r: String)
    ensures
        r@ == "sensors/"@ + device_id@ + (if batch {
            "/batch_processed"@
        } else {
            "/processed"@
        }),
{
    let mut t = String::from_str("sensors/");
    t.append(device_id);
    if batch {
        t.append("/batch_processed");
    } else {
        t.append("/processed");
    }
    t
}

/// The reading with its device identifier overridden by the one the
/// transport vouches for.
pub open spec fn with_device(input: SensorDataInput, device_id: String) -> SensorDataInput {
    SensorDataInput {
        header: SensorHeader {
            user_uuid: input.header.user_uuid,
            device_id: device_id,
            location: input.header.location,
            topic: input.header.topic,
            should_requeue: input.header.should_requeue,
        },
        metrics: input.metrics,
    }
}

/// Ingests one broker reading under a caller-chosen identifier and
/// timestamp: the device identifier from the topic overrides the one the
/// payload claims, and no structural validation is applied on this path.
#[verifier::loop_isolation(false)]
pub fn handle_broker_reading_at(
    db: &mut Database,
    device_id: String,
    input: SensorDataInput,
    id: u128,
    now_millis: i64,
    batch_size: u32,
) -> (r: Result<IngestOutcome, StoreError>)
    requires
        old(db).wf(),
        input.in_range(),
    ensures
        final(db).wf(),
        match r {
            Ok(out) => {
                &&& !contains_id(old(db)@, id)
                &&& record_enriches(out.record, with_device(input, device_id), id, now_millis)
                &&& final(db)@.len() == old(db)@.len() + 1
                &&& exists|row: crate::database::StoredReading|
                    #[trigger] final(db)@.contains(row) && !row.synced && row.reading@
                        == out.record@
                &&& forall|row: crate::database::StoredReading|
                    old(db)@.contains(row) ==> #[trigger] final(db)@.contains(row)
                &&& out.pending_count == spec_pending_count(final(db)@)
                &&& out.trigger_sync == (out.pending_count >= batch_size as usize)
            },
            Err(e) => {
                &&& e == StoreError::DuplicateId
                &&& contains_id(old(db)@, id)
                &&& final(db)@ == old(db)@
            },
        },
{
    let mut input = input;
    input.header.device_id = device_id;
    let record = process_reading_at(input, id, now_millis);
    let stored = record.clone();
    match db.insert_reading(stored) {
        Ok(()) => {},
        Err(e) => {
            return Err(e);
        },
    }
    let pending_count = db.count_pending_sync();
    let trigger_sync = should_trigger_sync(pending_count, batch_size);
    Ok(IngestOutcome { record, pending_count, trigger_sync })
}

/// Ingests one broker reading under a fresh identifier and the current
/// time.
pub fn handle_broker_reading(
    db: &mut Database,
    device_id: String,
    input: SensorDataInput,
    batch_size: u32,
) -> (r: Result<IngestOutcome, StoreError>)
    requires
        old(db).wf(),
        input.in_range(),
    ensures
        final(db).wf(),
        match r {
            Ok(out) => {
                &&& record_enriches(
                    out.record,
                    with_device(input, device_id),
                    out.record.id,
                    out.record.gateway_timestamp,
                )
                &&& final(db)@.len() == old(db)@.len() + 1
                &&& exists|row: crate::database::StoredReading|
                    #[trigger] final(db)@.contains(row) && !row.synced && row.reading@
                        == out.record@
                &&& forall|row: crate::database::StoredReading|
                    old(db)@.contains(row) ==> #[trigger] final(db)@.contains(row)
                &&& out.pending_count == spec_pending_count(final(db)@)
                &&& out.trigger_sync == (out.pending_count >= batch_size as usize)
            },
            Err(e) => {
                &&& e == StoreError::DuplicateId
                &&& final(db)@ == old(db)@
            },
        },
{
    let id = crate::runtime::fresh_record_id();
    let now = crate::runtime::current_timestamp_millis();
    handle_broker_reading_at(db, device_id, input, id, now, batch_size)
}

/// Ingests a broker batch atomically under caller-chosen identifiers and
/// one timestamp, overriding every reading's device identifier with the
/// one from the topic; on any duplicate identifier nothing is stored.
#[verifier::loop_isolation(false)]
pub fn handle_broker_batch_at(
    db: &mut Database,
    device_id: &String,
    readings: Vec<SensorDataInput>,
    ids: &Vec<u128>,
    now_millis: i64,
    batch_size: u32,
) -> (r: Result<BatchOutcome, StoreError>)
    requires
        old(db).wf(),
        ids@.len() == readings@.len(),
        readings@.len() <= 100_000_000,
        forall|i: int| 0 <= i < readings@.len() ==> (#[trigger] readings@[i]).in_range(),
    ensures
        final(db).wf(),
        match r {
            Ok(out) => {
                &&& ids_fresh(old(db)@, ids@)
                &&& out.records@.len() == readings@.len()
                &&& forall|i: int|
                    0 <= i < readings@.len() ==> record_enriches(
                        #[trigger] out.records@[i],
                        with_device(readings@[i], *device_id),
                        ids@[i],
                        now_millis,
                    )
                &&& final(db)@.len() == old(db)@.len() + readings@.len()
                &&& forall|row: crate::database::StoredReading|
                    old(db)@.contains(row) ==> #[trigger] final(db)@.contains(row)
                &&& forall|i: int|
                    0 <= i < readings@.len() ==> exists|row: crate::database::StoredReading|
                        #[trigger] final(db)@.contains(row) && !row.synced && row.reading@ == (
                        #[trigger] out.records@[i])@
                &&& out.anomalies_detected == spec_anomaly_count(out.records@)
                &&& out.total_quality == spec_quality_total(out.records@)
                &&& out.average_quality_milli == (if readings@.len() > 0 {
                    spec_quality_total(out.records@) * 1000 / (readings@.len() as int)
                } else {
                    0int
                })
                &&& out.pending_count == spec_pending_count(final(db)@)
                &&& out.trigger_sync == (out.pending_count >= batch_size as usize)
            },
            Err(e) => {
                &&& e == StoreError::DuplicateId
                &&& !ids_fresh(old(db)@, ids@)
                &&& final(db)@ == old(db)@
            },
        },
{
    let ghost s0 = db@;
    let mut records: Vec<ProcessedSensorData> = Vec::new();
    let mut k: usize = 0;
    while k < readings.len()
        invariant
            k <= readings@.len(),
            records@.len() == k,
            forall|j: int|
                0 <= j < k ==> record_enriches(
                    #[trigger] records@[j],
                    with_device(readings@[j], *device_id),
                    ids@[j],
                    now_millis,
                ) && records@[j].id == ids@[j],
        decreases readings@.len() - k,
    {
        let mut one = readings[k].clone();
        one.header.device_id = device_id.clone();
        let rec = process_reading_at(one, ids[k], now_millis);
        proof {
            assert(record_enriches(rec, with_device(readings@[k as int], *device_id), ids@[k as int], now_millis));
        }
        records.push(rec);
        k = k + 1;
    }
    let mut stored: Vec<ProcessedSensorData> = Vec::new();
    let mut k2: usize = 0;
    while k2 < records.len()
        invariant
            k2 <= records@.len(),
            stored@.len() == k2,
            forall|j: int|
                0 <= j < k2 ==> (#[trigger] stored@[j])@ == records@[j]@ && stored@[j].id
                    == records@[j].id,
        decreases records@.len() - k2,
    {
        stored.push(records[k2].clone());
        k2 = k2 + 1;
    }
    let ghost stored_view = stored@;
    match db.insert_batch(stored) {
        Ok(()) => {
            proof {
                assert forall|j: int| 0 <= j < ids@.len() implies !crate::database::contains_id(
                    s0,
                    #[trigger] ids@[j],
                ) by {
                    assert(stored_view[j].id == ids@[j]);
                }
                assert forall|i2: int, j2: int| 0 <= i2 < j2 < ids@.len() implies (
                #[trigger] ids@[i2]) != (#[trigger] ids@[j2]) by {
                    assert(stored_view[i2].id == ids@[i2]);
                    assert(stored_view[j2].id == ids@[j2]);
                }
            }
        },
        Err(e) => {
            proof {
                assert(!crate::database::batch_ids_fresh(s0, stored_view));
                if (forall|j: int|
                    0 <= j < ids@.len() ==> !crate::database::contains_id(
                        s0,
                        #[trigger] ids@[j],
                    )) && (forall|i2: int, j2: int|
                    0 <= i2 < j2 < ids@.len() ==> (#[trigger] ids@[i2]) != (#[trigger] ids@[j2])) {
                    assert forall|j: int| 0 <= j < stored_view.len() implies !crate::database::contains_id(
                        s0,
                        (#[trigger] stored_view[j]).id,
                    ) by {
                        assert(stored_view[j].id == ids@[j]);
                    }
                    assert forall|i2: int, j2: int|
                        0 <= i2 < j2 < stored_view.len() implies (#[trigger] stored_view[i2]).id
                        != (#[trigger] stored_view[j2]).id by {
                        assert(stored_view[i2].id == ids@[i2]);
                        assert(stored_view[j2].id == ids@[j2]);
                    }
                    assert(crate::database::batch_ids_fresh(s0, stored_view));
                }
            }
            return Err(e);
        },
    }
    let mut anomalies: usize = 0;
    let mut total: u64 = 0;
    let mut k3: usize = 0;
    while k3 < records.len()
        invariant
            k3 <= records@.len(),
            anomalies == spec_anomaly_count(records@.take(k3 as int)),
            total == spec_quality_total(records@.take(k3 as int)),
            anomalies <= k3,
            total <= 100 * k3,
        decreases records@.len() - k3,
    {
        proof {
            assert(records@.take(k3 + 1 as int).drop_last() =~= records@.take(k3 as int));
            assert(records@.take(k3 + 1 as int).last() == records@[k3 as int]);
            assert(record_enriches(
                records@[k3 as int],
                with_device(readings@[k3 as int], *device_id),
                ids@[k3 as int],
                now_millis,
            ));
            assert(records@[k3 as int].quality.score <= 100);
        }
        if records[k3].computed.is_anomaly {
            anomalies = anomalies + 1;
        }
        total = total + (records[k3].quality.score as u64);
        k3 = k3 + 1;
    }
    proof {
        assert(records@.take(records@.len() as int) =~= records@);
    }
    let n = records.len();
    let average_quality_milli: u64 = if n > 0 {
        total * 1000 / (n as u64)
    } else {
        0
    };
    let pending_count = db.count_pending_sync();
    let trigger_sync = should_trigger_sync(pending_count, batch_size);
    proof {
        assert forall|i2: int| 0 <= i2 < readings@.len() implies exists|
            row: crate::database::StoredReading,
        |
            #[trigger] db@.contains(row) && !row.synced && row.reading@ == (
            #[trigger] records@[i2])@ by {
            let row = pending_row(stored_view[i2]);
            assert(db@.contains(row));
            assert(!row.synced);
            assert(row.reading@ == records@[i2]@);
        }
    }
    Ok(
        BatchOutcome {
            records,
            anomalies_detected: anomalies,
            total_quality: total,
            average_quality_milli,
            pending_count,
            trigger_sync,
        },
    )
}

} // verus!
