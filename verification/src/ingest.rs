//! The ingestion path shared by both adapters: structural validation,
//! enrichment, the append to the store, and the threshold-trigger
//! decision.

use vstd::prelude::*;

use crate::cloud_sync::should_trigger_sync;
use crate::database::{contains_id, pending_row, spec_pending_count, Database, StoreError};
use crate::edge_processor::{process_reading_at, record_enriches, EdgeProcessor};
use crate::models::{
    MetricView, ProcessedSensorData, ReadingView, SensorDataBatch, SensorDataInput,
};
use crate::text::{is_blank, str_is_blank};

verus! {

/// Why a reading or a batch was rejected before it reached the store.
#[derive(Clone, Copy, Debug, PartialEq, Eq, Structural)]
pub enum ValidationError {
    /// The device identifier is empty after trimming.
    BlankDeviceId,
    /// The device identifier is longer than 50 characters.
    DeviceIdTooLong,
    /// The location label is empty after trimming.
    BlankLocation,
    /// The location label is longer than 200 characters.
    LocationTooLong,
    /// The reading carries no metrics.
    NoMetrics,
    /// A measurement name is empty.
    BlankMeasurement,
    /// A measurement name is longer than 100 characters.
    MeasurementTooLong,
    /// The batch carries no readings.
    EmptyBatch,
    /// The batch carries more than 100 readings.
    BatchTooLarge,
}

/// Why an ingestion failed.
#[derive(Clone, Copy, Debug, PartialEq, Eq, Structural)]
pub enum IngestError {
    /// The input was rejected before persistence.
    Validation(ValidationError),
    /// The store refused the append.
    Store(StoreError),
}

/// The first rejected metric name decides the error: names must have one
/// to one hundred characters.
pub open spec fn spec_validate_metrics(metrics: Seq<MetricView>) -> Result<(), ValidationError>
    decreases metrics.len(),
{
    if metrics.len() == 0 {
        Ok(())
    } else if metrics[0].measurement.len() < 1 {
        Err(ValidationError::BlankMeasurement)
    } else if metrics[0].measurement.len() > 100 {
        Err(ValidationError::MeasurementTooLong)
    } else {
        spec_validate_metrics(metrics.drop_first())
    }
}

/// A reading is accepted when the device identifier and location are
/// non-blank and within their length caps, at least one metric is
/// present, and every measurement name is within its cap. Checks run in
/// that order and the first failure decides the error.
pub open spec fn spec_validate_reading(r: ReadingView) -> Result<(), ValidationError> {
    if is_blank(r.header.device_id) {
        Err(ValidationError::BlankDeviceId)
    } else if r.header.device_id.len() > 50 {
        Err(ValidationError::DeviceIdTooLong)
    } else if is_blank(r.header.location) {
        Err(ValidationError::BlankLocation)
    } else if r.header.location.len() > 200 {
        Err(ValidationError::LocationTooLong)
    } else if r.metrics.len() == 0 {
        Err(ValidationError::NoMetrics)
    } else {
        spec_validate_metrics(r.metrics)
    }
}

/// A batch is accepted when it carries one to one hundred readings, each
/// of them valid; the first failing reading decides the error.
pub open spec fn spec_validate_batch_readings(rs: Seq<ReadingView>) -> Result<
    (),
    ValidationError,
>
    decreases rs.len(),
{
    if rs.len() == 0 {
        Ok(())
    } else if spec_validate_reading(rs[0]) is Err {
        spec_validate_reading(rs[0])
    } else {
        spec_validate_batch_readings(rs.drop_first())
    }
}

/// See `spec_validate_batch_readings`; the size caps come first.
pub open spec fn spec_validate_batch(rs: Seq<ReadingView>) -> Result<(), ValidationError> {
    if rs.len() == 0 {
        Err(ValidationError::EmptyBatch)
    } else if rs.len() > 100 {
        Err(ValidationError::BatchTooLarge)
    } else {
        spec_validate_batch_readings(rs)
    }
}

/// Decides `spec_validate_reading` for a raw reading.
pub fn validate_reading(input: &SensorDataInput) -> (r: Result<(), ValidationError>)
    ensures
        r == spec_validate_reading(input@),
{
    if str_is_blank(input.header.device_id.as_str()) {
        return Err(ValidationError::BlankDeviceId);
    }
    if input.header.device_id.as_str().unicode_len() > 50 {
        return Err(ValidationError::DeviceIdTooLong);
    }
    if str_is_blank(input.header.location.as_str()) {
        return Err(ValidationError::BlankLocation);
    }
    if input.header.location.as_str().unicode_len() > 200 {
        return Err(ValidationError::LocationTooLong);
    }
    if input.metrics.len() == 0 {
        return Err(ValidationError::NoMetrics);
    }
    let ghost mv = input@.metrics;
    proof {
        assert(mv.skip(0) =~= mv);
        assert(spec_validate_reading(input@) == spec_validate_metrics(mv));
    }
    let mut i: usize = 0;
    while i < input.metrics.len()
        invariant
            i <= mv.len(),
            mv == input@.metrics,
            mv.len() == input.metrics@.len(),
            spec_validate_reading(input@) == spec_validate_metrics(mv.skip(i as int)),
        decreases mv.len() - i,
    {
        proof {
            assert(mv.skip(i as int)[0] == mv[i as int]);
            assert(mv[i as int] == input.metrics@[i as int]@);
            assert(mv.skip(i as int).drop_first() =~= mv.skip(i + 1 as int));
        }
        let n = input.metrics[i].measurement.as_str().unicode_len();
        proof {
            assert(n == mv[i as int].measurement.len());
        }
        if n < 1 {
            proof {
                assert(spec_validate_metrics(mv.skip(i as int)) == Err::<(), ValidationError>(
                    ValidationError::BlankMeasurement,
                ));
            }
            return Err(ValidationError::BlankMeasurement);
        }
        if n > 100 {
            proof {
                assert(spec_validate_metrics(mv.skip(i as int)) == Err::<(), ValidationError>(
                    ValidationError::MeasurementTooLong,
                ));
            }
            return Err(ValidationError::MeasurementTooLong);
        }
        i = i + 1;
    }
    proof {
        assert(mv.skip(i as int) =~= Seq::<MetricView>::empty());
    }
    Ok(())
}

/// Generic success envelope of the request adapter.
#[derive(Debug)]
pub struct SuccessResponse<T> {
    /// Fixed marker, `success`.
    pub status: String,
    /// A short human-readable note.
    pub message: String,
    /// The payload.
    pub data: T,
}

/// What an accepted ingestion hands back to the adapter.
#[derive(Debug)]
pub struct IngestOutcome {
    /// The enriched record, as stored (pending).
    pub record: ProcessedSensorData,
    /// How many records were pending right after the append.
    pub pending_count: usize,
    /// Whether the backlog reached the batch size, so that the adapter
    /// must fire a sync cycle without waiting for the timer.
    pub trigger_sync: bool,
}

/// Ingests one validated reading under a caller-chosen identifier and
/// timestamp: validation failures never reach the store, a duplicate
/// identifier leaves the store unchanged, and on success exactly one
/// pending record is appended and the threshold trigger is decided.
pub fn ingest_reading_at(
    db: &mut Database,
    input: SensorDataInput,
    id: u128,
    now_millis: i64,
    batch_size: u32,
) -> (r: Result<IngestOutcome, IngestError>)
    requires
        old(db).wf(),
        input.in_range(),
    ensures
        final(db).wf(),
        match r {
            Ok(out) => {
                &&& spec_validate_reading(input@) is Ok
                &&& !contains_id(old(db)@, id)
                &&& record_enriches(out.record, input, id, now_millis)
                &&& final(db)@.len() == old(db)@.len() + 1
                &&& exists|row: crate::database::StoredReading|
                    #[trigger] final(db)@.contains(row) && !row.synced && row.reading@
                        == out.record@
                &&& forall|row: crate::database::StoredReading|
                    old(db)@.contains(row) ==> #[trigger] final(db)@.contains(row)
                &&& out.pending_count == spec_pending_count(final(db)@)
                &&& out.trigger_sync == (out.pending_count >= batch_size as usize)
            },
            Err(IngestError::Validation(e)) => {
                &&& spec_validate_reading(input@) == Err::<(), ValidationError>(e)
                &&& final(db)@ == old(db)@
            },
            Err(IngestError::Store(e)) => {
                &&& spec_validate_reading(input@) is Ok
                &&& e == StoreError::DuplicateId
                &&& contains_id(old(db)@, id)
                &&& final(db)@ == old(db)@
            },
        },
{
    if let Err(e) = validate_reading(&input) {
        return Err(IngestError::Validation(e));
    }
    let record = process_reading_at(input, id, now_millis);
    let stored = record.clone();
    match db.insert_reading(stored) {
        Ok(()) => {},
        Err(e) => {
            return Err(IngestError::Store(e));
        },
    }
    let pending_count = db.count_pending_sync();
    let trigger_sync = should_trigger_sync(pending_count, batch_size);
    Ok(IngestOutcome { record, pending_count, trigger_sync })
}

/// Ingests one reading under a fresh identifier and the current time.
/// The identifier is random: whether the append is accepted depends on
/// it, but the store only ever grows by that one pending record.
pub fn ingest_reading(
    db: &mut Database,
    processor: &EdgeProcessor,
    input: SensorDataInput,
    batch_size: u32,
) -> (r: Result<IngestOutcome, IngestError>)
    requires
        old(db).wf(),
        input.in_range(),
    ensures
        final(db).wf(),
        match r {
            Ok(out) => {
                &&& spec_validate_reading(input@) is Ok
                &&& record_enriches(out.record, input, out.record.id, out.record.gateway_timestamp)
                &&& final(db)@.len() == old(db)@.len() + 1
                &&& exists|row: crate::database::StoredReading|
                    #[trigger] final(db)@.contains(row) && !row.synced && row.reading@
                        == out.record@
                &&& forall|row: crate::database::StoredReading|
                    old(db)@.contains(row) ==> #[trigger] final(db)@.contains(row)
                &&& out.pending_count == spec_pending_count(final(db)@)
                &&& out.trigger_sync == (out.pending_count >= batch_size as usize)
            },
            Err(IngestError::Validation(e)) => {
                &&& spec_validate_reading(input@) == Err::<(), ValidationError>(e)
                &&& final(db)@ == old(db)@
            },
            Err(IngestError::Store(e)) => {
                &&& spec_validate_reading(input@) is Ok
                &&& e == StoreError::DuplicateId
                &&& final(db)@ == old(db)@
            },
        },
{
    if let Err(e) = validate_reading(&input) {
        return Err(IngestError::Validation(e));
    }
    let record = processor.process_reading(input);
    let stored = record.clone();
    match db.insert_reading(stored) {
        Ok(()) => {},
        Err(e) => {
            return Err(IngestError::Store(e));
        },
    }
    let pending_count = db.count_pending_sync();
    let trigger_sync = should_trigger_sync(pending_count, batch_size);
    Ok(IngestOutcome { record, pending_count, trigger_sync })
}


/// How many records of a batch were flagged anomalous.
pub open spec fn spec_anomaly_count(records: Seq<ProcessedSensorData>) -> int
    decreases records.len(),
{
    if records.len() == 0 {
        0
    } else {
        spec_anomaly_count(records.drop_last()) + if records.last().computed.is_anomaly {
            1int
        } else {
            0int
        }
    }
}

/// The sum of the quality scores of a batch.
pub open spec fn spec_quality_total(records: Seq<ProcessedSensorData>) -> int
    decreases records.len(),
{
    if records.len() == 0 {
        0
    } else {
        spec_quality_total(records.drop_last()) + records.last().quality.score
    }
}

/// None of the identifiers is stored already, and no identifier repeats.
pub open spec fn ids_fresh(s: Seq<crate::database::StoredReading>, ids: Seq<u128>) -> bool {
    &&& forall|i: int| 0 <= i < ids.len() ==> !contains_id(s, #[trigger] ids[i])
    &&& forall|i: int, j: int| 0 <= i < j < ids.len() ==> (#[trigger] ids[i]) != (#[trigger] ids[j])
}

/// What an accepted batch ingestion hands back to the adapter.
#[derive(Debug)]
pub struct BatchOutcome {
    /// The enriched records, in input order, as stored (pending).
    pub records: Vec<ProcessedSensorData>,
    /// How many of them were flagged anomalous.
    pub anomalies_detected: usize,
    /// The sum of their quality scores.
    pub total_quality: u64,
    /// Their mean quality score, in milli-units.
    pub average_quality_milli: u64,
    /// How many records were pending right after the append.
    pub pending_count: usize,
    /// Whether the backlog reached the batch size.
    pub trigger_sync: bool,
}

/// Ingests a validated batch atomically under caller-chosen identifiers
/// and one timestamp: a validation failure or any duplicate identifier
/// leaves the store unchanged — no record of the batch is ever visible
/// alone.
#[verifier::loop_isolation(false)]
pub fn ingest_batch_at(
    db: &mut Database,
    readings: Vec<SensorDataInput>,
    ids: &Vec<u128>,
    now_millis: i64,
    batch_size: u32,
) -> (r: Result<BatchOutcome, IngestError>)
    requires
        old(db).wf(),
        ids@.len() == readings@.len(),
        forall|i: int| 0 <= i < readings@.len() ==> (#[trigger] readings@[i]).in_range(),
    ensures
        final(db).wf(),
        match r {
            Ok(out) => {
                &&& spec_validate_batch(readings@.map_values(|x: SensorDataInput| x@)) is Ok
                &&& ids_fresh(old(db)@, ids@)
                &&& out.records@.len() == readings@.len()
                &&& forall|i: int|
                    0 <= i < readings@.len() ==> record_enriches(
                        #[trigger] out.records@[i],
                        readings@[i],
                        ids@[i],
                        now_millis,
                    )
                &&& final(db)@.len() == old(db)@.len() + readings@.len()
                &&& forall|row: crate::database::StoredReading|
                    old(db)@.contains(row) ==> #[trigger] final(db)@.contains(row)
                &&& forall|i: int|
                    0 <= i < readings@.len() ==> exists|row: crate::database::StoredReading|
                        #[trigger] final(db)@.contains(row) && !row.synced && row.reading@ == (
                        #[trigger] out.records@[i])@
                &&& out.anomalies_detected == spec_anomaly_count(out.records@)
                &&& out.total_quality == spec_quality_total(out.records@)
                &&& out.average_quality_milli == (if readings@.len() > 0 {
                    spec_quality_total(out.records@) * 1000 / (readings@.len() as int)
                } else {
                    0int
                })
                &&& out.pending_count == spec_pending_count(final(db)@)
                &&& out.trigger_sync == (out.pending_count >= batch_size as usize)
            },
            Err(IngestError::Validation(e)) => {
                &&& spec_validate_batch(readings@.map_values(|x: SensorDataInput| x@))
                    == Err::<(), ValidationError>(e)
                &&& final(db)@ == old(db)@
            },
            Err(IngestError::Store(e)) => {
                &&& spec_validate_batch(readings@.map_values(|x: SensorDataInput| x@)) is Ok
                &&& e == StoreError::DuplicateId
                &&& !ids_fresh(old(db)@, ids@)
                &&& final(db)@ == old(db)@
            },
        },
{
    let ghost rs = readings@.map_values(|x: SensorDataInput| x@);
    if readings.len() == 0 {
        return Err(IngestError::Validation(ValidationError::EmptyBatch));
    }
    if readings.len() > 100 {
        return Err(IngestError::Validation(ValidationError::BatchTooLarge));
    }
    proof {
        assert(rs.skip(0) =~= rs);
    }
    let mut i: usize = 0;
    while i < readings.len()
        invariant
            i <= rs.len(),
            rs == readings@.map_values(|x: SensorDataInput| x@),
            rs.len() == readings@.len(),
            spec_validate_batch_readings(rs) == spec_validate_batch_readings(rs.skip(i as int)),
        decreases rs.len() - i,
    {
        proof {
            assert(rs.skip(i as int)[0] == rs[i as int]);
            assert(rs[i as int] == readings@[i as int]@);
            assert(rs.skip(i as int).drop_first() =~= rs.skip(i + 1 as int));
        }
        if let Err(e) = validate_reading(&readings[i]) {
            return Err(IngestError::Validation(e));
        }
        i = i + 1;
    }
    proof {
        assert(rs.skip(i as int) =~= Seq::<ReadingView>::empty());
        assert(spec_validate_batch(rs) is Ok);
    }
    // enrich every reading under its identifier and the shared timestamp
    let mut records: Vec<ProcessedSensorData> = Vec::new();
    let mut k: usize = 0;
    while k < readings.len()
        invariant
            k <= readings@.len(),
            ids@.len() == readings@.len(),
            records@.len() == k,
            forall|j: int| 0 <= j < readings@.len() ==> (#[trigger] readings@[j]).in_range(),
            forall|j: int|
                0 <= j < k ==> record_enriches(
                    #[trigger] records@[j],
                    readings@[j],
                    ids@[j],
                    now_millis,
                ) && records@[j].id == ids@[j],
        decreases readings@.len() - k,
    {
        let rec = process_reading_at(readings[k].clone(), ids[k], now_millis);
        records.push(rec);
        k = k + 1;
    }
    // a stored copy of each record, view-equal with the same identifier
    let mut stored: Vec<ProcessedSensorData> = Vec::new();
    let mut k2: usize = 0;
    while k2 < records.len()
        invariant
            k2 <= records@.len(),
            stored@.len() == k2,
            forall|j: int|
                0 <= j < k2 ==> (#[trigger] stored@[j])@ == records@[j]@ && stored@[j].id
                    == records@[j].id,
        decreases records@.len() - k2,
    {
        stored.push(records[k2].clone());
        k2 = k2 + 1;
    }
    let ghost stored_view = stored@;
    let ghost s0 = db@;
    match db.insert_batch(stored) {
        Ok(()) => {
            proof {
                assert forall|j: int| 0 <= j < ids@.len() implies !contains_id(
                    s0,
                    #[trigger] ids@[j],
                ) by {
                    assert(stored_view[j].id == ids@[j]);
                }
                assert forall|i2: int, j2: int| 0 <= i2 < j2 < ids@.len() implies (
                #[trigger] ids@[i2]) != (#[trigger] ids@[j2]) by {
                    assert(stored_view[i2].id == ids@[i2]);
                    assert(stored_view[j2].id == ids@[j2]);
                }
            }
        },
        Err(e) => {
            proof {
                assert(!crate::database::batch_ids_fresh(s0, stored_view));
                if (forall|j: int|
                    0 <= j < ids@.len() ==> !contains_id(s0, #[trigger] ids@[j])) && (forall|
                    i2: int,
                    j2: int,
                |
                    0 <= i2 < j2 < ids@.len() ==> (#[trigger] ids@[i2]) != (#[trigger] ids@[j2])) {
                    assert forall|j: int| 0 <= j < stored_view.len() implies !contains_id(
                        s0,
                        (#[trigger] stored_view[j]).id,
                    ) by {
                        assert(stored_view[j].id == ids@[j]);
                    }
                    assert forall|i2: int, j2: int|
                        0 <= i2 < j2 < stored_view.len() implies (#[trigger] stored_view[i2]).id
                        != (#[trigger] stored_view[j2]).id by {
                        assert(stored_view[i2].id == ids@[i2]);
                        assert(stored_view[j2].id == ids@[j2]);
                    }
                    assert(crate::database::batch_ids_fresh(s0, stored_view));
                }
            }
            return Err(IngestError::Store(e));
        },
    }
    // statistics of the accepted batch
    let mut anomalies: usize = 0;
    let mut total: u64 = 0;
    let mut k3: usize = 0;
    while k3 < records.len()
        invariant
            k3 <= records@.len(),
            records@.len() <= 100,
            anomalies == spec_anomaly_count(records@.take(k3 as int)),
            total == spec_quality_total(records@.take(k3 as int)),
            anomalies <= k3,
            total <= 100 * k3,
        decreases records@.len() - k3,
    {
        proof {
            assert(records@.take(k3 + 1 as int).drop_last() =~= records@.take(k3 as int));
            assert(records@.take(k3 + 1 as int).last() == records@[k3 as int]);
        }
        proof {
            assert(record_enriches(
                records@[k3 as int],
                readings@[k3 as int],
                ids@[k3 as int],
                now_millis,
            ));
            assert(records@[k3 as int].quality.score <= 100);
        }
        if records[k3].computed.is_anomaly {
            anomalies = anomalies + 1;
        }
        total = total + (records[k3].quality.score as u64);
        k3 = k3 + 1;
    }
    proof {
        assert(records@.take(records@.len() as int) =~= records@);
    }
    let n = records.len();
    let average_quality_milli: u64 = if n > 0 {
        total * 1000 / (n as u64)
    } else {
        0
    };
    let pending_count = db.count_pending_sync();
    let trigger_sync = should_trigger_sync(pending_count, batch_size);
    proof {
        assert forall|i2: int| 0 <= i2 < readings@.len() implies exists|
            row: crate::database::StoredReading,
        |
            #[trigger] db@.contains(row) && !row.synced && row.reading@ == (
            #[trigger] records@[i2])@ by {
            let row = pending_row(stored_view[i2]);
            assert(db@.contains(row));
            assert(!row.synced);
            assert(row.reading@ == records@[i2]@);
        }
    }
    Ok(
        BatchOutcome {
            records,
            anomalies_detected: anomalies,
            total_quality: total,
            average_quality_milli,
            pending_count,
            trigger_sync,
        },
    )
}

/// Ingests a batch under fresh identifiers and the current time. The
/// identifiers are random: whether the append is accepted depends on
/// them, but the batch commits atomically or not at all.
pub fn ingest_batch(
    db: &mut Database,
    batch: SensorDataBatch,
    batch_size: u32,
) -> (r: Result<BatchOutcome, IngestError>)
    requires
        old(db).wf(),
        forall|i: int|
            0 <= i < batch.readings@.len() ==> (#[trigger] batch.readings@[i]).in_range(),
    ensures
        final(db).wf(),
        match r {
            Ok(out) => {
                &&& spec_validate_batch(batch@) is Ok
                &&& out.records@.len() == batch.readings@.len()
                &&& forall|i: int|
                    0 <= i < batch.readings@.len() ==> record_enriches(
                        #[trigger] out.records@[i],
                        batch.readings@[i],
                        out.records@[i].id,
                        out.records@[i].gateway_timestamp,
                    )
                &&& final(db)@.len() == old(db)@.len() + batch.readings@.len()
                &&& forall|row: crate::database::StoredReading|
                    old(db)@.contains(row) ==> #[trigger] final(db)@.contains(row)
                &&& forall|i: int|
                    0 <= i < batch.readings@.len() ==> exists|
                        row: crate::database::StoredReading,
                    |
                        #[trigger] final(db)@.contains(row) && !row.synced && row.reading@ == (
                        #[trigger] out.records@[i])@
                &&& out.anomalies_detected == spec_anomaly_count(out.records@)
                &&& out.total_quality == spec_quality_total(out.records@)
                &&& out.average_quality_milli == (if batch.readings@.len() > 0 {
                    spec_quality_total(out.records@) * 1000 / (batch.readings@.len() as int)
                } else {
                    0int
                })
                &&& out.pending_count == spec_pending_count(final(db)@)
                &&& out.trigger_sync == (out.pending_count >= batch_size as usize)
            },
            Err(IngestError::Validation(e)) => {
                &&& spec_validate_batch(batch@) == Err::<(), ValidationError>(e)
                &&& final(db)@ == old(db)@
            },
            Err(IngestError::Store(e)) => {
                &&& spec_validate_batch(batch@) is Ok
                &&& e == StoreError::DuplicateId
                &&& final(db)@ == old(db)@
            },
        },
{
    let mut ids: Vec<u128> = Vec::new();
    let mut i: usize = 0;
    let n = batch.readings.len();
    while i < n
        invariant
            ids@.len() == i,
            i <= n,
        decreases n - i,
    {
        ids.push(crate::runtime::fresh_record_id());
        i = i + 1;
    }
    let now = crate::runtime::current_timestamp_millis();
    proof {
        assert(batch@ == batch.readings@.map_values(|x: SensorDataInput| x@));
    }
    ingest_batch_at(db, batch.readings, &ids, now, batch_size)
}

} // verus!
