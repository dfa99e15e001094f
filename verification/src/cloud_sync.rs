//! Decisions of the cloud synchronizer: building outbound payloads,
//! reconciling per-message dispatch outcomes against the store, and the
//! threshold trigger. The dispatch itself — the broker connection and the
//! network — lives outside; these functions say exactly what is marked
//! synced for every pattern of outcomes.

use vstd::prelude::*;

use crate::database::{spec_mark, Database};
use crate::models::{
    clone_metrics, metrics_view, CloudHeader, CloudPayload, MetricValue, MetricView,
    ProcessedSensorData, SensorMetric,
};
use vstd::string::StringExecFns;

verus! {

/// Outcome of one sync cycle.
#[derive(Clone, Copy, Debug, PartialEq, Eq, Structural)]
pub struct SyncReport {
    /// How many records the cycle fetched and tried to dispatch.
    pub attempted: usize,
    /// How many dispatches succeeded; exactly these are marked synced.
    pub sent: usize,
    /// How many dispatches failed; these records stay pending.
    pub failed: usize,
}

impl SyncReport {
    /// A cycle reports success only when nothing failed.
    pub open spec fn spec_success(&self) -> bool {
        self.failed == 0
    }

    /// Whether the cycle as a whole succeeded.
    #[verifier::when_used_as_spec(spec_success)]
    pub fn is_success(&self) -> (r: bool)
        ensures
            r == self.spec_success(),
    {
        self.failed == 0
    }
}

/// The identifiers of the records whose dispatch succeeded, in batch
/// order.
pub open spec fn spec_successful_ids(batch: Seq<ProcessedSensorData>, ok: Seq<bool>) -> Seq<u128>
    decreases batch.len(),
{
    if batch.len() == 0 {
        Seq::empty()
    } else {
        spec_successful_ids(batch.drop_last(), ok.drop_last()) + (if ok[batch.len() - 1] {
            seq![batch.last().id]
        } else {
            Seq::empty()
        })
    }
}

/// How many dispatches succeeded.
pub open spec fn spec_count_true(ok: Seq<bool>) -> int
    decreases ok.len(),
{
    if ok.len() == 0 {
        0
    } else {
        spec_count_true(ok.drop_last()) + if ok.last() {
            1int
        } else {
            0int
        }
    }
}

/// Reconciles the per-record dispatch outcomes of one cycle: exactly the
/// records whose dispatch succeeded are marked synced, the rest stay
/// pending for the next trigger, and the report counts both.
pub fn apply_sync_results(
    db: &mut Database,
    batch: &Vec<ProcessedSensorData>,
    ok: &Vec<bool>,
) -> (r: SyncReport)
    requires
        old(db).wf(),
        batch@.len() == ok@.len(),
    ensures
        final(db).wf(),
        final(db)@ == spec_mark(old(db)@, spec_successful_ids(batch@, ok@)),
        r.attempted == batch@.len(),
        r.sent == spec_count_true(ok@),
        r.failed == batch@.len() - spec_count_true(ok@),
        r.spec_success() <==> spec_count_true(ok@) == batch@.len(),
    {
    let ghost b = batch@;
    let ghost o = ok@;
    let mut ids: Vec<u128> = Vec::new();
    let mut i: usize = 0;
    while i < batch.len()
        invariant
            i <= b.len(),
            b == batch@,
            o == ok@,
            b.len() == o.len(),
            ids@ == spec_successful_ids(b.take(i as int), o.take(i as int)),
            ids@.len() == spec_count_true(o.take(i as int)),
            ids@.len() <= i,
        decreases b.len() - i,
    {
        proof {
            assert(b.take(i + 1 as int).drop_last() =~= b.take(i as int));
            assert(o.take(i + 1 as int).drop_last() =~= o.take(i as int));
            assert(b.take(i + 1 as int).last() == b[i as int]);
            assert(o.take(i + 1 as int).last() == o[i as int]);
        }
        if ok[i] {
            ids.push(batch[i].id);
        }
        i = i + 1;
    }
    proof {
        assert(b.take(b.len() as int) =~= b);
        assert(o.take(o.len() as int) =~= o);
        lemma_count_true_bounded(o);
    }
    let sent = ids.len();
    if sent > 0 {
        db.mark_as_synced(&ids);
    } else {
        proof {
            assert(ids@ =~= Seq::<u128>::empty());
            assert(spec_mark(db@, ids@) =~= db@);
        }
    }
    SyncReport { attempted: batch.len(), sent, failed: batch.len() - sent }
}

/// The number of successes never exceeds the number of outcomes.
proof fn lemma_count_true_bounded(ok: Seq<bool>)
    ensures
        0 <= spec_count_true(ok) <= ok.len(),
    decreases ok.len(),
{
    if ok.len() > 0 {
        lemma_count_true_bounded(ok.drop_last());
    }
}

/// The extra metric entries an outbound payload carries beyond the
/// original metrics: each derived value that is present, then the
/// quality score, all in milli-units.
pub open spec fn spec_extra_metrics(
    c: crate::models::ComputedMetrics,
    score: u8,
) -> Seq<MetricView> {
    (if c.heat_index is Some {
        seq![
            MetricView {
                measurement: "HeatIndex"@,
                value: MetricValue::Finite(c.heat_index.unwrap()),
            },
        ]
    } else {
        Seq::empty()
    }) + (if c.dew_point is Some {
        seq![
            MetricView {
                measurement: "DewPoint"@,
                value: MetricValue::Finite(c.dew_point.unwrap()),
            },
        ]
    } else {
        Seq::empty()
    }) + (if c.comfort_level is Some {
        seq![
            MetricView {
                measurement: "ComfortLevel"@,
                value: MetricValue::Finite(c.comfort_level.unwrap()),
            },
        ]
    } else {
        Seq::empty()
    }) + seq![
        MetricView {
            measurement: "QualityScore"@,
            value: MetricValue::Finite((score as i64 * 1000) as i64),
        },
    ]
}

/// Builds the outbound payload for one record: the header rewritten with
/// the gateway identity, the original metrics with the derived metrics
/// and the quality score flattened in, and the record's quality block.
pub fn build_cloud_payload(
    data: &ProcessedSensorData,
    user_uuid: &String,
    gateway_id: &String,
    sent_at: i64,
) -> (r: CloudPayload)
    ensures
        r.header == (CloudHeader {
            user_uuid: *user_uuid,
            device_id: data.header.device_id,
            location: data.header.location,
            topic: data.header.topic,
            should_requeue: data.header.should_requeue,
            gateway_id: *gateway_id,
        }),
        metrics_view(r.metrics@) == metrics_view(data.metrics@) + spec_extra_metrics(
            data.computed,
            data.quality.score,
        ),
        r.sent_at == sent_at,
        r.quality.score == data.quality.score,
        r.quality.issues@ == data.quality.issues@,
        r.quality.corrected == data.quality.corrected,
{
    let mut metrics = clone_metrics(&data.metrics);
    let ghost base = metrics_view(data.metrics@);
    proof {
        assert(metrics_view(metrics@) =~= base);
    }
    let ghost mut acc: Seq<MetricView> = Seq::empty();
    if let Some(hi) = data.computed.heat_index {
        metrics.push(
            SensorMetric {
                measurement: String::from_str("HeatIndex"),
                value: MetricValue::Finite(hi),
            },
        );
        proof {
            acc = acc + seq![
                MetricView { measurement: "HeatIndex"@, value: MetricValue::Finite(hi) },
            ];
            assert(metrics_view(metrics@) =~= base + acc);
        }
    }
    if let Some(dp) = data.computed.dew_point {
        metrics.push(
            SensorMetric {
                measurement: String::from_str("DewPoint"),
                value: MetricValue::Finite(dp),
            },
        );
        proof {
            acc = acc + seq![
                MetricView { measurement: "DewPoint"@, value: MetricValue::Finite(dp) },
            ];
            assert(metrics_view(metrics@) =~= base + acc);
        }
    }
    if let Some(cl) = data.computed.comfort_level {
        metrics.push(
            SensorMetric {
                measurement: String::from_str("ComfortLevel"),
                value: MetricValue::Finite(cl),
            },
        );
        proof {
            acc = acc + seq![
                MetricView { measurement: "ComfortLevel"@, value: MetricValue::Finite(cl) },
            ];
            assert(metrics_view(metrics@) =~= base + acc);
        }
    }
    let score_milli = (data.quality.score as i64) * 1000;
    metrics.push(
        SensorMetric {
            measurement: String::from_str("QualityScore"),
            value: MetricValue::Finite(score_milli),
        },
    );
    proof {
        acc = acc + seq![
            MetricView {
                measurement: "QualityScore"@,
                value: MetricValue::Finite((data.quality.score as i64 * 1000) as i64),
            },
        ];
        assert(metrics_view(metrics@) =~= base + acc);
        assert(acc =~= spec_extra_metrics(data.computed, data.quality.score));
    }
    CloudPayload {
        header: CloudHeader {
            user_uuid: user_uuid.clone(),
            device_id: data.header.device_id.clone(),
            location: data.header.location.clone(),
            topic: data.header.topic.clone(),
            should_requeue: data.header.should_requeue,
            gateway_id: gateway_id.clone(),
        },
        metrics,
        sent_at,
        quality: data.quality.clone(),
    }
}

/// The threshold trigger: a sync cycle is due exactly when the pending
/// backlog has reached the configured batch size.
pub fn should_trigger_sync(pending_count: usize, batch_size: u32) -> (r: bool)
    ensures
        r == (pending_count >= batch_size as usize),
{
    pending_count >= batch_size as usize
}

} // verus!
