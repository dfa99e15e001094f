//! Data model: raw readings, enriched records, and their mathematical views.

use vstd::prelude::*;

verus! {

/// Largest magnitude, in milli-units, that a stored metric value may have.
/// The adapters saturate incoming values to this range when they convert
/// from the wire format.
pub const MAX_ABS_MILLI: i64 = 1_000_000_000_000;

/// Largest number of metrics a single reading may carry.
pub const MAX_METRICS: usize = 100_000_000;

/// A measured value in milli-units, or one of the non-finite shapes a
/// sensor can send.
#[derive(Clone, Copy, Debug, PartialEq, Eq, Structural)]
pub enum MetricValue {
    /// A finite value, scaled by 1000 (so `21_500` is 21.5 units).
    Finite(i64),
    /// Not a number.
    NotANumber,
    /// Positive infinity.
    PosInfinite,
    /// Negative infinity.
    NegInfinite,
}

impl MetricValue {
    pub open spec fn spec_is_finite(&self) -> bool {
        self is Finite
    }

    pub open spec fn spec_is_nan(&self) -> bool {
        self is NotANumber
    }

    pub open spec fn spec_is_infinite(&self) -> bool {
        self is PosInfinite || self is NegInfinite
    }

    /// The finite value in milli-units; meaningful only when finite.
    pub open spec fn spec_milli(self) -> i64 {
        self->Finite_0
    }

    /// A stored value is within the representable fixed-point range.
    pub open spec fn in_range(self) -> bool {
        self is Finite ==> -MAX_ABS_MILLI <= self->Finite_0 <= MAX_ABS_MILLI
    }

    #[verifier::when_used_as_spec(spec_is_finite)]
    pub fn is_finite(&self) -> (r: bool)
        ensures
            r == self.spec_is_finite(),
    {
        matches!(self, MetricValue::Finite(_))
    }

    #[verifier::when_used_as_spec(spec_is_nan)]
    pub fn is_nan(&self) -> (r: bool)
        ensures
            r == self.spec_is_nan(),
    {
        matches!(self, MetricValue::NotANumber)
    }

    #[verifier::when_used_as_spec(spec_is_infinite)]
    pub fn is_infinite(&self) -> (r: bool)
        ensures
            r == self.spec_is_infinite(),
    {
        matches!(self, MetricValue::PosInfinite | MetricValue::NegInfinite)
    }
}

/// Mathematical view of one metric.
pub ghost struct MetricView {
    pub measurement: Seq<char>,
    pub value: MetricValue,
}

/// One named measurement of a reading.
#[derive(Debug, PartialEq, Eq)]
pub struct SensorMetric {
    /// Name of the measurement (`Temperature`, `Humidity`, ...).
    pub measurement: String,
    /// The measured value.
    pub value: MetricValue,
}

impl View for SensorMetric {
    type V = MetricView;

    open spec fn view(&self) -> MetricView {
        MetricView { measurement: self.measurement@, value: self.value }
    }
}

impl Clone for SensorMetric {
    fn clone(&self) -> (r: Self)
        ensures
            r == *self,
    {
        SensorMetric { measurement: self.measurement.clone(), value: self.value }
    }
}

/// The views of a metric list, element by element.
pub open spec fn metrics_view(metrics: Seq<SensorMetric>) -> Seq<MetricView> {
    metrics.map_values(|m: SensorMetric| m@)
}

/// Every value of the list is within the representable range, and the list
/// is small enough for the arithmetic of the pipeline.
pub open spec fn metrics_in_range(metrics: Seq<MetricView>) -> bool {
    &&& metrics.len() <= MAX_METRICS
    &&& forall|i: int| 0 <= i < metrics.len() ==> (#[trigger] metrics[i].value).in_range()
}

/// Mathematical view of a header.
pub ghost struct HeaderView {
    pub user_uuid: Option<Seq<char>>,
    pub device_id: Seq<char>,
    pub location: Seq<char>,
    pub topic: Seq<char>,
    pub should_requeue: bool,
}

/// Device information carried by every reading.
#[derive(Debug, PartialEq, Eq)]
pub struct SensorHeader {
    /// User identity, filled in by the gateway before upload.
    pub user_uuid: Option<String>,
    /// Identifier of the sending device.
    pub device_id: String,
    /// Free-form location label.
    pub location: String,
    /// Topic the reading was published under.
    pub topic: String,
    /// Whether the sender asked for the message to be requeued.
    pub should_requeue: bool,
}

impl View for SensorHeader {
    type V = HeaderView;

    open spec fn view(&self) -> HeaderView {
        HeaderView {
            user_uuid: match self.user_uuid {
                Some(u) => Some(u@),
                None => None,
            },
            device_id: self.device_id@,
            location: self.location@,
            topic: self.topic@,
            should_requeue: self.should_requeue,
        }
    }
}

impl Clone for SensorHeader {
    fn clone(&self) -> (r: Self)
        ensures
            r == *self,
    {
        SensorHeader {
            user_uuid: match &self.user_uuid {
                Some(u) => Some(u.clone()),
                None => None,
            },
            device_id: self.device_id.clone(),
            location: self.location.clone(),
            topic: self.topic.clone(),
            should_requeue: self.should_requeue,
        }
    }
}

/// Mathematical view of a raw reading.
pub ghost struct ReadingView {
    pub header: HeaderView,
    pub metrics: Seq<MetricView>,
}

/// A raw reading as one ingestion unit.
#[derive(Debug, PartialEq, Eq)]
pub struct SensorDataInput {
    /// Device information.
    pub header: SensorHeader,
    /// The named metrics of this reading.
    pub metrics: Vec<SensorMetric>,
}

impl SensorDataInput {
    /// All metric values are within the representable fixed-point range,
    /// and the reading is small enough for the arithmetic of the pipeline.
    pub open spec fn in_range(&self) -> bool {
        metrics_in_range(metrics_view(self.metrics@))
    }
}

impl View for SensorDataInput {
    type V = ReadingView;

    open spec fn view(&self) -> ReadingView {
        ReadingView { header: self.header@, metrics: metrics_view(self.metrics@) }
    }
}

impl Clone for SensorDataInput {
    fn clone(&self) -> (r: Self)
        ensures
            r@ == self@,
            r.header == self.header,
            r.metrics@ == self.metrics@,
    {
        SensorDataInput { header: self.header.clone(), metrics: clone_metrics(&self.metrics) }
    }
}

/// Clones a metric list element by element, keeping every value.
pub fn clone_metrics(metrics: &Vec<SensorMetric>) -> (r: Vec<SensorMetric>)
    ensures
        r@ == metrics@,
{
    let mut out: Vec<SensorMetric> = Vec::new();
    let mut i: usize = 0;
    while i < metrics.len()
        invariant
            i <= metrics@.len(),
            out@ == metrics@.take(i as int),
        decreases metrics@.len() - i,
    {
        out.push(metrics[i].clone());
        proof {
            assert(out@ =~= metrics@.take(i + 1 as int));
        }
        i = i + 1;
    }
    proof {
        assert(out@ =~= metrics@);
    }
    out
}

/// A batch of raw readings.
#[derive(Debug)]
pub struct SensorDataBatch {
    /// The readings, in the order they were sent.
    pub readings: Vec<SensorDataInput>,
}

impl View for SensorDataBatch {
    type V = Seq<ReadingView>;

    open spec fn view(&self) -> Seq<ReadingView> {
        self.readings@.map_values(|r: SensorDataInput| r@)
    }
}

/// Why a quality deduction was taken.
#[derive(Clone, Copy, Debug, PartialEq, Eq, Structural)]
pub enum IssueKind {
    /// The reading carried no metrics at all.
    NoMetrics,
    /// The reading was flagged anomalous.
    AnomalousReading,
    /// A metric value was not a number.
    NanValue,
    /// A metric value was infinite.
    InfiniteValue,
    /// The location label was empty or blank.
    BlankLocation,
}

/// Mathematical view of a quality issue.
pub ghost struct IssueView {
    pub kind: IssueKind,
    pub measurement: Option<Seq<char>>,
}

/// One recorded quality issue; for per-metric issues the name of the
/// metric concerned is kept.
#[derive(Debug, PartialEq, Eq)]
pub struct Issue {
    /// What went wrong.
    pub kind: IssueKind,
    /// The metric concerned, for per-metric issues.
    pub measurement: Option<String>,
}

impl View for Issue {
    type V = IssueView;

    open spec fn view(&self) -> IssueView {
        IssueView {
            kind: self.kind,
            measurement: match self.measurement {
                Some(m) => Some(m@),
                None => None,
            },
        }
    }
}

impl Clone for Issue {
    fn clone(&self) -> (r: Self)
        ensures
            r == *self,
    {
        Issue {
            kind: self.kind,
            measurement: match &self.measurement {
                Some(m) => Some(m.clone()),
                None => None,
            },
        }
    }
}

/// Clones an issue list element by element, keeping every value.
pub fn clone_issues(issues: &Vec<Issue>) -> (r: Vec<Issue>)
    ensures
        r@ == issues@,
{
    let mut out: Vec<Issue> = Vec::new();
    let mut i: usize = 0;
    while i < issues.len()
        invariant
            i <= issues@.len(),
            out@ == issues@.take(i as int),
        decreases issues@.len() - i,
    {
        out.push(issues[i].clone());
        proof {
            assert(out@ =~= issues@.take(i + 1 as int));
        }
        i = i + 1;
    }
    proof {
        assert(out@ =~= issues@);
    }
    out
}

/// Clones a list of names element by element, keeping every value.
pub fn clone_strings(names: &Vec<String>) -> (r: Vec<String>)
    ensures
        r@ == names@,
{
    let mut out: Vec<String> = Vec::new();
    let mut i: usize = 0;
    while i < names.len()
        invariant
            i <= names@.len(),
            out@ == names@.take(i as int),
        decreases names@.len() - i,
    {
        out.push(names[i].clone());
        proof {
            assert(out@ =~= names@.take(i + 1 as int));
        }
        i = i + 1;
    }
    proof {
        assert(out@ =~= names@);
    }
    out
}

/// Mathematical view of a quality block.
pub ghost struct QualityView {
    pub score: u8,
    pub issues: Seq<IssueView>,
    pub corrected: bool,
}

/// Quality of a reading: a score in [0, 100], the issues found, and
/// whether any value was corrected.
#[derive(Debug, PartialEq, Eq)]
pub struct DataQuality {
    /// Overall score, 0 to 100.
    pub score: u8,
    /// Why the score is below 100.
    pub issues: Vec<Issue>,
    /// Whether any value was corrected; reserved, always false.
    pub corrected: bool,
}

impl View for DataQuality {
    type V = QualityView;

    open spec fn view(&self) -> QualityView {
        QualityView {
            score: self.score,
            issues: self.issues@.map_values(|i: Issue| i@),
            corrected: self.corrected,
        }
    }
}

impl Clone for DataQuality {
    fn clone(&self) -> (r: Self)
        ensures
            r@ == self@,
            r.score == self.score,
            r.issues@ == self.issues@,
            r.corrected == self.corrected,
    {
        DataQuality {
            score: self.score,
            issues: clone_issues(&self.issues),
            corrected: self.corrected,
        }
    }
}

/// Mathematical view of the derived metrics.
pub ghost struct ComputedView {
    pub heat_index: Option<i64>,
    pub dew_point: Option<i64>,
    pub comfort_level: Option<i64>,
    pub is_anomaly: bool,
    pub stats: Seq<MetricView>,
}

/// Metrics derived locally from a reading, in milli-units.
#[derive(Debug, PartialEq, Eq)]
pub struct ComputedMetrics {
    /// Heat index, when temperature and humidity are present.
    pub heat_index: Option<i64>,
    /// Dew point, when temperature and humidity are present.
    pub dew_point: Option<i64>,
    /// Comfort level in [0, 100] units, when computable.
    pub comfort_level: Option<i64>,
    /// Whether a threshold rule flagged the reading.
    pub is_anomaly: bool,
    /// Snapshot statistics, one entry per metric.
    pub stats: Vec<SensorMetric>,
}

impl View for ComputedMetrics {
    type V = ComputedView;

    open spec fn view(&self) -> ComputedView {
        ComputedView {
            heat_index: self.heat_index,
            dew_point: self.dew_point,
            comfort_level: self.comfort_level,
            is_anomaly: self.is_anomaly,
            stats: metrics_view(self.stats@),
        }
    }
}

impl Clone for ComputedMetrics {
    fn clone(&self) -> (r: Self)
        ensures
            r@ == self@,
            r.heat_index == self.heat_index,
            r.dew_point == self.dew_point,
            r.comfort_level == self.comfort_level,
            r.is_anomaly == self.is_anomaly,
            r.stats@ == self.stats@,
    {
        ComputedMetrics {
            heat_index: self.heat_index,
            dew_point: self.dew_point,
            comfort_level: self.comfort_level,
            is_anomaly: self.is_anomaly,
            stats: clone_metrics(&self.stats),
        }
    }
}

/// Mathematical view of the metadata block.
pub ghost struct MetadataView {
    pub metrics_count: usize,
    pub measurement_types: Seq<Seq<char>>,
    pub should_requeue: bool,
}

/// Metadata extracted while enriching.
#[derive(Debug, PartialEq, Eq)]
pub struct ProcessedMetadata {
    /// How many metrics the reading carried.
    pub metrics_count: usize,
    /// The measurement names, in reading order.
    pub measurement_types: Vec<String>,
    /// Copied from the header.
    pub should_requeue: bool,
}

impl View for ProcessedMetadata {
    type V = MetadataView;

    open spec fn view(&self) -> MetadataView {
        MetadataView {
            metrics_count: self.metrics_count,
            measurement_types: self.measurement_types@.map_values(|s: String| s@),
            should_requeue: self.should_requeue,
        }
    }
}

impl Clone for ProcessedMetadata {
    fn clone(&self) -> (r: Self)
        ensures
            r@ == self@,
            r.metrics_count == self.metrics_count,
            r.measurement_types@ == self.measurement_types@,
            r.should_requeue == self.should_requeue,
    {
        ProcessedMetadata {
            metrics_count: self.metrics_count,
            measurement_types: clone_strings(&self.measurement_types),
            should_requeue: self.should_requeue,
        }
    }
}

/// Mathematical view of an enriched record.
pub ghost struct RecordView {
    pub id: u128,
    pub header: HeaderView,
    pub metrics: Seq<MetricView>,
    pub gateway_timestamp: i64,
    pub computed: ComputedView,
    pub quality: QualityView,
    pub metadata: MetadataView,
}

/// An enriched record: the durable unit of work.
#[derive(Debug, PartialEq, Eq)]
pub struct ProcessedSensorData {
    /// Unique identifier, assigned once at enrichment.
    pub id: u128,
    /// Device information, possibly overwritten by the adapter.
    pub header: SensorHeader,
    /// The original metrics, immutable after creation.
    pub metrics: Vec<SensorMetric>,
    /// Wall-clock time of enrichment, in milliseconds.
    pub gateway_timestamp: i64,
    /// Derived metrics and the anomaly flag.
    pub computed: ComputedMetrics,
    /// The quality block.
    pub quality: DataQuality,
    /// Extracted metadata.
    pub metadata: ProcessedMetadata,
}

impl View for ProcessedSensorData {
    type V = RecordView;

    open spec fn view(&self) -> RecordView {
        RecordView {
            id: self.id,
            header: self.header@,
            metrics: metrics_view(self.metrics@),
            gateway_timestamp: self.gateway_timestamp,
            computed: self.computed@,
            quality: self.quality@,
            metadata: self.metadata@,
        }
    }
}

impl Clone for ProcessedSensorData {
    fn clone(&self) -> (r: Self)
        ensures
            r@ == self@,
            r.id == self.id,
            r.header == self.header,
            r.metrics@ == self.metrics@,
            r.gateway_timestamp == self.gateway_timestamp,
            r.quality.score == self.quality.score,
    {
        ProcessedSensorData {
            id: self.id,
            header: self.header.clone(),
            metrics: clone_metrics(&self.metrics),
            gateway_timestamp: self.gateway_timestamp,
            computed: self.computed.clone(),
            quality: self.quality.clone(),
            metadata: self.metadata.clone(),
        }
    }
}

/// Mathematical view of the outbound header.
pub ghost struct CloudHeaderView {
    pub user_uuid: Seq<char>,
    pub device_id: Seq<char>,
    pub location: Seq<char>,
    pub topic: Seq<char>,
    pub should_requeue: bool,
    pub gateway_id: Seq<char>,
}

/// Header of an outbound payload, carrying the gateway identity.
#[derive(Debug, PartialEq, Eq)]
pub struct CloudHeader {
    /// User identity of this gateway.
    pub user_uuid: String,
    /// Identifier of the originating device.
    pub device_id: String,
    /// Location label of the reading.
    pub location: String,
    /// Topic of the reading.
    pub topic: String,
    /// Copied from the reading.
    pub should_requeue: bool,
    /// Identifier of the gateway that processed the reading.
    pub gateway_id: String,
}

impl View for CloudHeader {
    type V = CloudHeaderView;

    open spec fn view(&self) -> CloudHeaderView {
        CloudHeaderView {
            user_uuid: self.user_uuid@,
            device_id: self.device_id@,
            location: self.location@,
            topic: self.topic@,
            should_requeue: self.should_requeue,
            gateway_id: self.gateway_id@,
        }
    }
}

/// Mathematical view of an outbound payload.
pub ghost struct CloudPayloadView {
    pub header: CloudHeaderView,
    pub metrics: Seq<MetricView>,
    pub sent_at: i64,
    pub quality: QualityView,
}

/// One outbound message to the remote collector: the header, the original
/// metrics with the derived ones flattened in, and the quality block.
#[derive(Debug, PartialEq, Eq)]
pub struct CloudPayload {
    /// Outbound header.
    pub header: CloudHeader,
    /// Original metrics plus the derived metrics as additional entries.
    pub metrics: Vec<SensorMetric>,
    /// When the payload was built, in milliseconds.
    pub sent_at: i64,
    /// Quality block of the record.
    pub quality: DataQuality,
}

impl View for CloudPayload {
    type V = CloudPayloadView;

    open spec fn view(&self) -> CloudPayloadView {
        CloudPayloadView {
            header: self.header@,
            metrics: metrics_view(self.metrics@),
            sent_at: self.sent_at,
            quality: self.quality@,
        }
    }
}

} // verus!

