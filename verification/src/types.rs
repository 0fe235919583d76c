//! Core domain types for metrics collection: the metric request, its type
//! and value, the recorded snapshot, and the timer guard.
//!
//! A request and a snapshot carry the same information — a name, a type, a
//! value, labels, optional help text, a creation timestamp — so both abstract
//! to one view type, `MetricView`.  Converting a request into a snapshot
//! preserves that view exactly.

use vstd::prelude::*;
use vstd::string::StringExecFns;

use crate::labels::Labels;
use crate::scalar::Scalar;

verus! {

/// The kind of a metric: how its observations aggregate.
#[derive(Debug, Clone, Copy, PartialEq, Eq, Structural, Hash)]
pub enum MetricType {
    /// Monotonically increasing value (requests, errors, bytes sent).
    Counter,
    /// Value that can go up or down (memory usage, active connections).
    Gauge,
    /// Statistical distribution of values (latencies, payload sizes).
    Histogram,
    /// Duration measurement, typically converted to a histogram by adapters.
    Timer,
}

impl MetricType {
    /// The lowercase name of the metric type.
    pub fn as_str(&self) -> (s: &'static str)
        ensures
            *self == MetricType::Counter ==> s@ == "counter"@,
            *self == MetricType::Gauge ==> s@ == "gauge"@,
            *self == MetricType::Histogram ==> s@ == "histogram"@,
            *self == MetricType::Timer ==> s@ == "timer"@,
    {
        match self {
            MetricType::Counter => "counter",
            MetricType::Gauge => "gauge",
            MetricType::Histogram => "histogram",
            MetricType::Timer => "timer",
        }
    }
}

/// One histogram bucket: an upper bound and the count of observations that
/// fell at or below it.
#[derive(Debug, Clone, Copy, PartialEq, Eq, Structural, Hash)]
pub struct HistogramBucket {
    /// Upper bound for this bucket (inclusive).
    pub upper_bound: Scalar,
    /// Number of observations that fell into this bucket.
    pub count: u64,
}

/// A metric value: either one scalar observation or a whole histogram.
#[derive(Debug, PartialEq)]
pub enum MetricValue {
    /// A single number: counters, gauges, timer seconds, one observation.
    Single(Scalar),
    /// A histogram distribution: total sum, total count, and the buckets.
    Histogram { sum: Scalar, count: u64, buckets: Vec<HistogramBucket> },
}

/// The abstract value of a `MetricValue`: the same shape with the bucket
/// vector abstracted to a sequence.
pub enum MetricValueView {
    Single(Scalar),
    Histogram { sum: Scalar, count: u64, buckets: Seq<HistogramBucket> },
}

impl View for MetricValue {
    type V = MetricValueView;

    open spec fn view(&self) -> MetricValueView {
        match self {
            MetricValue::Single(s) => MetricValueView::Single(*s),
            MetricValue::Histogram { sum, count, buckets } => MetricValueView::Histogram {
                sum: *sum,
                count: *count,
                buckets: buckets@,
            },
        }
    }
}

impl Clone for MetricValue {
    /// A clone carries the same abstract value.
    fn clone(&self) -> (v: MetricValue)
        ensures
            v@ == self@,
    {
        match self {
            MetricValue::Single(s) => MetricValue::Single(*s),
            MetricValue::Histogram { sum, count, buckets } => {
                let mut bs: Vec<HistogramBucket> = Vec::new();
                let n = buckets.len();
                let mut i: usize = 0;
                while i < n
                    invariant
                        i <= n,
                        n == buckets@.len(),
                        bs@ == buckets@.take(i as int),
                    decreases n - i,
                {
                    bs.push(buckets[i]);
                    proof {
                        assert(bs@ =~= buckets@.take(i + 1));
                    }
                    i = i + 1;
                }
                proof {
                    assert(buckets@.take(n as int) =~= buckets@);
                }
                MetricValue::Histogram { sum: *sum, count: *count, buckets: bs }
            },
        }
    }
}

/// The abstract value of a metric request or snapshot: everything one metric
/// occurrence says.
pub struct MetricView {
    pub name: Seq<char>,
    pub metric_type: MetricType,
    pub value: MetricValueView,
    pub labels: Map<Seq<char>, Seq<char>>,
    pub help: Option<Seq<char>>,
    pub timestamp: u64,
}

/// Relies on `std::time::SystemTime::now`: the wall clock, as nanoseconds
/// since the Unix epoch, zero if the clock sits before the epoch, saturated
/// if past the range.  Nothing is assumed of the value: it depends on the
/// machine's clock.
#[verifier::external_body]
pub fn now_unix_nanos() -> u64 {
    let d = std::time::SystemTime::now()
        .duration_since(std::time::UNIX_EPOCH)
        .unwrap_or_default()
        .as_nanos();
    if d > u64::MAX as u128 {
        u64::MAX
    } else {
        d as u64
    }
}

/// A request to record one metric occurrence.  Immutable once built: the
/// named constructors make one, the `with_` steps extend it, and recording
/// only reads it.
#[derive(Debug)]
pub struct MetricRequest {
    name: String,
    metric_type: MetricType,
    value: MetricValue,
    labels: Labels,
    help: Option<String>,
    timestamp: u64,
}

impl View for MetricRequest {
    type V = MetricView;

    closed spec fn view(&self) -> MetricView {
        MetricView {
            name: self.name@,
            metric_type: self.metric_type,
            value: self.value@,
            labels: self.labels@,
            help: match self.help {
                Some(h) => Some(h@),
                None => None,
            },
            timestamp: self.timestamp,
        }
    }
}

impl MetricRequest {
    /// Build a request; the creation timestamp is read from the wall clock.
    fn new(name: String, metric_type: MetricType, value: MetricValue) -> (r: MetricRequest)
        ensures
            r@.name == name@,
            r@.metric_type == metric_type,
            r@.value == value@,
            r@.labels == Map::<Seq<char>, Seq<char>>::empty(),
            (r@.help is None),
    {
        MetricRequest {
            name,
            metric_type,
            value,
            labels: Labels::new(),
            help: None,
            timestamp: now_unix_nanos(),
        }
    }

    /// A counter increment: `value` should be non-negative to pass
    /// validation.
    pub fn counter(name: &str, value: Scalar) -> (r: MetricRequest)
        ensures
            r@.name == name@,
            r@.metric_type == MetricType::Counter,
            r@.value == MetricValueView::Single(value),
            r@.labels == Map::<Seq<char>, Seq<char>>::empty(),
            (r@.help is None),
    {
        Self::new(String::from_str(name), MetricType::Counter, MetricValue::Single(value))
    }

    /// A gauge reading.
    pub fn gauge(name: &str, value: Scalar) -> (r: MetricRequest)
        ensures
            r@.name == name@,
            r@.metric_type == MetricType::Gauge,
            r@.value == MetricValueView::Single(value),
            r@.labels == Map::<Seq<char>, Seq<char>>::empty(),
            (r@.help is None),
    {
        Self::new(String::from_str(name), MetricType::Gauge, MetricValue::Single(value))
    }

    /// One histogram observation.
    pub fn histogram(name: &str, value: Scalar) -> (r: MetricRequest)
        ensures
            r@.name == name@,
            r@.metric_type == MetricType::Histogram,
            r@.value == MetricValueView::Single(value),
            r@.labels == Map::<Seq<char>, Seq<char>>::empty(),
            (r@.help is None),
    {
        Self::new(String::from_str(name), MetricType::Histogram, MetricValue::Single(value))
    }

    /// A duration observation, in seconds.
    pub fn timer(name: &str, seconds: Scalar) -> (r: MetricRequest)
        ensures
            r@.name == name@,
            r@.metric_type == MetricType::Timer,
            r@.value == MetricValueView::Single(seconds),
            r@.labels == Map::<Seq<char>, Seq<char>>::empty(),
            (r@.help is None),
    {
        Self::new(String::from_str(name), MetricType::Timer, MetricValue::Single(seconds))
    }

    /// Attach one label, replacing any earlier value of the same key.
    pub fn with_label(self, key: &str, value: &str) -> (r: MetricRequest)
        ensures
            r@ == (MetricView { labels: self@.labels.insert(key@, value@), ..self@ }),
    {
        let mut labels = self.labels;
        labels.insert(String::from_str(key), String::from_str(value));
        MetricRequest { labels, ..self }
    }

    /// Attach several labels at once, in order.
    pub fn with_labels(self, labels: Vec<(&str, &str)>) -> (r: MetricRequest)
        ensures
            r@ == (MetricView {
                labels: spec_insert_all(
                    self@.labels,
                    labels@.map_values(|p: (&str, &str)| (p.0@, p.1@)),
                ),
                ..self@
            }),
    {
        let ghost pairs = labels@.map_values(|p: (&str, &str)| (p.0@, p.1@));
        let mut ls = self.labels;
        let n = labels.len();
        let mut i: usize = 0;
        while i < n
            invariant
                i <= n,
                n == labels@.len(),
                pairs == labels@.map_values(|p: (&str, &str)| (p.0@, p.1@)),
                ls@ == spec_insert_all(self@.labels, pairs.take(i as int)),
            decreases n - i,
        {
            let (key, value) = labels[i];
            ls.insert(String::from_str(key), String::from_str(value));
            proof {
                assert(pairs.take(i + 1).drop_last() =~= pairs.take(i as int));
                assert(pairs.take(i + 1).last() == (key@, value@));
            }
            i = i + 1;
        }
        proof {
            assert(pairs.take(n as int) =~= pairs);
        }
        MetricRequest { labels: ls, ..self }
    }

    /// Attach help text describing what the metric measures.
    pub fn with_help(self, help: &str) -> (r: MetricRequest)
        ensures
            r@ == (MetricView { help: Some(help@), ..self@ }),
    {
        MetricRequest { help: Some(String::from_str(help)), ..self }
    }

    /// The metric name.
    pub fn name(&self) -> (s: &str)
        ensures
            s@ == self@.name,
    {
        self.name.as_str()
    }

    /// The metric type.
    pub fn metric_type(&self) -> (t: &MetricType)
        ensures
            *t == self@.metric_type,
    {
        &self.metric_type
    }

    /// The scalar value of a single-valued request.  A histogram value has no
    /// single scalar: whether a lossy mean should stand for it is left to
    /// the caller, which can read the full value with `metric_value`.
    pub fn value(&self) -> (v: Scalar)
        requires
            self@.value is Single,
        ensures
            self@.value == MetricValueView::Single(v),
    {
        match &self.value {
            MetricValue::Single(v) => *v,
            MetricValue::Histogram { .. } => {
                proof {
                    assert(false);
                }
                Scalar::zero()
            },
        }
    }

    /// The full value object.
    pub fn metric_value(&self) -> (v: &MetricValue)
        ensures
            v@ == self@.value,
    {
        &self.value
    }

    /// The labels.
    pub fn labels(&self) -> (l: &Labels)
        ensures
            l@ == self@.labels,
    {
        &self.labels
    }

    /// The help text, if any.
    pub fn help(&self) -> (h: Option<&str>)
        ensures
            match h {
                Some(s) => self@.help == Some(s@),
                None => self@.help is None,
            },
    {
        match &self.help {
            Some(h) => Some(h.as_str()),
            None => None,
        }
    }

    /// The creation timestamp, in nanoseconds since the Unix epoch.
    pub fn timestamp(&self) -> (t: u64)
        ensures
            t == self@.timestamp,
    {
        self.timestamp
    }
}

/// Labels inserted one after another, later pairs winning.
pub open spec fn spec_insert_all(
    m: Map<Seq<char>, Seq<char>>,
    ps: Seq<(Seq<char>, Seq<char>)>,
) -> Map<Seq<char>, Seq<char>>
    decreases ps.len(),
{
    if ps.len() == 0 {
        m
    } else {
        spec_insert_all(m, ps.drop_last()).insert(ps.last().0, ps.last().1)
    }
}

/// The abstract values of a sequence of snapshots, element by element.
pub open spec fn views_of(snaps: Seq<MetricSnapshot>) -> Seq<MetricView> {
    snaps.map_values(|s: MetricSnapshot| s@)
}

/// Appending a snapshot appends its view.
pub proof fn lemma_views_push(v0: Seq<MetricSnapshot>, v1: Seq<MetricSnapshot>)
    requires
        v1.len() == v0.len() + 1,
        forall|j: int| 0 <= j < v0.len() ==> v1[j] == v0[j],
    ensures
        views_of(v1) == views_of(v0).push(v1.last()@),
{
    assert(views_of(v1) =~= views_of(v0).push(v1.last()@));
}

/// A recorded copy of a request, retained by an adapter for inspection.
/// Created once per successful `record` call and immutable afterwards.
#[derive(Debug)]
pub struct MetricSnapshot {
    /// The metric name.
    pub name: String,
    /// The metric type.
    pub metric_type: MetricType,
    /// The recorded value.
    pub value: MetricValue,
    /// The labels recorded with it.
    pub labels: Labels,
    /// Optional help text.
    pub help: Option<String>,
    /// Timestamp of this snapshot, in nanoseconds since the Unix epoch.
    pub timestamp: u64,
}

impl View for MetricSnapshot {
    type V = MetricView;

    open spec fn view(&self) -> MetricView {
        MetricView {
            name: self.name@,
            metric_type: self.metric_type,
            value: self.value@,
            labels: self.labels@,
            help: match self.help {
                Some(h) => Some(h@),
                None => None,
            },
            timestamp: self.timestamp,
        }
    }
}

impl MetricSnapshot {
    /// Build a snapshot directly; the timestamp is read from the wall clock.
    pub fn new(name: String, metric_type: MetricType, value: MetricValue, labels: Labels) -> (s:
        MetricSnapshot)
        ensures
            s@.name == name@,
            s@.metric_type == metric_type,
            s@.value == value@,
            s@.labels == labels@,
            s@.help is None,
    {
        MetricSnapshot { name, metric_type, value, labels, help: None, timestamp: now_unix_nanos() }
    }

    /// Attach help text to the snapshot.
    pub fn with_help(self, help: &str) -> (s: MetricSnapshot)
        ensures
            s@ == (MetricView { help: Some(help@), ..self@ }),
    {
        MetricSnapshot { help: Some(String::from_str(help)), ..self }
    }

    /// A snapshot of a request: the request's view, preserved exactly —
    /// name, type, value, labels, help and timestamp all carry over.
    pub fn of_request(request: &MetricRequest) -> (s: MetricSnapshot)
        ensures
            s@ == request@,
    {
        MetricSnapshot {
            name: String::from_str(request.name()),
            metric_type: *request.metric_type(),
            value: request.metric_value().clone(),
            labels: request.labels().clone(),
            help: match request.help() {
                Some(h) => Some(String::from_str(h)),
                None => None,
            },
            timestamp: request.timestamp(),
        }
    }
}

impl Clone for MetricSnapshot {
    /// A clone carries the same abstract value.
    fn clone(&self) -> (s: MetricSnapshot)
        ensures
            s@ == self@,
    {
        MetricSnapshot {
            name: self.name.clone(),
            metric_type: self.metric_type,
            value: self.value.clone(),
            labels: self.labels.clone(),
            help: match &self.help {
                Some(h) => Some(h.clone()),
                None => None,
            },
            timestamp: self.timestamp,
        }
    }
}

/// The round trip stated as a law: a snapshot taken of a request preserves
/// the name, type, value, labels, help text and timestamp exactly.  It holds
/// by `of_request`'s contract; this lemma spells the fields out.
pub proof fn lemma_snapshot_round_trip(request: MetricRequest, snapshot: MetricSnapshot)
    requires
        snapshot@ == request@,
    ensures
        snapshot@.name == request@.name,
        snapshot@.metric_type == request@.metric_type,
        snapshot@.value == request@.value,
        snapshot@.labels == request@.labels,
        snapshot@.help == request@.help,
        snapshot@.timestamp == request@.timestamp,
{
}

/// A scoped timer: a name, a label set and the instant it started.  Its
/// elapsed time can be read without releasing it; releasing it is consuming
/// it (`into_parts`), so a guard can be released only once.  Recording the
/// elapsed duration is the adapter's side: see `complete_timer` on the
/// in-memory adapter.
#[derive(Debug)]
pub struct TimerGuard {
    name: String,
    labels: Labels,
    start: std::time::Instant,
}

#[verifier::external_type_specification]
#[verifier::external_body]
pub struct ExInstant(std::time::Instant);

/// Relies on `std::time::Instant::now`: an opaque monotonic instant.
#[verifier::external_body]
fn instant_now() -> std::time::Instant {
    std::time::Instant::now()
}

/// Relies on `std::time::Instant::elapsed`: the nanoseconds since the
/// instant, saturated at the range of `u64`.  Nothing is assumed of the
/// value: it depends on the clock.
#[verifier::external_body]
fn instant_elapsed_nanos(start: &std::time::Instant) -> u64 {
    let d = start.elapsed().as_nanos();
    if d > u64::MAX as u128 {
        u64::MAX
    } else {
        d as u64
    }
}

impl TimerGuard {
    /// The timer's metric name.
    pub closed spec fn spec_name(&self) -> Seq<char> {
        self.name@
    }

    /// The timer's labels.
    pub closed spec fn spec_labels(&self) -> Map<Seq<char>, Seq<char>> {
        self.labels@
    }

    /// Start a timer now, bound to a name and labels.
    pub fn new(name: String, labels: Labels) -> (g: TimerGuard)
        ensures
            g.spec_name() == name@,
            g.spec_labels() == labels@,
    {
        TimerGuard { name, labels, start: instant_now() }
    }

    /// The metric name the timer will record to.
    pub fn name(&self) -> (s: &str)
        ensures
            s@ == self.spec_name(),
    {
        self.name.as_str()
    }

    /// The labels the timer will record with.
    pub fn labels(&self) -> (l: &Labels)
        ensures
            l@ == self.spec_labels(),
    {
        &self.labels
    }

    /// The time elapsed so far, in nanoseconds, without releasing the timer.
    pub fn elapsed_nanos(&self) -> u64 {
        instant_elapsed_nanos(&self.start)
    }

    /// Release the timer: consume it, yielding its name, labels and elapsed
    /// nanoseconds.  Consuming the guard makes a second release impossible.
    pub fn into_parts(self) -> (r: (String, Labels, u64))
        ensures
            r.0@ == self.spec_name(),
            r.1@ == self.spec_labels(),
    {
        let elapsed = instant_elapsed_nanos(&self.start);
        (self.name, self.labels, elapsed)
    }
}

} // verus!
