//! The port: the contract every metrics backend implements, and the health
//! status it reports.
//!
//! The trait fixes what any adapter owes its callers: construction validates
//! the configuration; recording validates the request before accepting it
//! and leaves stored state untouched on failure; health checks do not touch
//! stored metrics; the optional snapshot surface yields an empty sequence on
//! backends with nothing to inspect, never an error.

use vstd::prelude::*;
use vstd::string::StringExecFns;

use crate::errors::MetricsError;
use crate::labels::Labels;
use crate::scalar::{spec_is_finite, spec_is_negative};
use crate::types::{MetricRequest, MetricSnapshot, MetricType, MetricValueView, MetricView, TimerGuard};
use crate::utils::{spec_valid_labels, spec_valid_metric_name};

verus! {

/// The value rule a metric's type imposes.  A single value must be finite,
/// and non-negative for a counter.  A histogram value is judged by its mean:
/// the mean `sum / count` is finite exactly when the sum is finite and the
/// count is not zero, and negative exactly when the sum is, so the rule reads
/// those fields and no division happens.
pub open spec fn spec_value_rule(t: MetricType, v: MetricValueView) -> bool {
    match v {
        MetricValueView::Single(s) => spec_is_finite(s.spec_bits()) && (t == MetricType::Counter
            ==> !spec_is_negative(s.spec_bits())),
        MetricValueView::Histogram { sum, count, buckets } => spec_is_finite(sum.spec_bits())
            && count > 0 && (t == MetricType::Counter ==> !spec_is_negative(sum.spec_bits())),
    }
}

/// A request an adapter accepts: valid name, valid labels, and the value
/// rule of its type.
pub open spec fn spec_request_valid(v: MetricView) -> bool {
    &&& spec_valid_metric_name(v.name)
    &&& spec_valid_labels(v.labels)
    &&& spec_value_rule(v.metric_type, v.value)
}

/// Relies on `std::time::SystemTime::now`: the wall clock, as whole seconds
/// since the Unix epoch, zero if the clock sits before the epoch, saturated
/// if past the range.  Nothing is assumed of the value.
#[verifier::external_body]
fn now_unix_secs() -> u64 {
    let d = std::time::SystemTime::now()
        .duration_since(std::time::UNIX_EPOCH)
        .unwrap_or_default()
        .as_secs();
    d
}

/// Point-in-time health of a metrics adapter.  Never mutated: a new status
/// replaces the old.
#[derive(Debug)]
pub struct HealthStatus {
    /// Whether the adapter is healthy.
    pub is_healthy: bool,
    /// Human-readable status message.
    pub message: String,
    /// Additional metadata, as string key/value pairs.
    pub metadata: Labels,
    /// Timestamp of the health check, in seconds since the Unix epoch.
    pub timestamp: u64,
}

/// The abstract value of a health status.
pub struct HealthView {
    pub is_healthy: bool,
    pub message: Seq<char>,
    pub metadata: Map<Seq<char>, Seq<char>>,
    pub timestamp: u64,
}

impl View for HealthStatus {
    type V = HealthView;

    open spec fn view(&self) -> HealthView {
        HealthView {
            is_healthy: self.is_healthy,
            message: self.message@,
            metadata: self.metadata@,
            timestamp: self.timestamp,
        }
    }
}

impl HealthStatus {
    /// A healthy status with the standard message and no metadata; the
    /// timestamp is read from the wall clock.
    pub fn healthy() -> (h: HealthStatus)
        ensures
            h@.is_healthy,
            h@.message == "Metrics adapter is healthy"@,
            h@.metadata == Map::<Seq<char>, Seq<char>>::empty(),
    {
        HealthStatus {
            is_healthy: true,
            message: String::from_str("Metrics adapter is healthy"),
            metadata: Labels::new(),
            timestamp: now_unix_secs(),
        }
    }

    /// An unhealthy status carrying a message and no metadata; the timestamp
    /// is read from the wall clock.
    pub fn unhealthy(message: &str) -> (h: HealthStatus)
        ensures
            !h@.is_healthy,
            h@.message == message@,
            h@.metadata == Map::<Seq<char>, Seq<char>>::empty(),
    {
        HealthStatus {
            is_healthy: false,
            message: String::from_str(message),
            metadata: Labels::new(),
            timestamp: now_unix_secs(),
        }
    }

    /// The status with one more metadata entry.
    pub fn with_metadata(self, key: &str, value: &str) -> (h: HealthStatus)
        ensures
            h@ == (HealthView { metadata: self@.metadata.insert(key@, value@), ..self@ }),
    {
        let mut metadata = self.metadata;
        metadata.insert(String::from_str(key), String::from_str(value));
        HealthStatus { metadata, ..self }
    }

    /// One line of text for the status: the state in brackets, then the
    /// message.
    pub fn to_text(&self) -> (s: String)
        ensures
            self@.is_healthy ==> s@ == "[HEALTHY] "@ + self@.message,
            !self@.is_healthy ==> s@ == "[UNHEALTHY] "@ + self@.message,
    {
        let mut m = if self.is_healthy {
            String::from_str("[HEALTHY] ")
        } else {
            String::from_str("[UNHEALTHY] ")
        };
        m.append(self.message.as_str());
        proof {
            if self@.is_healthy {
                assert(m@ =~= "[HEALTHY] "@ + self@.message);
            } else {
                assert(m@ =~= "[UNHEALTHY] "@ + self@.message);
            }
        }
        m
    }
}

impl Clone for HealthStatus {
    /// A clone carries the same abstract value.
    fn clone(&self) -> (h: HealthStatus)
        ensures
            h@ == self@,
    {
        HealthStatus {
            is_healthy: self.is_healthy,
            message: self.message.clone(),
            metadata: self.metadata.clone(),
            timestamp: self.timestamp,
        }
    }
}

impl Default for HealthStatus {
    /// The default status is healthy.
    fn default() -> (h: HealthStatus)
        ensures
            h@.is_healthy,
            h@.message == "Metrics adapter is healthy"@,
            h@.metadata == Map::<Seq<char>, Seq<char>>::empty(),
    {
        HealthStatus::healthy()
    }
}

/// The contract a metrics backend satisfies.  `snapshots` is the abstract
/// state the contract speaks of: the snapshots the adapter retains for
/// inspection, in insertion order; a backend that retains nothing has the
/// empty sequence throughout.
pub trait MetricsManager: Sized {
    /// Configuration type specific to this adapter.
    type Config;

    /// The snapshots retained for inspection, oldest first.
    spec fn snapshots(&self) -> Seq<MetricView>;

    /// The configurations this adapter accepts.
    spec fn config_ok(config: Self::Config) -> bool;

    /// What a freshly built adapter is: each implementation says here how
    /// the adapter it hands out relates to the configuration it was given —
    /// at least that the adapter runs with that configuration and starts in
    /// its initial state.
    spec fn built_from(config: Self::Config, a: Self) -> bool;

    /// Build an adapter from its configuration, validating it: exactly the
    /// acceptable configurations yield an adapter, which starts with nothing
    /// retained and satisfies `built_from` the given configuration; the
    /// others yield a configuration error and no adapter.
    fn new(config: Self::Config) -> (r: Result<Self, MetricsError>)
        ensures
            r.is_ok() <==> Self::config_ok(config),
            (r matches Ok(a) ==> a.snapshots() == Seq::<MetricView>::empty()),
            (r matches Ok(a) ==> Self::built_from(config, a)),
            (r matches Err(e) ==> e.kind == crate::errors::ErrorKind::Configuration),
    ;

    /// Record a metric.  A request is validated before it is accepted: on
    /// success the request was valid; on failure the retained snapshots are
    /// exactly what they were.
    fn record(&mut self, request: &MetricRequest) -> (r: Result<(), MetricsError>)
        ensures
            r.is_ok() ==> spec_request_valid(request@),
            r.is_err() ==> final (self).snapshots() == old(self).snapshots(),
    ;

    /// Start a timer bound to a name and labels.  Nothing is recorded here:
    /// recording happens once, when the guard is released.
    fn start_timer(&self, name: &str, labels: Labels) -> (g: TimerGuard)
        ensures
            g.spec_name() == name@,
            g.spec_labels() == labels@,
    ;

    /// Report the adapter's health.  Checking health never touches the
    /// retained snapshots.
    fn health_check(&mut self) -> (r: Result<HealthStatus, MetricsError>)
        ensures
            final (self).snapshots() == old(self).snapshots(),
    ;

    /// The retained snapshots, for inspection.  Backends without
    /// inspectable state return an empty vector; that is never an error.
    fn get_snapshot(&self) -> (r: Result<Vec<MetricSnapshot>, MetricsError>) {
        Ok(Vec::new())
    }
}

} // verus!
