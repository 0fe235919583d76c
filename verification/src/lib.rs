//! A vendor-neutral contract for recording application metrics (counters,
//! gauges, histograms, timers), together with a reference in-memory adapter
//! used for testing: bounded insertion-ordered storage with oldest-first
//! eviction, timer guards, and deterministic failure injection.

pub mod errors;
pub mod labels;
pub mod mock;
pub mod port;
pub mod scalar;
pub mod text;
pub mod types;
pub mod utils;

pub use errors::{
    decimal_string, from_io_error, from_serde_json_error, metrics_adapter_error,
    metrics_config_error, metrics_connection_error, metrics_error, metrics_error_of_io_class,
    metrics_health_error, metrics_recording_error, metrics_serialization_error,
    metrics_timeout_error, ErrorKind, IoErrorClass, MetricsError, MetricsErrorExt,
};
pub use labels::Labels;
pub use mock::{
    lemma_bounded_storage, lemma_certain_failure_rate, lemma_threshold_exact,
    lemma_zero_failure_rate, spec_store_all,
    spec_store_step, spec_unit_threshold, MockAdapterBuilder, MockConfigView, MockMetricsAdapter,
    MockMetricsConfig,
};
pub use port::{spec_request_valid, spec_value_rule, HealthStatus, HealthView, MetricsManager};
pub use scalar::Scalar;
pub use types::{
    spec_insert_all, views_of, HistogramBucket, MetricRequest, MetricSnapshot, MetricType, MetricValue,
    MetricValueView, MetricView, TimerGuard,
};
pub use utils::{
    format_labels, lemma_33rd_label_invalid, lemma_name_with_space_invalid,
    lemma_normalize_idempotent, lemma_sorted_pairs_unique, normalize_metric_name, spec_normalize,
    spec_render_pairs, spec_sorted_by_keys, spec_valid_bucket_bounds, spec_valid_label_key,
    spec_valid_label_value, spec_valid_labels, spec_valid_metric_name, validate_counter_value,
    validate_histogram_buckets, validate_label_key, validate_label_value, validate_labels,
    validate_metric_name, validate_metric_value, HistogramBuckets,
};
