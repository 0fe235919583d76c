use std::time::Duration;

use metrics_port::{
    ErrorKind, HealthStatus, Labels, MetricRequest, MetricType, MetricValue, MetricsManager,
    MockAdapterBuilder, MockMetricsAdapter, MockMetricsConfig, Scalar,
};

fn s(x: f64) -> Scalar {
    Scalar::from_bits(x.to_bits())
}

fn busy_wait(d: Duration) {
    let start = std::time::Instant::now();
    while start.elapsed() < d {}
}

#[test]
fn test_mock_adapter_creation() {
    let config = MockMetricsConfig::new("test-service");
    let adapter = MockMetricsAdapter::new(config.clone());

    assert_eq!(adapter.config().service_name, "test-service");
    assert!(adapter.config().store_metrics);
}

#[test]
fn test_mock_adapter_default() {
    let adapter = MockMetricsAdapter::default();
    assert_eq!(adapter.config().service_name, "test-service");
}

#[test]
fn test_record_counter() {
    let mut adapter = MockMetricsAdapter::default();
    let request = MetricRequest::counter("test_counter", s(1.0)).with_label("env", "test");

    let result = adapter.record(&request);
    assert!(result.is_ok());

    let stored = adapter.get_stored_metrics();
    assert_eq!(stored.len(), 1);
    assert_eq!(stored[0].name, "test_counter");
    assert_eq!(stored[0].metric_type, MetricType::Counter);
}

#[test]
fn test_record_gauge() {
    let mut adapter = MockMetricsAdapter::default();
    let request = MetricRequest::gauge("memory_usage", s(512.0));

    adapter.record(&request).unwrap();

    let stored = adapter.get_stored_metrics();
    assert_eq!(stored.len(), 1);
    assert_eq!(stored[0].metric_type, MetricType::Gauge);
}

#[test]
fn test_record_histogram() {
    let mut adapter = MockMetricsAdapter::default();
    let request = MetricRequest::histogram("request_duration", s(0.123));

    adapter.record(&request).unwrap();

    let stored = adapter.get_stored_metrics();
    assert_eq!(stored.len(), 1);
    assert_eq!(stored[0].metric_type, MetricType::Histogram);
}

#[test]
fn test_record_timer() {
    let mut adapter = MockMetricsAdapter::default();
    let request = MetricRequest::timer("db_query", s(Duration::from_millis(50).as_secs_f64()));

    adapter.record(&request).unwrap();

    let stored = adapter.get_stored_metrics();
    assert_eq!(stored.len(), 1);
    assert_eq!(stored[0].metric_type, MetricType::Timer);
    assert_eq!(stored[0].value, MetricValue::Single(s(0.05))); // 50ms as seconds
}

#[test]
fn test_max_stored_metrics_limit() {
    let config = MockMetricsConfig::default().with_max_stored(2);
    let mut adapter = MockMetricsAdapter::new(config);

    // Record 3 metrics
    for i in 0..3 {
        let request = MetricRequest::counter(&format!("counter_{}", i), s(1.0));
        adapter.record(&request).unwrap();
    }

    let stored = adapter.get_stored_metrics();
    assert_eq!(stored.len(), 2); // Should only keep 2 metrics

    // Should have the last 2 metrics (counter_1 and counter_2)
    assert_eq!(stored[0].name, "counter_1");
    assert_eq!(stored[1].name, "counter_2");
}

#[test]
fn test_bounded_eviction_order() {
    // With a bound of two, recording a, b, c in order retains b and c.
    let config = MockMetricsConfig::default().with_max_stored(2);
    let mut adapter = MockMetricsAdapter::new(config);
    for name in ["a", "b", "c"] {
        adapter.record(&MetricRequest::counter(name, s(1.0))).unwrap();
    }
    let stored = adapter.get_stored_metrics();
    assert_eq!(stored.len(), 2);
    assert_eq!(stored[0].name, "b");
    assert_eq!(stored[1].name, "c");
}

#[test]
fn test_store_metrics_disabled() {
    let config = MockMetricsConfig::default().with_storage(false);
    let mut adapter = MockMetricsAdapter::new(config);

    let request = MetricRequest::counter("test_counter", s(1.0));
    adapter.record(&request).unwrap();

    let stored = adapter.get_stored_metrics();
    assert_eq!(stored.len(), 0); // Should not store when disabled
}

#[test]
fn test_clear_stored_metrics() {
    let mut adapter = MockMetricsAdapter::default();

    let request = MetricRequest::counter("test_counter", s(1.0));
    adapter.record(&request).unwrap();

    assert_eq!(adapter.get_metrics_count(), 1);

    adapter.clear_stored_metrics();
    assert_eq!(adapter.get_metrics_count(), 0);
}

#[test]
fn test_find_metrics_by_name() {
    let mut adapter = MockMetricsAdapter::default();

    adapter.record(&MetricRequest::counter("http_requests", s(1.0))).unwrap();
    adapter.record(&MetricRequest::gauge("memory_usage", s(512.0))).unwrap();
    adapter.record(&MetricRequest::counter("http_requests", s(2.0))).unwrap();

    let http_metrics = adapter.find_metrics_by_name("http_requests");
    assert_eq!(http_metrics.len(), 2);

    let memory_metrics = adapter.find_metrics_by_name("memory_usage");
    assert_eq!(memory_metrics.len(), 1);
}

#[test]
fn test_find_metrics_by_type() {
    let mut adapter = MockMetricsAdapter::default();

    adapter.record(&MetricRequest::counter("counter1", s(1.0))).unwrap();
    adapter.record(&MetricRequest::counter("counter2", s(2.0))).unwrap();
    adapter.record(&MetricRequest::gauge("gauge1", s(100.0))).unwrap();

    let counters = adapter.find_metrics_by_type(MetricType::Counter);
    assert_eq!(counters.len(), 2);

    let gauges = adapter.find_metrics_by_type(MetricType::Gauge);
    assert_eq!(gauges.len(), 1);
}

#[test]
fn test_find_metrics_with_label() {
    let mut adapter = MockMetricsAdapter::default();

    adapter
        .record(&MetricRequest::counter("requests", s(1.0)).with_label("method", "GET"))
        .unwrap();
    adapter
        .record(&MetricRequest::counter("requests", s(2.0)).with_label("method", "POST"))
        .unwrap();
    adapter
        .record(&MetricRequest::counter("requests", s(1.0)).with_label("method", "GET"))
        .unwrap();

    let get_requests = adapter.find_metrics_with_label("method", "GET");
    assert_eq!(get_requests.len(), 2);

    let post_requests = adapter.find_metrics_with_label("method", "POST");
    assert_eq!(post_requests.len(), 1);
}

#[test]
fn test_health_check() {
    let mut adapter = MockMetricsAdapter::default();
    let health = adapter.health_check().unwrap();

    assert!(health.is_healthy);
    assert!(health.message.contains("healthy"));
}

#[test]
fn test_health_check_manual_status() {
    let mut adapter = MockMetricsAdapter::default();

    let unhealthy_status = HealthStatus::unhealthy("Test failure");
    adapter.set_health_status(unhealthy_status.clone());

    let health = adapter.health_check().unwrap();
    assert!(!health.is_healthy);
    assert_eq!(health.message, "Test failure");
}

#[test]
fn test_failure_simulation() {
    let config = MockMetricsConfig::default().with_failures(s(1.0)); // 100% failure rate
    let mut adapter = MockMetricsAdapter::new(config);

    let request = MetricRequest::counter("test_counter", s(1.0));
    let result = adapter.record(&request);

    assert!(result.is_err());
    assert!(result.unwrap_err().to_text().contains("Simulated recording failure"));
}

#[test]
fn test_failure_simulation_always_and_never() {
    // Rate one: every record fails with a recording error.
    let mut always = MockMetricsAdapter::new(MockMetricsConfig::default().with_failures(s(1.0)));
    for _ in 0..20 {
        let e = always.record(&MetricRequest::counter("c", s(1.0))).unwrap_err();
        assert_eq!(e.kind, ErrorKind::Internal);
        assert!(e.to_text().contains("Simulated recording failure"));
    }
    assert_eq!(always.get_metrics_count(), 0);

    // Rate zero, simulation forced on: no record ever fails through it.
    let config = MockMetricsConfig {
        simulate_failures: true,
        failure_rate: s(0.0),
        ..MockMetricsConfig::default()
    };
    let mut never = MockMetricsAdapter::new(config);
    for _ in 0..20 {
        never.record(&MetricRequest::counter("c", s(1.0))).unwrap();
    }
    assert_eq!(never.get_metrics_count(), 20);
}

#[test]
fn test_failure_simulation_intermediate_rate() {
    // At rate one half, failures are a coin flip: over many records both
    // outcomes appear, in roughly even shares.
    let config = MockMetricsConfig::default().with_failures(s(0.5)).with_max_stored(1000);
    let mut adapter = MockMetricsAdapter::new(config);
    let mut failures = 0;
    for _ in 0..400 {
        if adapter.record(&MetricRequest::counter("c", s(1.0))).is_err() {
            failures += 1;
        }
    }
    assert!(failures > 50, "rate 0.5 produced almost no failures: {}", failures);
    assert!(failures < 350, "rate 0.5 failed almost always: {}", failures);
}

#[test]
fn test_validation_errors() {
    let mut adapter = MockMetricsAdapter::default();

    // Invalid metric name
    let request = MetricRequest::counter("", s(1.0));
    let result = adapter.record(&request);
    assert!(result.is_err());

    // Invalid counter value
    let request = MetricRequest::counter("test", s(-1.0));
    let result = adapter.record(&request);
    assert!(result.is_err());
}

#[test]
fn test_get_snapshot() {
    let mut adapter = MockMetricsAdapter::default();

    adapter.record(&MetricRequest::counter("test", s(1.0))).unwrap();

    let snapshot = adapter.get_snapshot().unwrap();
    assert_eq!(snapshot.len(), 1);
    assert_eq!(snapshot[0].name, "test");
}

#[test]
fn test_get_snapshot_storage_disabled() {
    let config = MockMetricsConfig::default().with_storage(false);
    let mut adapter = MockMetricsAdapter::new(config);

    adapter.record(&MetricRequest::counter("test", s(1.0))).unwrap();

    let snapshot = adapter.get_snapshot().unwrap();
    assert_eq!(snapshot.len(), 0); // Should be empty when storage is disabled
}

#[test]
fn test_timer_guard() {
    let mut adapter = MockMetricsAdapter::default();
    let labels = Labels::new();

    let timer = adapter.start_timer("test_timer", labels);
    busy_wait(Duration::from_millis(1));
    let elapsed_nanos = timer.elapsed_nanos();
    adapter.complete_timer(timer, s(elapsed_nanos as f64 / 1_000_000_000.0));

    let stored = adapter.get_stored_metrics();
    assert_eq!(stored.len(), 1);
    assert_eq!(stored[0].name, "test_timer");
    assert_eq!(stored[0].metric_type, MetricType::Timer);
}

#[test]
fn test_timer_records_elapsed_seconds() {
    // A timer held for about 50ms records one Timer snapshot whose value is
    // within a small tolerance of 0.05 seconds.
    let mut adapter = MockMetricsAdapter::default();
    let timer = adapter.start_timer("timed_section", Labels::new());
    busy_wait(Duration::from_millis(50));
    let secs = timer.elapsed_nanos() as f64 / 1_000_000_000.0;
    adapter.complete_timer(timer, s(secs));

    let stored = adapter.find_metrics_by_type(MetricType::Timer);
    assert_eq!(stored.len(), 1);
    match &stored[0].value {
        MetricValue::Single(v) => {
            let recorded = f64::from_bits(v.to_bits());
            assert!(recorded >= 0.05 - 0.02 && recorded <= 0.05 + 0.02);
        },
        _ => panic!("Expected single value"),
    }
}

#[test]
fn test_timer_invalid_name_dropped() {
    // The deferred recording validates like record; an invalid observation
    // is dropped internally, leaving stored state unchanged.
    let mut adapter = MockMetricsAdapter::default();
    let timer = adapter.start_timer("not a name", Labels::new());
    adapter.complete_timer(timer, s(0.01));
    assert_eq!(adapter.get_metrics_count(), 0);

    let timer = adapter.start_timer("fine_name", Labels::new());
    adapter.complete_timer(timer, s(0.01));
    assert_eq!(adapter.get_metrics_count(), 1);
}

#[test]
fn test_builder_invalid_config() {
    // The builder validates like the port constructor: a storage bound of
    // zero fails construction before any instance is usable.
    let e = MockAdapterBuilder::new().max_stored_metrics(0).build().unwrap_err();
    assert_eq!(e.kind, ErrorKind::Configuration);
    assert!(e.to_text().contains("max_stored_metrics"));
}

#[test]
fn test_builder_pattern() {
    let adapter = MockAdapterBuilder::new()
        .service_name("test-app")
        .max_stored_metrics(100)
        .store_metrics(true)
        .simulate_failures(s(0.1))
        .build()
        .unwrap();

    assert_eq!(adapter.config().service_name, "test-app");
    assert_eq!(adapter.config().max_stored_metrics, 100);
    assert!(adapter.config().store_metrics);
    assert!(adapter.config().simulate_failures);
    assert_eq!(adapter.config().failure_rate, s(0.1));
}

#[test]
fn test_invalid_config() {
    let config = MockMetricsConfig {
        failure_rate: s(1.5), // Invalid rate > 1.0
        ..MockMetricsConfig::default()
    };

    // The plain constructor does not validate; the port's constructor does.
    let _adapter = MockMetricsAdapter::new(config);
}

#[test]
fn test_config_validation_errors() {
    let bad_rate = MockMetricsConfig { failure_rate: s(1.5), ..MockMetricsConfig::default() };
    let e = <MockMetricsAdapter as MetricsManager>::new(bad_rate).unwrap_err();
    assert_eq!(e.kind, ErrorKind::Configuration);
    assert!(e.to_text().contains("failure_rate"));

    let bad_max = MockMetricsConfig { max_stored_metrics: 0, ..MockMetricsConfig::default() };
    let e = <MockMetricsAdapter as MetricsManager>::new(bad_max).unwrap_err();
    assert_eq!(e.kind, ErrorKind::Configuration);
    assert!(e.to_text().contains("max_stored_metrics"));

    let good = MockMetricsConfig::default();
    assert!(<MockMetricsAdapter as MetricsManager>::new(good).is_ok());
}

#[test]
fn test_health_check_failure_simulation() {
    let config = MockMetricsConfig::default().with_failures(s(1.0));
    let mut adapter = MockMetricsAdapter::new(config);
    let e = adapter.health_check().unwrap_err();
    assert_eq!(e.kind, ErrorKind::Internal);
    assert!(e.to_text().contains("Simulated health check failure"));
}

#[test]
fn test_record_histogram_value_rules() {
    let mut adapter = MockMetricsAdapter::default();
    // A histogram value with a positive count and finite sum is accepted.
    let ok = MetricRequest::histogram("dist", s(1.0));
    assert!(adapter.record(&ok).is_ok());
    // A counter with a negative value is rejected, a gauge is not.
    assert!(adapter.record(&MetricRequest::gauge("g", s(-1.0))).is_ok());
    assert!(adapter.record(&MetricRequest::counter("c", s(-1.0))).is_err());
}
