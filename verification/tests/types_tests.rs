use std::time::Duration;

use metrics_port::{
    HistogramBucket, Labels, MetricRequest, MetricSnapshot, MetricType, MetricValue, Scalar,
    TimerGuard,
};

fn s(x: f64) -> Scalar {
    Scalar::from_bits(x.to_bits())
}

#[test]
fn test_metric_request_counter() {
    let request = MetricRequest::counter("http_requests", s(1.0));
    assert_eq!(request.name(), "http_requests");
    assert_eq!(request.metric_type(), &MetricType::Counter);
    assert_eq!(request.value(), s(1.0));
    assert!(request.labels().is_empty());
}

#[test]
fn test_metric_request_with_labels() {
    let request = MetricRequest::gauge("memory_usage", s(512.0))
        .with_label("unit", "MB")
        .with_label("server", "web-01");

    assert_eq!(request.labels().len(), 2);
    assert_eq!(request.labels().get("unit"), Some(&"MB".to_string()));
    assert_eq!(request.labels().get("server"), Some(&"web-01".to_string()));
}

#[test]
fn test_metric_request_with_multiple_labels() {
    let labels = vec![("method", "GET"), ("status", "200")];
    let request = MetricRequest::counter("requests", s(1.0)).with_labels(labels);

    assert_eq!(request.labels().len(), 2);
    assert_eq!(request.labels().get("method"), Some(&"GET".to_string()));
    assert_eq!(request.labels().get("status"), Some(&"200".to_string()));
}

#[test]
fn test_metric_request_with_help() {
    let request = MetricRequest::histogram("request_duration", s(0.25))
        .with_help("Time spent processing HTTP requests");

    assert_eq!(request.help(), Some("Time spent processing HTTP requests"));
}

#[test]
fn test_metric_request_timer() {
    let duration = Duration::from_millis(150);
    let request = MetricRequest::timer("db_query", s(duration.as_secs_f64()));

    assert_eq!(request.metric_type(), &MetricType::Timer);
    assert_eq!(request.value(), s(0.15)); // 150ms as seconds
}

#[test]
fn test_metric_types_display() {
    assert_eq!(MetricType::Counter.as_str(), "counter");
    assert_eq!(MetricType::Gauge.as_str(), "gauge");
    assert_eq!(MetricType::Histogram.as_str(), "histogram");
    assert_eq!(MetricType::Timer.as_str(), "timer");
}

#[test]
fn test_histogram_bucket() {
    let bucket = HistogramBucket { upper_bound: s(1.0), count: 42 };

    assert_eq!(bucket.upper_bound, s(1.0));
    assert_eq!(bucket.count, 42);
}

#[test]
fn test_metric_value_single() {
    let value = MetricValue::Single(s(123.45));
    match value {
        MetricValue::Single(v) => assert_eq!(v, s(123.45)),
        _ => panic!("Expected single value"),
    }
}

#[test]
fn test_metric_value_histogram() {
    let buckets = vec![
        HistogramBucket { upper_bound: s(0.1), count: 10 },
        HistogramBucket { upper_bound: s(1.0), count: 25 },
        HistogramBucket { upper_bound: s(10.0), count: 35 },
    ];

    let value = MetricValue::Histogram { sum: s(45.0), count: 35, buckets };

    match value {
        MetricValue::Histogram { sum, count, buckets } => {
            assert_eq!(sum, s(45.0));
            assert_eq!(count, 35);
            assert_eq!(buckets.len(), 3);
        },
        _ => panic!("Expected histogram value"),
    }
}

#[test]
fn test_metric_snapshot_creation() {
    let mut labels = Labels::new();
    labels.insert("env".to_string(), "test".to_string());

    let snapshot = MetricSnapshot::new(
        "test_metric".to_string(),
        MetricType::Counter,
        MetricValue::Single(s(42.0)),
        labels,
    )
    .with_help("Test metric for unit tests");

    assert_eq!(snapshot.name, "test_metric");
    assert_eq!(snapshot.metric_type, MetricType::Counter);
    assert_eq!(snapshot.help, Some("Test metric for unit tests".to_string()));
    assert!(snapshot.timestamp > 0);
}

#[test]
fn test_metric_snapshot_from_request() {
    let request = MetricRequest::counter("test", s(1.0))
        .with_label("env", "test")
        .with_help("Test metric");

    let snapshot = MetricSnapshot::of_request(&request);
    assert_eq!(snapshot.name, request.name());
    assert_eq!(snapshot.metric_type, *request.metric_type());
    assert_eq!(snapshot.labels, *request.labels());
    assert_eq!(snapshot.help, request.help().map(|h| h.to_string()));
    assert_eq!(snapshot.timestamp, request.timestamp());
}

#[test]
fn test_timer_guard_creation() {
    let labels = Labels::new();
    let timer = TimerGuard::new("test_timer".to_string(), labels);
    assert_eq!(timer.name(), "test_timer");

    let start = std::time::Instant::now();
    while start.elapsed() < Duration::from_millis(1) {}

    assert!(timer.elapsed_nanos() > 0);
    let (name, _labels, elapsed) = timer.into_parts();
    assert_eq!(name, "test_timer");
    assert!(elapsed > 0);
}
