use metrics_port::{
    HealthStatus, MetricRequest, MetricsManager, MockMetricsAdapter, MockMetricsConfig, Scalar,
};

fn s(x: f64) -> Scalar {
    Scalar::from_bits(x.to_bits())
}

#[test]
fn test_port_basic_functionality() {
    let mut metrics = MockMetricsAdapter::new(MockMetricsConfig::default());

    let request = MetricRequest::counter("test_metric", s(1.0)).with_label("test", "true");

    let result = metrics.record(&request);
    assert!(result.is_ok());
}

#[test]
fn test_port_health_check() {
    let mut metrics = MockMetricsAdapter::new(MockMetricsConfig::default());
    let health = metrics.health_check();
    assert!(health.is_ok());
}

#[test]
fn test_health_status_healthy() {
    let status = HealthStatus::healthy();
    assert!(status.is_healthy);
    assert!(status.message.contains("healthy"));
    assert!(status.timestamp > 0);
}

#[test]
fn test_health_status_unhealthy() {
    let status = HealthStatus::unhealthy("Connection failed");
    assert!(!status.is_healthy);
    assert_eq!(status.message, "Connection failed");
    assert!(status.timestamp > 0);
}

#[test]
fn test_health_status_with_metadata() {
    let status = HealthStatus::healthy()
        .with_metadata("version", "1.0.0")
        .with_metadata("endpoint", "localhost:9090");

    assert_eq!(status.metadata.get("version"), Some(&"1.0.0".to_string()));
    assert_eq!(status.metadata.get("endpoint"), Some(&"localhost:9090".to_string()));
}

#[test]
fn test_health_status_display() {
    let healthy = HealthStatus::healthy();
    assert!(healthy.to_text().contains("[HEALTHY]"));

    let unhealthy = HealthStatus::unhealthy("Error occurred");
    assert!(unhealthy.to_text().contains("[UNHEALTHY]"));
    assert!(unhealthy.to_text().contains("Error occurred"));
}

#[test]
fn test_metric_request_builder() {
    let request = MetricRequest::gauge("memory_usage", s(512.0))
        .with_label("unit", "MB")
        .with_label("server", "web-01");

    assert_eq!(request.name(), "memory_usage");
    assert_eq!(request.metric_type(), &metrics_port::MetricType::Gauge);
    assert_eq!(request.value(), s(512.0));
    assert_eq!(request.labels().len(), 2);
}
