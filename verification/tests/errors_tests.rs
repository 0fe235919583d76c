use metrics_port::{
    metrics_adapter_error, metrics_config_error, metrics_connection_error, metrics_error,
    metrics_health_error, metrics_recording_error, metrics_serialization_error,
    metrics_error_of_io_class, metrics_timeout_error, validate_metric_name, ErrorKind,
    IoErrorClass, MetricsErrorExt,
};

#[test]
fn test_metrics_error() {
    let error = metrics_error("metric_name", "Invalid characters");
    assert!(error.to_text().contains("Invalid characters"));
}

#[test]
fn test_metrics_config_error() {
    let error = metrics_config_error("port", "Port out of range");
    assert!(error.to_text().contains("Port out of range"));
    assert_eq!(error.kind, ErrorKind::Configuration);
}

#[test]
fn test_metrics_connection_error() {
    let error = metrics_connection_error("localhost:9090", "Connection refused");
    assert!(error.to_text().contains("Connection refused"));
    assert_eq!(error.kind, ErrorKind::Network);
}

#[test]
fn test_metrics_recording_error() {
    let error = metrics_recording_error("cpu_usage", "Registry full");
    assert!(error.to_text().contains("Registry full"));
}

#[test]
fn test_metrics_adapter_error() {
    let error = metrics_adapter_error("prometheus", "Init failed");
    assert!(error.to_text().contains("Init failed"));
}

#[test]
fn test_metrics_health_error() {
    let error = metrics_health_error("otel", "Endpoint unreachable");
    assert!(error.to_text().contains("Endpoint unreachable"));
}

#[test]
fn test_metrics_serialization_error() {
    let error = metrics_serialization_error("protobuf", "Invalid schema");
    assert!(error.to_text().contains("Invalid schema"));
}

#[test]
fn test_metrics_timeout_error() {
    let error = metrics_timeout_error("batch_send", 30);
    assert!(error.to_text().contains("batch_send"));
    assert!(error.to_text().contains("30s"));
}

#[test]
fn test_error_extension_trait() {
    let base_error = metrics_error("test", "test message");
    let extended = base_error
        .with_metrics_context("counter recording")
        .with_metric_name("http_requests")
        .with_adapter_type("prometheus");

    let error_string = extended.to_text();
    assert!(error_string.contains("http_requests"));
    assert!(error_string.contains("prometheus"));
}

#[test]
fn test_io_error_conversion() {
    let io_error =
        std::io::Error::new(std::io::ErrorKind::ConnectionRefused, "Connection refused");
    let error = metrics_port::from_io_error(io_error);
    assert!(error.to_text().contains("connection"));
}

#[test]
fn test_timeout_io_error_conversion() {
    let io_error = std::io::Error::new(std::io::ErrorKind::TimedOut, "Operation timed out");
    let error = metrics_port::from_io_error(io_error);
    assert!(error.to_text().contains("timeout"));
}

#[test]
fn test_serde_json_error_conversion() {
    let json_error = serde_json::from_str::<serde_json::Value>("invalid json").unwrap_err();
    let error = metrics_port::from_serde_json_error(json_error);
    assert!(error.to_text().contains("json"));
}

#[test]
fn test_io_error_class_mapping() {
    let e = metrics_error_of_io_class(IoErrorClass::ConnectionRefused, "no route");
    assert_eq!(e.kind, ErrorKind::Network);
    assert!(e.to_text().contains("connection"));
    assert!(e.to_text().contains("no route"));
    let e = metrics_error_of_io_class(IoErrorClass::TimedOut, "slow");
    assert!(e.to_text().contains("timeout"));
    assert!(e.to_text().contains("io_operation"));
    let e = metrics_error_of_io_class(IoErrorClass::Other, "disk on fire");
    assert_eq!(e.kind, ErrorKind::Internal);
    assert!(e.to_text().contains("Metrics IO error: disk on fire"));
}

#[test]
fn test_tyl_error_integration() {
    let error = metrics_error("test_metric", "Invalid metric name");
    assert!(error.to_text().contains("Invalid metric name"));
}

#[test]
fn test_validation() {
    assert!(validate_metric_name("valid_metric").is_ok());
    assert!(validate_metric_name("").is_err());
    assert!(validate_metric_name("invalid name").is_err());
}

#[test]
fn test_decimal_rendering() {
    assert_eq!(metrics_port::decimal_string(0), "0");
    assert_eq!(metrics_port::decimal_string(7), "7");
    assert_eq!(metrics_port::decimal_string(30), "30");
    assert_eq!(metrics_port::decimal_string(18446744073709551615), "18446744073709551615");
}
