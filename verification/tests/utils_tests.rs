use metrics_port::{
    format_labels, normalize_metric_name, validate_counter_value, validate_histogram_buckets,
    validate_label_key, validate_label_value, validate_labels, validate_metric_name,
    validate_metric_value, HistogramBuckets, Labels, Scalar,
};

fn s(x: f64) -> Scalar {
    Scalar::from_bits(x.to_bits())
}

#[test]
fn test_validate_metric_name_valid() {
    assert!(validate_metric_name("http_requests_total").is_ok());
    assert!(validate_metric_name("cpu_usage").is_ok());
    assert!(validate_metric_name("db:connection_pool_size").is_ok());
    assert!(validate_metric_name("_private_metric").is_ok());
}

#[test]
fn test_validate_metric_name_invalid() {
    assert!(validate_metric_name("").is_err());
    assert!(validate_metric_name("123_invalid").is_err());
    assert!(validate_metric_name("invalid name").is_err());
    assert!(validate_metric_name("invalid-name").is_err());
    assert!(validate_metric_name(&"x".repeat(256)).is_err());
}

#[test]
fn test_validate_metric_name_leading_colon() {
    // A name may start with a colon, as the naming pattern allows.
    assert!(validate_metric_name(":recording_rule").is_ok());
    assert!(validate_metric_name(":a").is_ok());
    // A label key may not.
    assert!(validate_label_key(":a").is_err());
}

#[test]
fn test_validate_label_key_valid() {
    assert!(validate_label_key("method").is_ok());
    assert!(validate_label_key("status_code").is_ok());
    assert!(validate_label_key("_internal").is_ok());
}

#[test]
fn test_validate_label_key_invalid() {
    assert!(validate_label_key("").is_err());
    assert!(validate_label_key("__reserved").is_err());
    assert!(validate_label_key("123invalid").is_err());
    assert!(validate_label_key("invalid-key").is_err());
    assert!(validate_label_key(&"x".repeat(129)).is_err());
}

#[test]
fn test_validate_label_value_valid() {
    assert!(validate_label_value("GET").is_ok());
    assert!(validate_label_value("200").is_ok());
    assert!(validate_label_value("").is_ok());
    assert!(validate_label_value("some-value").is_ok());
}

#[test]
fn test_validate_label_value_invalid() {
    assert!(validate_label_value("value\0with\0nulls").is_err());
    assert!(validate_label_value(&"x".repeat(1025)).is_err());
}

#[test]
fn test_validate_labels() {
    let mut labels = Labels::new();
    labels.insert("method".to_string(), "GET".to_string());
    labels.insert("status".to_string(), "200".to_string());
    assert!(validate_labels(&labels).is_ok());

    // Too many labels
    let mut too_many_labels = Labels::new();
    for i in 0..33 {
        too_many_labels.insert(format!("label_{}", i), "value".to_string());
    }
    assert!(validate_labels(&too_many_labels).is_err());
}

#[test]
fn test_validate_labels_at_bound() {
    // Exactly 32 valid entries pass; the 33rd makes the set fail.
    let mut labels = Labels::new();
    for i in 0..32 {
        labels.insert(format!("label_{}", i), "value".to_string());
    }
    assert!(validate_labels(&labels).is_ok());
    labels.insert("one_more".to_string(), "value".to_string());
    assert!(validate_labels(&labels).is_err());
}

#[test]
fn test_validate_metric_value() {
    assert!(validate_metric_value(s(123.45)).is_ok());
    assert!(validate_metric_value(s(0.0)).is_ok());
    assert!(validate_metric_value(s(-123.45)).is_ok());

    assert!(validate_metric_value(s(f64::NAN)).is_err());
    assert!(validate_metric_value(s(f64::INFINITY)).is_err());
    assert!(validate_metric_value(s(f64::NEG_INFINITY)).is_err());
}

#[test]
fn test_validate_counter_value() {
    assert!(validate_counter_value(s(123.45)).is_ok());
    assert!(validate_counter_value(s(0.0)).is_ok());

    assert!(validate_counter_value(s(-123.45)).is_err());
    assert!(validate_counter_value(s(f64::NAN)).is_err());
}

#[test]
fn test_format_labels() {
    let mut labels = Labels::new();
    labels.insert("method".to_string(), "GET".to_string());
    labels.insert("status".to_string(), "200".to_string());

    let formatted = format_labels(&labels);
    assert!(formatted.contains("method=GET"));
    assert!(formatted.contains("status=200"));
    assert!(formatted.contains(","));

    // Keys come out sorted, whatever the insertion order.
    assert_eq!(formatted, "method=GET,status=200");

    // Empty labels
    let empty_labels = Labels::new();
    assert_eq!(format_labels(&empty_labels), "{}");
}

#[test]
fn test_format_labels_sorted() {
    let mut a = Labels::new();
    a.insert("zebra".to_string(), "1".to_string());
    a.insert("alpha".to_string(), "2".to_string());
    let mut b = Labels::new();
    b.insert("alpha".to_string(), "2".to_string());
    b.insert("zebra".to_string(), "1".to_string());
    assert_eq!(format_labels(&a), "alpha=2,zebra=1");
    assert_eq!(format_labels(&a), format_labels(&b));
}

#[test]
fn test_normalize_metric_name() {
    assert_eq!(normalize_metric_name("HTTP_Requests_Total"), "http_requests_total");
    assert_eq!(normalize_metric_name("  CPU__Usage  "), "cpu_usage");
    assert_eq!(normalize_metric_name("already_normalized"), "already_normalized");
}

#[test]
fn test_normalize_idempotent() {
    // Normalizing a normal form changes nothing.
    for raw in ["  HTTP__Requests__Total  ", "a___b", "  ", "MiXeD__case_  "] {
        let once = normalize_metric_name(raw);
        let twice = normalize_metric_name(&once);
        assert_eq!(once, twice);
    }
    assert_eq!(normalize_metric_name("  HTTP__Requests__Total  "), "http_requests_total");
}

#[test]
fn test_validate_histogram_buckets() {
    let buckets = vec![s(0.1), s(0.5), s(1.0), s(2.0)];
    let validated = validate_histogram_buckets(&buckets).unwrap();
    assert_eq!(validated, vec![s(0.1), s(0.5), s(1.0), s(2.0), s(f64::INFINITY)]);

    // Empty buckets
    assert!(validate_histogram_buckets(&vec![]).is_err());

    // Duplicate buckets
    let duplicates = vec![s(0.1), s(0.5), s(0.5), s(1.0)];
    assert!(validate_histogram_buckets(&duplicates).is_err());

    // Invalid values
    let invalid = vec![s(0.1), s(f64::NAN), s(1.0)];
    assert!(validate_histogram_buckets(&invalid).is_err());
}

#[test]
fn test_validate_histogram_buckets_sorts() {
    let buckets = vec![s(1.0), s(0.1), s(0.5)];
    let validated = validate_histogram_buckets(&buckets).unwrap();
    assert_eq!(validated, vec![s(0.1), s(0.5), s(1.0), s(f64::INFINITY)]);
}

#[test]
fn test_histogram_buckets_latency() {
    let buckets = HistogramBuckets::latency();
    assert!(buckets.len() > 0);
    assert_eq!(buckets.last(), Some(&s(f64::INFINITY)));
    assert!(buckets.contains(&s(0.001)));
    assert!(buckets.contains(&s(1.0)));
}

#[test]
fn test_histogram_buckets_size_bytes() {
    let buckets = HistogramBuckets::size_bytes();
    assert!(buckets.len() > 0);
    assert_eq!(buckets.last(), Some(&s(f64::INFINITY)));
    assert!(buckets.contains(&s(1024.0)));
    assert!(buckets.contains(&s(1048576.0)));
}
