//! Structured errors for the metrics domain.
//!
//! Every failure the library reports carries a kind from a small taxonomy
//! (validation, configuration, network, internal) together with the field it
//! concerns and a human-readable message.  The helper constructors mirror the
//! situations the metrics port distinguishes: validation of names, labels and
//! values; adapter configuration; connection, recording, health-check,
//! serialization and timeout failures.

use vstd::prelude::*;
use vstd::string::StringExecFns;

use crate::text::push_char;

verus! {

/// The kind of a metrics error.
#[derive(Clone, Copy, Debug, PartialEq, Eq, Structural, Hash)]
pub enum ErrorKind {
    /// Malformed metric name, label or value.
    Validation,
    /// Invalid adapter configuration.
    Configuration,
    /// A backend could not be reached.
    Network,
    /// A backend-internal failure: recording, health check, serialization,
    /// timeout.
    Internal,
}

/// A structured metrics error: a kind, the field concerned (empty when the
/// error is not about one field), and a message.
#[derive(Clone, Debug, PartialEq)]
pub struct MetricsError {
    pub kind: ErrorKind,
    pub field: String,
    pub message: String,
}

/// The decimal digit character for `d`.
pub open spec fn spec_digit(d: int) -> char
    recommends
        0 <= d < 10,
{
    ((48 + d) as u8) as char
}

/// The decimal rendering of a non-negative integer, most significant digit
/// first.
pub open spec fn spec_decimal(n: int) -> Seq<char>
    recommends
        n >= 0,
    decreases n,
{
    if n < 10 {
        seq![spec_digit(n)]
    } else {
        spec_decimal(n / 10).push(spec_digit(n % 10))
    }
}

/// Render a number in decimal.
pub fn decimal_string(n: u64) -> (s: String)
    ensures
        s@ == spec_decimal(n as int),
    decreases n,
{
    if n < 10 {
        let mut s = String::new();
        push_char(&mut s, (48 + n as u8) as char);
        assert(s@ =~= spec_decimal(n as int));
        s
    } else {
        let mut s = decimal_string(n / 10);
        push_char(&mut s, (48 + (n % 10) as u8) as char);
        assert(s@ =~= spec_decimal(n as int));
        s
    }
}

/// Create a metrics validation error for a field, with a message.
pub fn metrics_error(field: &str, message: &str) -> (e: MetricsError)
    ensures
        e.kind == ErrorKind::Validation,
        e.field@ == field@,
        e.message@ == message@,
{
    MetricsError {
        kind: ErrorKind::Validation,
        field: String::from_str(field),
        message: String::from_str(message),
    }
}

/// Create a metrics configuration error for a configuration key.
pub fn metrics_config_error(config_key: &str, message: &str) -> (e: MetricsError)
    ensures
        e.kind == ErrorKind::Configuration,
        e.field@ == Seq::<char>::empty(),
        e.message@ == "Metrics config error for "@ + config_key@ + ": "@ + message@,
{
    let mut m = String::from_str("Metrics config error for ");
    m.append(config_key);
    m.append(": ");
    m.append(message);
    assert(m@ =~= "Metrics config error for "@ + config_key@ + ": "@ + message@);
    MetricsError { kind: ErrorKind::Configuration, field: String::new(), message: m }
}

/// Create a metrics connection error for an endpoint.
pub fn metrics_connection_error(endpoint: &str, message: &str) -> (e: MetricsError)
    ensures
        e.kind == ErrorKind::Network,
        e.field@ == Seq::<char>::empty(),
        e.message@ == "Metrics connection error to "@ + endpoint@ + ": "@ + message@,
{
    let mut m = String::from_str("Metrics connection error to ");
    m.append(endpoint);
    m.append(": ");
    m.append(message);
    assert(m@ =~= "Metrics connection error to "@ + endpoint@ + ": "@ + message@);
    MetricsError { kind: ErrorKind::Network, field: String::new(), message: m }
}

/// Create a metrics recording error for a metric name.
pub fn metrics_recording_error(metric_name: &str, message: &str) -> (e: MetricsError)
    ensures
        e.kind == ErrorKind::Internal,
        e.field@ == Seq::<char>::empty(),
        e.message@ == "Metrics recording error for "@ + metric_name@ + ": "@ + message@,
{
    let mut m = String::from_str("Metrics recording error for ");
    m.append(metric_name);
    m.append(": ");
    m.append(message);
    assert(m@ =~= "Metrics recording error for "@ + metric_name@ + ": "@ + message@);
    MetricsError { kind: ErrorKind::Internal, field: String::new(), message: m }
}

/// Create a metrics adapter initialization error for an adapter type.
pub fn metrics_adapter_error(adapter_type: &str, message: &str) -> (e: MetricsError)
    ensures
        e.kind == ErrorKind::Internal,
        e.field@ == Seq::<char>::empty(),
        e.message@ == "Metrics adapter error for "@ + adapter_type@ + ": "@ + message@,
{
    let mut m = String::from_str("Metrics adapter error for ");
    m.append(adapter_type);
    m.append(": ");
    m.append(message);
    assert(m@ =~= "Metrics adapter error for "@ + adapter_type@ + ": "@ + message@);
    MetricsError { kind: ErrorKind::Internal, field: String::new(), message: m }
}

/// Create a metrics health check error for an adapter type.
pub fn metrics_health_error(adapter_type: &str, message: &str) -> (e: MetricsError)
    ensures
        e.kind == ErrorKind::Internal,
        e.field@ == Seq::<char>::empty(),
        e.message@ == "Metrics health check error for "@ + adapter_type@ + ": "@ + message@,
{
    let mut m = String::from_str("Metrics health check error for ");
    m.append(adapter_type);
    m.append(": ");
    m.append(message);
    assert(m@ =~= "Metrics health check error for "@ + adapter_type@ + ": "@ + message@);
    MetricsError { kind: ErrorKind::Internal, field: String::new(), message: m }
}

/// Create a metrics serialization error for a format.
pub fn metrics_serialization_error(format: &str, message: &str) -> (e: MetricsError)
    ensures
        e.kind == ErrorKind::Internal,
        e.field@ == Seq::<char>::empty(),
        e.message@ == "Metrics serialization error for "@ + format@ + ": "@ + message@,
{
    let mut m = String::from_str("Metrics serialization error for ");
    m.append(format);
    m.append(": ");
    m.append(message);
    assert(m@ =~= "Metrics serialization error for "@ + format@ + ": "@ + message@);
    MetricsError { kind: ErrorKind::Internal, field: String::new(), message: m }
}

/// Create a metrics timeout error for an operation that ran out of time after
/// the given number of seconds.
pub fn metrics_timeout_error(operation: &str, timeout_secs: u64) -> (e: MetricsError)
    ensures
        e.kind == ErrorKind::Internal,
        e.field@ == Seq::<char>::empty(),
        e.message@ == "Metrics timeout error for "@ + operation@ + " after "@ + spec_decimal(
            timeout_secs as int,
        ) + "s"@,
{
    let mut m = String::from_str("Metrics timeout error for ");
    m.append(operation);
    m.append(" after ");
    let digits = decimal_string(timeout_secs);
    m.append(digits.as_str());
    m.append("s");
    assert(m@ =~= "Metrics timeout error for "@ + operation@ + " after "@ + spec_decimal(
        timeout_secs as int,
    ) + "s"@);
    MetricsError { kind: ErrorKind::Internal, field: String::new(), message: m }
}

impl MetricsError {
    /// The rendered text of this error, as a spec-level sequence.
    pub open spec fn spec_text(&self) -> Seq<char> {
        match self.kind {
            ErrorKind::Validation => "validation error for "@ + self.field@ + ": "@
                + self.message@,
            ErrorKind::Configuration => "configuration error: "@ + self.message@,
            ErrorKind::Network => "network error: "@ + self.message@,
            ErrorKind::Internal => "internal error: "@ + self.message@,
        }
    }

    /// Render this error as one line of text.
    pub fn to_text(&self) -> (s: String)
        ensures
            s@ == self.spec_text(),
    {
        match self.kind {
            ErrorKind::Validation => {
                let mut m = String::from_str("validation error for ");
                m.append(self.field.as_str());
                m.append(": ");
                m.append(self.message.as_str());
                assert(m@ =~= self.spec_text());
                m
            },
            ErrorKind::Configuration => {
                let mut m = String::from_str("configuration error: ");
                m.append(self.message.as_str());
                assert(m@ =~= self.spec_text());
                m
            },
            ErrorKind::Network => {
                let mut m = String::from_str("network error: ");
                m.append(self.message.as_str());
                assert(m@ =~= self.spec_text());
                m
            },
            ErrorKind::Internal => {
                let mut m = String::from_str("internal error: ");
                m.append(self.message.as_str());
                assert(m@ =~= self.spec_text());
                m
            },
        }
    }
}

/// Helpers that wrap an existing metrics error with more context.
pub trait MetricsErrorExt: Sized {
    /// Wrap the error in an internal error that names the context in which it
    /// arose.
    fn with_metrics_context(self, context: &str) -> MetricsError;

    /// Wrap the error in an internal error that names the metric concerned.
    fn with_metric_name(self, metric_name: &str) -> MetricsError;

    /// Wrap the error in an internal error that names the adapter concerned.
    fn with_adapter_type(self, adapter_type: &str) -> MetricsError;
}

impl MetricsErrorExt for MetricsError {
    fn with_metrics_context(self, context: &str) -> (e: MetricsError)
        ensures
            e.kind == ErrorKind::Internal,
            e.field@ == Seq::<char>::empty(),
            e.message@ == "Metrics context ["@ + context@ + "]: "@ + self.spec_text(),
    {
        let mut m = String::from_str("Metrics context [");
        m.append(context);
        m.append("]: ");
        let inner = self.to_text();
        m.append(inner.as_str());
        assert(m@ =~= "Metrics context ["@ + context@ + "]: "@ + self.spec_text());
        MetricsError { kind: ErrorKind::Internal, field: String::new(), message: m }
    }

    fn with_metric_name(self, metric_name: &str) -> (e: MetricsError)
        ensures
            e.kind == ErrorKind::Internal,
            e.field@ == Seq::<char>::empty(),
            e.message@ == "Metric ["@ + metric_name@ + "]: "@ + self.spec_text(),
    {
        let mut m = String::from_str("Metric [");
        m.append(metric_name);
        m.append("]: ");
        let inner = self.to_text();
        m.append(inner.as_str());
        assert(m@ =~= "Metric ["@ + metric_name@ + "]: "@ + self.spec_text());
        MetricsError { kind: ErrorKind::Internal, field: String::new(), message: m }
    }

    fn with_adapter_type(self, adapter_type: &str) -> (e: MetricsError)
        ensures
            e.kind == ErrorKind::Internal,
            e.field@ == Seq::<char>::empty(),
            e.message@ == "Adapter ["@ + adapter_type@ + "]: "@ + self.spec_text(),
    {
        let mut m = String::from_str("Adapter [");
        m.append(adapter_type);
        m.append("]: ");
        let inner = self.to_text();
        m.append(inner.as_str());
        assert(m@ =~= "Adapter ["@ + adapter_type@ + "]: "@ + self.spec_text());
        MetricsError { kind: ErrorKind::Internal, field: String::new(), message: m }
    }
}


#[verifier::external_type_specification]
#[verifier::external_body]
pub struct ExIoError(std::io::Error);

/// The classes of I/O failure the metrics domain tells apart.
#[derive(Clone, Copy, Debug, PartialEq, Eq, Structural)]
pub enum IoErrorClass {
    /// The peer refused the connection.
    ConnectionRefused,
    /// The operation ran out of time.
    TimedOut,
    /// Any other I/O failure.
    Other,
}

/// Relies on `std::io::Error::kind`: tells refused connections and timeouts
/// apart from every other I/O failure, one arm each.
#[verifier::external_body]
fn io_error_class(error: &std::io::Error) -> IoErrorClass {
    match error.kind() {
        std::io::ErrorKind::ConnectionRefused => IoErrorClass::ConnectionRefused,
        std::io::ErrorKind::TimedOut => IoErrorClass::TimedOut,
        _ => IoErrorClass::Other,
    }
}

/// Relies on the `Display` impl of `std::io::Error` for the message text.
#[verifier::external_body]
fn io_error_text(error: &std::io::Error) -> String {
    format!("{}", error)
}

/// The metrics error standing for an I/O failure of the given class, with
/// the failure's own text: a refused connection becomes a connection error
/// to an unknown endpoint carrying the text; a timeout becomes the timeout
/// error for an I/O operation of no stated duration; anything else becomes
/// an internal error wrapping the text.
pub fn metrics_error_of_io_class(class: IoErrorClass, text: &str) -> (e: MetricsError)
    ensures
        e.field@ == Seq::<char>::empty(),
        class == IoErrorClass::ConnectionRefused ==> (e.kind == ErrorKind::Network && e.message@
            == "Metrics connection error to "@ + "unknown"@ + ": "@ + text@),
        class == IoErrorClass::TimedOut ==> (e.kind == ErrorKind::Internal && e.message@
            == "Metrics timeout error for "@ + "io_operation"@ + " after "@ + spec_decimal(0)
            + "s"@),
        class == IoErrorClass::Other ==> (e.kind == ErrorKind::Internal && e.message@
            == "Metrics IO error: "@ + text@),
{
    match class {
        IoErrorClass::ConnectionRefused => metrics_connection_error("unknown", text),
        IoErrorClass::TimedOut => metrics_timeout_error("io_operation", 0),
        IoErrorClass::Other => {
            let mut m = String::from_str("Metrics IO error: ");
            m.append(text);
            assert(m@ =~= "Metrics IO error: "@ + text@);
            MetricsError { kind: ErrorKind::Internal, field: String::new(), message: m }
        },
    }
}

/// Convert an I/O error into a metrics error: its class and text are read
/// off the outside error, and the mapping itself — refused connection to
/// connection error, timeout to timeout error, the rest to an internal
/// wrapper — is `metrics_error_of_io_class`, verified for every class and
/// text.
pub fn from_io_error(error: std::io::Error) -> (e: MetricsError)
    ensures
        e.kind == ErrorKind::Network || e.kind == ErrorKind::Internal,
        e.field@ == Seq::<char>::empty(),
{
    let text = io_error_text(&error);
    let class = io_error_class(&error);
    metrics_error_of_io_class(class, text.as_str())
}

#[verifier::external_type_specification]
#[verifier::external_body]
pub struct ExJsonError(serde_json::Error);

/// Relies on the `Display` impl of `serde_json::Error` for the message
/// text.
#[verifier::external_body]
fn json_error_text(error: &serde_json::Error) -> String {
    format!("{}", error)
}

/// Convert a JSON serialization failure into a metrics error: a
/// serialization error for the `json` format carrying the failure's own
/// text.
pub fn from_serde_json_error(error: serde_json::Error) -> (e: MetricsError)
    ensures
        e.kind == ErrorKind::Internal,
        e.field@ == Seq::<char>::empty(),
{
    let text = json_error_text(&error);
    metrics_serialization_error("json", text.as_str())
}

} // verus!
