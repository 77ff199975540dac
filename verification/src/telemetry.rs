//! Telemetry wiring: OpenTelemetry providers for logs, traces and metrics,
//! exporting over OTLP. The provider setup itself is outside calls behind
//! trusted wrappers; the library contributes the log-level parsing and the
//! orchestration, and reports failures as values instead of aborting.

use vstd::prelude::*;

verus! {

use crate::tiles::str_eq_chars;

/// The log levels a caller can ask for, coarsest first.
#[derive(Debug, Clone, Copy, PartialEq, Eq, Structural)]
pub enum LogLevel {
    Error,
    Warn,
    Info,
    Debug,
    Trace,
}

impl LogLevel {
    /// The level a configuration value names, lower case; an empty or
    /// unrecognised value falls back to `Info`.
    pub fn from_name(name: &str) -> (r: LogLevel)
        ensures
            name@ == "error"@ ==> r is Error,
            name@ == "warn"@ ==> r is Warn,
            name@ == "info"@ ==> r is Info,
            name@ == "debug"@ ==> r is Debug,
            name@ == "trace"@ ==> r is Trace,
            name@ != "error"@ && name@ != "warn"@ && name@ != "info"@ && name@ != "debug"@
                && name@ != "trace"@ ==> r is Info,
    {
        proof {
            reveal_strlit("error");
            reveal_strlit("warn");
            reveal_strlit("info");
            reveal_strlit("debug");
            reveal_strlit("trace");
            // the five names differ pairwise in their first character
            assert("error"@[0] == 'e');
            assert("warn"@[0] == 'w');
            assert("info"@[0] == 'i');
            assert("debug"@[0] == 'd');
            assert("trace"@[0] == 't');
        }
        if str_eq_chars(name, "error") {
            LogLevel::Error
        } else if str_eq_chars(name, "warn") {
            LogLevel::Warn
        } else if str_eq_chars(name, "debug") {
            LogLevel::Debug
        } else if str_eq_chars(name, "trace") {
            LogLevel::Trace
        } else {
            LogLevel::Info
        }
    }
}

/// Which telemetry provider failed to come up.
#[derive(Debug, Clone, Copy, PartialEq, Eq, Structural)]
pub enum TelemetryError {
    Logger,
    Tracer,
    Meter,
}

#[verifier::external_type_specification]
#[verifier::external_body]
pub struct ExResource(opentelemetry_sdk::Resource);

/// Relies on opentelemetry_sdk::Resource::builder: describes this service
/// and its host process for the telemetry providers.
#[verifier::external_body]
fn otel_resource() -> opentelemetry_sdk::Resource {
    opentelemetry_sdk::Resource::builder()
        .with_service_name("pass-image-api")
        .with_detector(Box::new(opentelemetry_resource_detectors::OsResourceDetector))
        .with_detector(Box::new(opentelemetry_resource_detectors::ProcessResourceDetector))
        .build()
}

/// Relies on opentelemetry_otlp::LogExporter, SdkLoggerProvider,
/// OpenTelemetryLogBridge and log::set_boxed_logger: installs an OTLP log
/// pipeline as the process logger; reports whether it came up.
#[verifier::external_body]
fn init_logger_provider(res: opentelemetry_sdk::Resource) -> bool {
    let exporter = match opentelemetry_otlp::LogExporter::builder().with_tonic().build() {
        Ok(e) => e,
        Err(_) => return false,
    };
    let provider = opentelemetry_sdk::logs::SdkLoggerProvider::builder()
        .with_batch_exporter(exporter)
        .with_resource(res)
        .build();
    let bridge = opentelemetry_appender_log::OpenTelemetryLogBridge::new(&provider);
    log::set_boxed_logger(Box::new(bridge)).is_ok()
}

/// Relies on log::set_max_level: caps which records the installed logger
/// sees.
#[verifier::external_body]
fn set_max_log_level(level: LogLevel) {
    log::set_max_level(match level {
        LogLevel::Error => log::LevelFilter::Error,
        LogLevel::Warn => log::LevelFilter::Warn,
        LogLevel::Info => log::LevelFilter::Info,
        LogLevel::Debug => log::LevelFilter::Debug,
        LogLevel::Trace => log::LevelFilter::Trace,
    });
}

/// Relies on opentelemetry_otlp::SpanExporter, SdkTracerProvider and
/// opentelemetry::global: installs an OTLP trace pipeline and the trace
/// context propagator; reports whether it came up.
#[verifier::external_body]
fn init_tracer(res: opentelemetry_sdk::Resource) -> bool {
    opentelemetry::global::set_text_map_propagator(
        opentelemetry_sdk::propagation::TraceContextPropagator::new(),
    );
    let exporter = match opentelemetry_otlp::SpanExporter::builder().with_tonic().build() {
        Ok(e) => e,
        Err(_) => return false,
    };
    let provider = opentelemetry_sdk::trace::SdkTracerProvider::builder()
        .with_batch_exporter(exporter)
        .with_resource(res)
        .build();
    opentelemetry::global::set_tracer_provider(provider);
    true
}

/// Relies on opentelemetry_otlp::MetricExporter, PeriodicReader,
/// SdkMeterProvider and opentelemetry::global: installs an OTLP metric
/// pipeline with delta temporality; reports whether it came up.
#[verifier::external_body]
fn init_meter_provider(res: opentelemetry_sdk::Resource) -> bool {
    let exporter = match opentelemetry_otlp::MetricExporter::builder()
        .with_tonic()
        .with_temporality(opentelemetry_sdk::metrics::Temporality::Delta)
        .build() {
        Ok(e) => e,
        Err(_) => return false,
    };
    let provider = opentelemetry_sdk::metrics::SdkMeterProvider::builder()
        .with_reader(opentelemetry_sdk::metrics::PeriodicReader::builder(exporter).build())
        .with_resource(res)
        .build();
    opentelemetry::global::set_meter_provider(provider);
    true
}

/// Brings up logging, tracing and metrics in that order, all exporting over
/// OTLP and sharing one resource description. The first provider that does
/// not come up names itself in the error, and nothing panics on the way.
pub fn init_otel(level: LogLevel) -> Result<(), TelemetryError> {
    if !init_logger_provider(otel_resource()) {
        return Err(TelemetryError::Logger);
    }
    set_max_log_level(level);
    if !init_tracer(otel_resource()) {
        return Err(TelemetryError::Tracer);
    }
    if !init_meter_provider(otel_resource()) {
        return Err(TelemetryError::Meter);
    }
    Ok(())
}

} // verus!
