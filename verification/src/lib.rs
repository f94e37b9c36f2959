//! Formats structured log events as single-line JSON entries for Google Cloud Logging.
pub mod event_formatter;
pub mod fields;
pub mod google;
pub mod json;
pub mod laws;
pub mod serializers;
pub mod text;
pub mod visitor;
pub mod writer;

pub use self::event_formatter::{Error, Event, EventFormatter, Field, FieldValue, TraceIdVisitor};
pub use self::google::{
    CloudTraceConfiguration, HttpRequest, Level, LogSeverity, ParentContext, TraceContext,
};
pub use self::json::JsonValue;
pub use self::serializers::Span;
pub use self::writer::WriteAdaptor;
