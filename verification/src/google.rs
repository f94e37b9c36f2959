//! The vocabulary of Cloud Logging: severities and the structured HTTP request.
use crate::json::{members_view, Json, JsonValue};
use crate::text::str_eq;
use std::convert::Infallible;
use std::str::FromStr;
use vstd::prelude::*;
use vstd::std_specs::convert::FromSpecImpl;
use vstd::string::*;

verus! {

/// The verbosity level of an event, as the tracing framework knows it.
#[derive(Clone, Copy, Debug, PartialEq, Eq, Structural)]
pub enum Level {
    Trace,
    Debug,
    Info,
    Warn,
    Error,
}

/// The severity of the event described in a log entry, in increasing order of urgency.
#[derive(Clone, Copy, Debug, PartialEq, Eq, Structural)]
pub enum LogSeverity {
    /// Log entry has no assigned severity level
    Default,
    /// Debug or trace information
    Debug,
    /// Routine information, such as ongoing status or performance
    Info,
    /// Normal but significant events, such as start up, shut down, or a configuration change
    Notice,
    /// Warning events might cause problems
    Warning,
    /// Error events are likely to cause problems
    Error,
    /// Critical events cause more severe problems or outages
    Critical,
    /// A person must take an action immediately
    Alert,
    /// One or more systems are unusable
    Emergency,
}

/// What `str::to_lowercase` makes of a string.
pub uninterp spec fn lowercase_of(s: Seq<char>) -> Seq<char>;

/// Calls `str::to_lowercase`, which gives the lowercase equivalent of the string as Unicode
/// defines it. The result is named by `lowercase_of`.
#[verifier::external_body]
fn to_lowercase(s: &str) -> (r: String)
    ensures
        r@ == lowercase_of(s@),
{
    s.to_lowercase()
}

/// The severity that a name in lower case stands for; `Default` for any other text.
pub open spec fn severity_named(name: Seq<char>) -> LogSeverity {
    if name == "debug"@ || name == "trace"@ {
        LogSeverity::Debug
    } else if name == "info"@ {
        LogSeverity::Info
    } else if name == "notice"@ {
        LogSeverity::Notice
    } else if name == "warn"@ || name == "warning"@ {
        LogSeverity::Warning
    } else if name == "error"@ {
        LogSeverity::Error
    } else if name == "critical"@ {
        LogSeverity::Critical
    } else if name == "alert"@ {
        LogSeverity::Alert
    } else if name == "emergency"@ {
        LogSeverity::Emergency
    } else {
        LogSeverity::Default
    }
}

/// The severity that a free text stands for, whatever its case.
pub open spec fn severity_of_text(text: Seq<char>) -> LogSeverity {
    severity_named(lowercase_of(text))
}

/// The severity that a level maps to.
pub open spec fn severity_of_level(level: Level) -> LogSeverity {
    match level {
        Level::Trace | Level::Debug => LogSeverity::Debug,
        Level::Info => LogSeverity::Info,
        Level::Warn => LogSeverity::Warning,
        Level::Error => LogSeverity::Error,
    }
}

/// The severity that a JSON value stands for: a string by its text, an object with a
/// single member by the key of that member, anything else `Default`.
pub open spec fn severity_of_json(value: Json) -> LogSeverity {
    match value {
        Json::String(text) => severity_of_text(text),
        Json::Object(members) => if members.len() == 1 {
            severity_of_text(members[0].0)
        } else {
            LogSeverity::Default
        },
        _ => LogSeverity::Default,
    }
}

impl LogSeverity {
    /// The name of the severity as a log entry holds it.
    pub open spec fn name(self) -> Seq<char> {
        match self {
            LogSeverity::Default => "DEFAULT"@,
            LogSeverity::Debug => "DEBUG"@,
            LogSeverity::Info => "INFO"@,
            LogSeverity::Notice => "NOTICE"@,
            LogSeverity::Warning => "WARNING"@,
            LogSeverity::Error => "ERROR"@,
            LogSeverity::Critical => "CRITICAL"@,
            LogSeverity::Alert => "ALERT"@,
            LogSeverity::Emergency => "EMERGENCY"@,
        }
    }

    /// The name of the severity as a log entry holds it, in upper case.
    pub fn as_str(&self) -> (r: &'static str)
        ensures
            r@ == self.name(),
    {
        match self {
            LogSeverity::Default => "DEFAULT",
            LogSeverity::Debug => "DEBUG",
            LogSeverity::Info => "INFO",
            LogSeverity::Notice => "NOTICE",
            LogSeverity::Warning => "WARNING",
            LogSeverity::Error => "ERROR",
            LogSeverity::Critical => "CRITICAL",
            LogSeverity::Alert => "ALERT",
            LogSeverity::Emergency => "EMERGENCY",
        }
    }

    /// The name of the severity as an owned string.
    pub fn to_string(&self) -> (r: String)
        ensures
            r@ == self.name(),
    {
        self.as_str().to_owned()
    }

    /// The severity that a name in lower case stands for; `Default` for any other text.
    pub fn from_lowercase(name: &str) -> (r: LogSeverity)
        ensures
            r == severity_named(name@),
    {
        if str_eq(name, "debug") || str_eq(name, "trace") {
            LogSeverity::Debug
        } else if str_eq(name, "info") {
            LogSeverity::Info
        } else if str_eq(name, "notice") {
            LogSeverity::Notice
        } else if str_eq(name, "warn") || str_eq(name, "warning") {
            LogSeverity::Warning
        } else if str_eq(name, "error") {
            LogSeverity::Error
        } else if str_eq(name, "critical") {
            LogSeverity::Critical
        } else if str_eq(name, "alert") {
            LogSeverity::Alert
        } else if str_eq(name, "emergency") {
            LogSeverity::Emergency
        } else {
            LogSeverity::Default
        }
    }

    /// The severity that a free text stands for, whatever its case. Text that names no
    /// severity gives `Default`.
    pub fn from_text(text: &str) -> (r: LogSeverity)
        ensures
            r == severity_of_text(text@),
    {
        let lowered = to_lowercase(text);
        LogSeverity::from_lowercase(lowered.as_str())
    }
}

impl Default for LogSeverity {
    fn default() -> (r: LogSeverity)
        ensures
            r == LogSeverity::Default,
    {
        LogSeverity::Default
    }
}

impl From<&Level> for LogSeverity {
    fn from(level: &Level) -> (r: LogSeverity) {
        match level {
            Level::Debug | Level::Trace => LogSeverity::Debug,
            Level::Info => LogSeverity::Info,
            Level::Warn => LogSeverity::Warning,
            Level::Error => LogSeverity::Error,
        }
    }
}

impl FromSpecImpl<&Level> for LogSeverity {
    open spec fn obeys_from_spec() -> bool {
        true
    }

    open spec fn from_spec(level: &Level) -> LogSeverity {
        severity_of_level(*level)
    }
}

impl FromStr for LogSeverity {
    type Err = Infallible;

    fn from_str(string: &str) -> (r: Result<LogSeverity, Infallible>)
        ensures
            r == Ok::<LogSeverity, Infallible>(severity_of_text(string@)),
    {
        Ok(LogSeverity::from_text(string))
    }
}

impl From<JsonValue> for LogSeverity {
    fn from(json: JsonValue) -> (r: LogSeverity) {
        match json {
            JsonValue::String(text) => LogSeverity::from_text(text.as_str()),
            JsonValue::Object(members) => {
                if members.len() == 1 {
                    proof {
                        crate::json::lemma_view_of_collections(json);
                    }
                    LogSeverity::from_text(members[0].0.as_str())
                } else {
                    proof {
                        crate::json::lemma_view_of_collections(json);
                    }
                    LogSeverity::Default
                }
            },
            _ => LogSeverity::Default,
        }
    }
}

impl FromSpecImpl<JsonValue> for LogSeverity {
    open spec fn obeys_from_spec() -> bool {
        true
    }

    open spec fn from_spec(json: JsonValue) -> LogSeverity {
        severity_of_json(json@)
    }
}

/// What enables Cloud Trace fields in the entries: the project that the traces belong to.
#[derive(Clone, Debug)]
pub struct CloudTraceConfiguration {
    /// Identifier of the Google Cloud project
    pub project_id: String,
}

/// The trace that is active in the context a span was made in.
#[derive(Clone, Copy, Debug, PartialEq, Eq, Structural)]
pub struct ParentContext {
    /// Identifier of the trace
    pub trace_id: u128,
    /// Whether the trace is sampled
    pub sampled: bool,
}

/// The distributed-trace data attached to a span.
#[derive(Clone, Copy, Debug, PartialEq, Eq, Structural)]
pub struct TraceContext {
    /// Identifier of the span, where one was made
    pub span_id: Option<u64>,
    /// Identifier of the trace as recorded when the span was made
    pub trace_id: Option<u128>,
    /// The trace that is active in the parent context, where there is one
    pub parent: Option<ParentContext>,
}

impl TraceContext {
    /// The trace that the span belongs to and whether it is sampled: those of the active
    /// parent trace where there is one; else the trace recorded with the span, not
    /// sampled.
    pub open spec fn selected_trace(self) -> (Option<u128>, bool) {
        match self.parent {
            Some(parent) => (Some(parent.trace_id), parent.sampled),
            None => (self.trace_id, false),
        }
    }

    /// The trace that the span belongs to, and whether it is sampled.
    pub fn extract(&self) -> (r: (Option<u128>, bool))
        ensures
            r == self.selected_trace(),
    {
        match self.parent {
            Some(parent) => (Some(parent.trace_id), parent.sampled),
            None => (self.trace_id, false),
        }
    }
}

/// A structured description of an HTTP request and the response to it, for the
/// `httpRequest` member of an entry.
#[derive(Debug)]
pub struct HttpRequest {
    /// Method of the request (e.g. GET, POST)
    pub request_method: Option<String>,
    /// URL of the request
    pub request_url: Option<String>,
    /// Size of the HTTP request in bytes
    pub request_size: Option<u32>,
    /// Size of the HTTP response in bytes
    pub response_size: Option<u32>,
    /// Status code of the response
    pub status: Option<u16>,
    /// User Agent string of the request
    pub user_agent: Option<String>,
    /// IP address of the client that issued the request
    pub remote_ip: Option<String>,
    /// IP address of the server that the request was sent to
    pub server_ip: Option<String>,
    /// Referer URL of the request, as defined in HTTP/1.1 Header Field Definitions
    pub referer: Option<String>,
    /// Processing latency on the server, in seconds and with the unit, such as `0.23s`
    pub latency: Option<String>,
    /// Whether or not a cache lookup was attempted
    pub cache_lookup: Option<bool>,
    /// Whether or not an entity was served from cache (with or without validation)
    pub cache_hit: Option<bool>,
    /// Whether or not the response was validated with the origin server before being served from cache
    pub cache_validated_with_origin_server: Option<bool>,
    /// Number of HTTP response bytes inserted into cache
    pub cache_fill_bytes: Option<u32>,
    /// Protocol used for the request (e.g. "HTTP/1.1", "HTTP/2", "websocket")
    pub protocol: Option<String>,
}

/// The member for a text that may be absent.
pub open spec fn optional_text(key: Seq<char>, value: Option<String>) -> Seq<(Seq<char>, Json)> {
    match value {
        Some(text) => seq![(key, Json::String(text@))],
        None => Seq::empty(),
    }
}

/// The member for a number that may be absent.
pub open spec fn optional_number(key: Seq<char>, value: Option<u32>) -> Seq<(Seq<char>, Json)> {
    match value {
        Some(number) => seq![(key, Json::Number(number as int))],
        None => Seq::empty(),
    }
}

/// The member for a truth value that may be absent.
pub open spec fn optional_flag(key: Seq<char>, value: Option<bool>) -> Seq<(Seq<char>, Json)> {
    match value {
        Some(flag) => seq![(key, Json::Bool(flag))],
        None => Seq::empty(),
    }
}

/// A status code as a wider number.
pub open spec fn widened(value: Option<u16>) -> Option<u32> {
    match value {
        Some(number) => Some(number as u32),
        None => None,
    }
}

/// The members of the object that stands for a request: one for each part that is
/// known, in a fixed order and under its camel case key.
pub open spec fn http_request_members(request: HttpRequest) -> Seq<(Seq<char>, Json)> {
    optional_text("requestMethod"@, request.request_method)
        + optional_text("requestUrl"@, request.request_url)
        + optional_number("requestSize"@, request.request_size)
        + optional_number("responseSize"@, request.response_size)
        + optional_number("status"@, widened(request.status))
        + optional_text("userAgent"@, request.user_agent)
        + optional_text("remoteIp"@, request.remote_ip)
        + optional_text("serverIp"@, request.server_ip)
        + optional_text("referer"@, request.referer)
        + optional_text("latency"@, request.latency)
        + optional_flag("cacheLookup"@, request.cache_lookup)
        + optional_flag("cacheHit"@, request.cache_hit)
        + optional_flag("cacheValidatedWithOriginServer"@, request.cache_validated_with_origin_server)
        + optional_number("cacheFillBytes"@, request.cache_fill_bytes)
        + optional_text("protocol"@, request.protocol)
}

fn push_text(members: &mut Vec<(String, JsonValue)>, key: &str, value: &Option<String>)
    ensures
        members_view(final(members)@) == members_view(old(members)@) + optional_text(key@, *value),
{
    match value {
        Some(text) => {
            members.push((key.to_owned(), JsonValue::String(text.clone())));
        },
        None => {},
    }
    assert(members_view(members@) =~= members_view(old(members)@) + optional_text(key@, *value));
}

fn push_number(members: &mut Vec<(String, JsonValue)>, key: &str, value: Option<u32>)
    ensures
        members_view(final(members)@) == members_view(old(members)@) + optional_number(
            key@,
            value,
        ),
{
    match value {
        Some(number) => {
            members.push((key.to_owned(), JsonValue::UInt(number as u64)));
        },
        None => {},
    }
    assert(members_view(members@) =~= members_view(old(members)@) + optional_number(key@, value));
}

fn push_flag(members: &mut Vec<(String, JsonValue)>, key: &str, value: Option<bool>)
    ensures
        members_view(final(members)@) == members_view(old(members)@) + optional_flag(key@, value),
{
    match value {
        Some(flag) => {
            members.push((key.to_owned(), JsonValue::Bool(flag)));
        },
        None => {},
    }
    assert(members_view(members@) =~= members_view(old(members)@) + optional_flag(key@, value));
}

fn widen(value: Option<u16>) -> (r: Option<u32>)
    ensures
        r == widened(value),
{
    match value {
        Some(number) => Some(number as u32),
        None => None,
    }
}

impl HttpRequest {
    /// A request of which nothing is known yet.
    pub fn new() -> (r: Self)
        ensures
            http_request_members(r).len() == 0,
    {
        HttpRequest {
            request_method: None,
            request_url: None,
            request_size: None,
            response_size: None,
            status: None,
            user_agent: None,
            remote_ip: None,
            server_ip: None,
            referer: None,
            latency: None,
            cache_lookup: None,
            cache_hit: None,
            cache_validated_with_origin_server: None,
            cache_fill_bytes: None,
            protocol: None,
        }
    }

    /// The members of the object that stands for the request: the parts that are known.
    pub fn visit(&self) -> (r: Vec<(String, JsonValue)>)
        ensures
            members_view(r@) == http_request_members(*self),
    {
        let mut members: Vec<(String, JsonValue)> = Vec::new();
        assert(members_view(members@) =~= Seq::empty());
        push_text(&mut members, "requestMethod", &self.request_method);
        push_text(&mut members, "requestUrl", &self.request_url);
        push_number(&mut members, "requestSize", self.request_size);
        push_number(&mut members, "responseSize", self.response_size);
        push_number(&mut members, "status", widen(self.status));
        push_text(&mut members, "userAgent", &self.user_agent);
        push_text(&mut members, "remoteIp", &self.remote_ip);
        push_text(&mut members, "serverIp", &self.server_ip);
        push_text(&mut members, "referer", &self.referer);
        push_text(&mut members, "latency", &self.latency);
        push_flag(&mut members, "cacheLookup", self.cache_lookup);
        push_flag(&mut members, "cacheHit", self.cache_hit);
        push_flag(&mut members, "cacheValidatedWithOriginServer", self.cache_validated_with_origin_server);
        push_number(&mut members, "cacheFillBytes", self.cache_fill_bytes);
        push_text(&mut members, "protocol", &self.protocol);
        assert(members_view(members@) =~= http_request_members(*self));
        members
    }

    /// The request as a JSON value: the object of its members.
    pub fn as_value(&self) -> (r: JsonValue)
        ensures
            r@ == Json::Object(http_request_members(*self)),
    {
        let object = JsonValue::Object(self.visit());
        proof {
            crate::json::lemma_view_of_collections(object);
        }
        object
    }
}

impl Default for HttpRequest {
    fn default() -> (r: Self)
        ensures
            http_request_members(r).len() == 0,
    {
        HttpRequest::new()
    }
}

} // verus!
