//! Puts the log entry of one event together.
use crate::fields::insert_member;
use crate::google::{
    severity_of_level, CloudTraceConfiguration, Level, LogSeverity, TraceContext,
};
use crate::json::{
    all_line_safe, has_key, hex_digit, lemma_render_one_line, members_view, one_line,
    render_members_into, render_object, Json, JsonValue,
};
use crate::laws::{
    fields_line_safe, lemma_entry_line_safe, lemma_reserved_keys_kept, lemma_span_part_line_safe,
};
use crate::serializers::{
    chain_items, source_location_members, span_members, SerializableContext, SerializableSpan,
    SourceLocation, Span,
};
use crate::text::{find_byte, position_of, str_eq};
use crate::visitor::{camel_case_of, field_key, finish_members, Visitor};
use crate::writer::WriteAdaptor;
use vstd::prelude::*;
use vstd::string::*;
use vstd::utf8::{
    decode_utf8, encode_utf8, encode_utf8_decode_utf8, encode_utf8_valid_utf8, is_char_boundary,
    is_char_boundary_iff_not_is_continuation_byte, is_char_boundary_start_end_of_seq,
};

verus! {

/// Why an event could not be formatted.
#[derive(Clone, Copy, Debug, PartialEq, Eq, Structural)]
pub enum Error {
    /// A span of the event holds fields that are not the text of a JSON object.
    Serialization,
    /// The bytes handed to the writer were not text.
    Io,
    /// The time of the event cannot be written as an RFC 3339 timestamp.
    Time,
}

/// The timestamp that `time` writes for a point in time, given in nanoseconds since the
/// Unix epoch, in the RFC 3339 format and in UTC.
pub uninterp spec fn rfc3339_text(nanos: int) -> Seq<char>;

/// Whether a point in time falls into the years 0 to 9999, the ones that RFC 3339 can
/// write.
pub open spec fn timestamp_formattable(nanos: int) -> bool {
    -62_167_219_200_000_000_000 <= nanos < 253_402_300_800_000_000_000
}

/// Calls `time::OffsetDateTime::from_unix_timestamp_nanos` and formats what it gives with
/// `Rfc3339`. The first fails outside the range of dates that the crate knows, the second
/// for a year outside 0 to 9999; together they succeed exactly from the first instant of
/// the year 0 to the last of the year 9999. The text is named by `rfc3339_text`.
#[verifier::external_body]
fn format_rfc3339(nanos: i128) -> (r: Option<String>)
    ensures
        r is Some <==> timestamp_formattable(nanos as int),
        r matches Some(text) ==> text@ == rfc3339_text(nanos as int),
{
    match time::OffsetDateTime::from_unix_timestamp_nanos(nanos) {
        Ok(moment) => moment.format(&time::format_description::well_known::Rfc3339).ok(),
        Err(_) => None,
    }
}

/// A number in hexadecimal, in lower case, with exactly `width` digits.
pub open spec fn lower_hex(n: nat, width: nat) -> Seq<char>
    decreases width,
{
    if width == 0 {
        Seq::empty()
    } else {
        lower_hex(n / 16, (width - 1) as nat).push(hex_digit((n % 16) as int))
    }
}

/// Formats an `opentelemetry::trace::SpanId`, which writes its 64 bits as 16 hexadecimal
/// digits in lower case.
#[verifier::external_body]
fn span_id_text(id: u64) -> (r: String)
    ensures
        r@ == lower_hex(id as nat, 16),
{
    opentelemetry::trace::SpanId::from(id).to_string()
}

/// Formats an `opentelemetry::trace::TraceId`, which writes its 128 bits as 32
/// hexadecimal digits in lower case.
#[verifier::external_body]
fn trace_id_text(id: u128) -> (r: String)
    ensures
        r@ == lower_hex(id as nat, 32),
{
    opentelemetry::trace::TraceId::from(id).to_string()
}

/// The byte of a colon.
pub const COLON: u8 = 58;

/// Whether the text has a colon, and so a second piece when it is cut at its colons.
pub open spec fn has_second_piece(bytes: Seq<u8>) -> bool {
    position_of(bytes, COLON) < bytes.len()
}

/// Where the second piece begins: behind the first colon.
pub open spec fn second_piece_start(bytes: Seq<u8>) -> int {
    position_of(bytes, COLON) + 1
}

/// Where the second piece ends: at the second colon, or at the end of the text.
pub open spec fn second_piece_end(bytes: Seq<u8>) -> int {
    second_piece_start(bytes) + position_of(bytes.skip(second_piece_start(bytes)), COLON)
}

/// Whether a trace id can be read from the text of the fields of a span: where the text
/// has a second piece, that piece has at least three bytes, and it can be cut behind its
/// first byte and before its last two.
pub open spec fn unpackable(value: Seq<char>) -> bool {
    let bytes = encode_utf8(value);
    has_second_piece(bytes) ==> {
        &&& second_piece_end(bytes) - second_piece_start(bytes) >= 3
        &&& is_char_boundary(bytes, second_piece_start(bytes) + 1)
        &&& is_char_boundary(bytes, second_piece_end(bytes) - 2)
    }
}

/// The trace id that is read from the text of the fields of a span: the second piece of
/// the text without its first byte and its last two, which for `{"trace_id":"abc"}` is
/// `abc`; the whole text where it has no colon.
pub open spec fn unpacked(value: Seq<char>) -> Seq<char> {
    let bytes = encode_utf8(value);
    if has_second_piece(bytes) {
        decode_utf8(bytes.subrange(second_piece_start(bytes) + 1, second_piece_end(bytes) - 2))
    } else {
        value
    }
}

/// Whether a trace id can be read from the text.
pub fn can_unpack(value: &str) -> (r: bool)
    ensures
        r == unpackable(value@),
{
    let bytes = value.as_bytes();
    assert(bytes@.skip(0) =~= bytes@);
    let first = find_byte(bytes, 0, COLON);
    if first == bytes.len() {
        return true;
    }
    let start: usize = first + 1;
    let end = find_byte(bytes, start, COLON);
    if end - start < 3 {
        return false;
    }
    value.is_char_boundary(start + 1) && value.is_char_boundary(end - 2)
}

/// Reads the trace id from the text of the fields of a span.
pub fn unpack(value: &str) -> (r: &str)
    requires
        unpackable(value@),
    ensures
        r@ == unpacked(value@),
{
    let bytes = value.as_bytes();
    assert(bytes@.skip(0) =~= bytes@);
    let first = find_byte(bytes, 0, COLON);
    if first == bytes.len() {
        return value;
    }
    let start: usize = first + 1;
    let end = find_byte(bytes, start, COLON);
    let (head, _) = value.split_at(end - 2);
    proof {
        encode_utf8_valid_utf8(value@);
        encode_utf8_valid_utf8(head@);
        if start + 1 < end - 2 {
            is_char_boundary_iff_not_is_continuation_byte(bytes@, start + 1);
            is_char_boundary_iff_not_is_continuation_byte(head.spec_bytes(), start + 1);
        } else {
            is_char_boundary_start_end_of_seq(head.spec_bytes());
        }
    }
    let (_, inner) = head.split_at(start + 1);
    proof {
        encode_utf8_decode_utf8(inner@);
        assert(inner.spec_bytes() =~= bytes@.subrange(start + 1, end - 2));
    }
    inner
}

/// Looks for the `trace_id` field of a span and keeps what it holds.
#[derive(Debug)]
pub struct TraceIdVisitor {
    trace_id: Option<String>,
}

impl TraceIdVisitor {
    /// The trace id found so far.
    pub closed spec fn trace_id(&self) -> Option<Seq<char>> {
        match self.trace_id {
            Some(id) => Some(id@),
            None => None,
        }
    }

    /// A visitor that has found nothing yet.
    pub fn new() -> (r: Self)
        ensures
            r.trace_id() is None,
    {
        TraceIdVisitor { trace_id: None }
    }

    /// Records a field with a string. For the field `trace_id` the string is the text of
    /// the fields of its span, and the trace id is read from it; any other field is
    /// passed over.
    pub fn record_str(&mut self, field: &str, value: &str)
        requires
            field@ == "trace_id"@ ==> unpackable(value@),
        ensures
            final(self).trace_id() == if field@ == "trace_id"@ {
                Some(unpacked(value@))
            } else {
                old(self).trace_id()
            },
    {
        if str_eq(field, "trace_id") {
            self.trace_id = Some(unpack(value).to_owned());
        }
    }

    /// Records a field of any other kind, which is passed over.
    pub fn record_debug(&mut self, field: &str, value: &str)
        ensures
            final(self).trace_id() == old(self).trace_id(),
    {
    }

    /// The trace id that was found, if any.
    pub fn into_trace_id(self) -> (r: Option<String>)
        ensures
            match r {
                Some(id) => self.trace_id() == Some(id@),
                None => self.trace_id() is None,
            },
    {
        self.trace_id
    }
}

/// The key under which a log entry holds the place in the source.
pub const SOURCE_LOCATION_KEY: &'static str = "logging.googleapis.com/sourceLocation";

/// The key under which a log entry holds the identifier of its span.
pub const SPAN_ID_KEY: &'static str = "logging.googleapis.com/spanId";

/// The key under which a log entry holds the resource name of its trace.
pub const TRACE_KEY: &'static str = "logging.googleapis.com/trace";

/// The key under which a log entry tells that its trace is sampled.
pub const TRACE_SAMPLED_KEY: &'static str = "logging.googleapis.com/trace_sampled";

/// The value of one field of an event.
#[derive(Debug)]
pub enum FieldValue {
    I64(i64),
    U64(u64),
    Bool(bool),
    Str(String),
    /// The debug representation of a value of any other kind.
    Debug(String),
    /// A structured value.
    Value(JsonValue),
}

/// One field of an event.
#[derive(Debug)]
pub struct Field {
    pub name: String,
    pub value: FieldValue,
}

/// What an entry reads of one event.
#[derive(Debug)]
pub struct Event {
    /// The part of the program that the event comes from
    pub target: String,
    /// The source file of the event, where it is known
    pub file: Option<String>,
    /// The line of the event in its file, where it is known
    pub line: Option<u32>,
    /// The verbosity level of the event
    pub level: Level,
    /// The fields of the event in the order in which they were given; the message is the
    /// field `message`
    pub fields: Vec<Field>,
    /// The spans around the event, from the root to the current span: the parent of the
    /// event where it names one, and else the innermost span that was entered. Empty
    /// where the event is outside any span.
    pub spans: Vec<Span>,
}

/// The JSON value that is recorded for the value of a field.
pub open spec fn field_json(value: FieldValue) -> Json {
    match value {
        FieldValue::I64(n) => Json::Number(n as int),
        FieldValue::U64(n) => Json::Number(n as int),
        FieldValue::Bool(b) => Json::Bool(b),
        FieldValue::Str(text) => Json::String(text@),
        FieldValue::Debug(text) => Json::String(text@),
        FieldValue::Value(value) => value@,
    }
}

/// What is recorded once the given fields have been recorded on top of `values`, one
/// after the other: of two fields with one name the later stays.
pub open spec fn record_all(values: Seq<(Seq<char>, Json)>, fields: Seq<Field>) -> Seq<
    (Seq<char>, Json),
>
    decreases fields.len(),
{
    if fields.len() == 0 {
        values
    } else {
        insert_member(
            record_all(values, fields.drop_last()),
            fields.last().name@,
            field_json(fields.last().value),
        )
    }
}

/// What is recorded of the fields of an event.
pub open spec fn recorded(fields: Seq<Field>) -> Seq<(Seq<char>, Json)> {
    record_all(Seq::empty(), fields)
}

/// Whether a span declares a field called `trace_id`.
pub open spec fn names_trace_id(span: Span) -> bool {
    exists|i: int| 0 <= i < span.field_names@.len() && (#[trigger] span.field_names@[i])@
        == "trace_id"@
}

/// The trace id that the spans around an event carry: that of the innermost span that
/// declares a field `trace_id`, read from the text of the fields of that span.
pub open spec fn scope_trace_id(spans: Seq<Span>) -> Option<Seq<char>>
    decreases spans.len(),
{
    if spans.len() == 0 {
        None
    } else if names_trace_id(spans.last()) {
        Some(unpacked(spans.last().fields@))
    } else {
        scope_trace_id(spans.drop_last())
    }
}

/// Whether the trace id can be read from every span that declares a field `trace_id`.
pub open spec fn trace_ids_readable(spans: Seq<Span>) -> bool {
    forall|i: int| 0 <= i < spans.len() && names_trace_id(#[trigger] spans[i]) ==> unpackable(
        spans[i].fields@,
    )
}

/// The resource name of a trace in a project.
pub open spec fn trace_resource(project_id: Seq<char>, trace_id: u128) -> Seq<char> {
    "projects/"@ + project_id + "/traces/"@ + lower_hex(trace_id as nat, 32)
}

/// The members that tell Cloud Trace where an entry belongs: the span id where the span
/// has one, the resource name of the trace where a trace is known, and the mark of a
/// sampled trace, which is left out where the trace is not sampled.
pub open spec fn cloud_trace_members(project_id: Seq<char>, context: TraceContext) -> Seq<
    (Seq<char>, Json),
> {
    (match context.span_id {
        Some(id) => seq![(SPAN_ID_KEY@, Json::String(lower_hex(id as nat, 16)))],
        None => Seq::empty(),
    }) + (match context.selected_trace().0 {
        Some(id) => seq![(TRACE_KEY@, Json::String(trace_resource(project_id, id)))],
        None => Seq::empty(),
    }) + (if context.selected_trace().1 {
        seq![(TRACE_SAMPLED_KEY@, Json::Bool(true))]
    } else {
        Seq::empty()
    })
}

/// Formats events as entries for Cloud Logging.
#[derive(Debug)]
pub struct EventFormatter {
    pub(crate) include_source_location: bool,
    pub(crate) include_span_list: bool,
    pub(crate) cloud_trace_configuration: Option<CloudTraceConfiguration>,
}

impl EventFormatter {
    /// Whether entries tell the place of the event in the source.
    pub closed spec fn source_location(&self) -> bool {
        self.include_source_location
    }

    /// Whether entries list the whole chain of spans besides the current span.
    pub closed spec fn span_list(&self) -> bool {
        self.include_span_list
    }

    /// The project that traces belong to, where Cloud Trace fields are enabled.
    pub closed spec fn project_id(&self) -> Option<Seq<char>> {
        match self.cloud_trace_configuration {
            Some(configuration) => Some(configuration.project_id@),
            None => None,
        }
    }
}

/// The member that tells the place of an event in the source: there where it is wanted
/// and the file is known.
pub open spec fn location_members(formatter: EventFormatter, event: Event) -> Seq<
    (Seq<char>, Json),
> {
    if formatter.source_location() && event.file is Some {
        seq![
            (
                SOURCE_LOCATION_KEY@,
                Json::Object(source_location_members(event.file->0@, event.line)),
            ),
        ]
    } else {
        Seq::empty()
    }
}

/// The members that every entry begins with: the time, the target, and the place in the
/// source.
pub open spec fn heading_members(formatter: EventFormatter, event: Event, time: Seq<char>) -> Seq<
    (Seq<char>, Json),
> {
    seq![("time"@, Json::String(time)), ("target"@, Json::String(event.target@))]
        + location_members(formatter, event)
}

/// The member that lists the chain of spans, where the list is wanted.
pub open spec fn span_list_members(formatter: EventFormatter, spans: Seq<Span>) -> Option<
    Seq<(Seq<char>, Json)>,
> {
    if formatter.span_list() {
        match chain_items(spans) {
            Some(items) => Some(seq![("spans"@, Json::Array(items))]),
            None => None,
        }
    } else {
        Some(Seq::empty())
    }
}

/// The member that holds the trace id that the spans carry, where they carry one.
pub open spec fn trace_id_members(spans: Seq<Span>) -> Seq<(Seq<char>, Json)> {
    match scope_trace_id(spans) {
        Some(id) => seq![("traceId"@, Json::String(id))],
        None => Seq::empty(),
    }
}

/// The Cloud Trace members of an entry: there where Cloud Trace fields are enabled and
/// the current span has trace data attached.
pub open spec fn cloud_members(formatter: EventFormatter, span: Span) -> Seq<(Seq<char>, Json)> {
    match (formatter.project_id(), span.trace_context) {
        (Some(project_id), Some(context)) => cloud_trace_members(project_id, context),
        _ => Seq::empty(),
    }
}

/// The members that the spans around an event give: none where there is no span; else
/// the current span, the list of spans, the trace id and the Cloud Trace members.
/// Nothing where the fields of a span that is written are not the text of a JSON object.
pub open spec fn span_part(formatter: EventFormatter, spans: Seq<Span>) -> Option<
    Seq<(Seq<char>, Json)>,
> {
    if spans.len() == 0 {
        Some(Seq::empty())
    } else {
        match (
            span_members(spans.last().name@, spans.last().fields@),
            span_list_members(formatter, spans),
        ) {
            (Some(members), Some(list)) => Some(
                seq![("span"@, Json::Object(members))] + list + trace_id_members(spans)
                    + cloud_members(formatter, spans.last()),
            ),
            _ => None,
        }
    }
}

/// The members of the entry of an event, in the order in which they are written.
pub open spec fn entry_members(formatter: EventFormatter, event: Event, nanos: int) -> Option<
    Seq<(Seq<char>, Json)>,
> {
    match span_part(formatter, event.spans@) {
        Some(part) => Some(
            heading_members(formatter, event, rfc3339_text(nanos)) + part + finish_members(
                recorded(event.fields@),
                severity_of_level(event.level),
            ),
        ),
        None => None,
    }
}

/// Whether some field of the event has a name whose camel case is the given key.
pub open spec fn names_key(fields: Seq<Field>, key: Seq<char>) -> bool {
    exists|i: int| 0 <= i < fields.len() && camel_case_of((#[trigger] fields[i]).name@) == key
}

/// What holds of the keys of every entry, whatever the fields of the event are called:
/// no key is a dotted `http_request.` or `httpRequest.` key; the place in the source is
/// absent where it is not wanted; and for an event outside any span the Cloud Trace keys
/// are absent, and so are `span`, `spans` and `traceId` unless a field of the event is
/// called so.
pub open spec fn reserved_keys_kept(
    formatter: EventFormatter,
    event: Event,
    members: Seq<(Seq<char>, Json)>,
) -> bool {
    &&& forall|rest: Seq<char>| !has_key(members, #[trigger] ("http_request."@ + rest))
    &&& forall|rest: Seq<char>| !has_key(members, #[trigger] ("httpRequest."@ + rest))
    &&& !formatter.source_location() ==> !has_key(members, SOURCE_LOCATION_KEY@)
    &&& event.spans@.len() == 0 ==> {
        &&& !has_key(members, SPAN_ID_KEY@)
        &&& !has_key(members, TRACE_KEY@)
        &&& !has_key(members, TRACE_SAMPLED_KEY@)
        &&& !names_key(event.fields@, "span"@) ==> !has_key(members, "span"@)
        &&& !names_key(event.fields@, "spans"@) ==> !has_key(members, "spans"@)
        &&& !names_key(event.fields@, "traceId"@) ==> !has_key(members, "traceId"@)
    }
}

/// Adds one member behind the others.
pub fn push_member(members: &mut Vec<(String, JsonValue)>, key: &str, value: JsonValue)
    ensures
        members_view(final(members)@) == members_view(old(members)@).push((key@, value@)),
{
    members.push((key.to_owned(), value));
    assert(members_view(members@) =~= members_view(old(members)@).push((key@, value@)));
}

impl Event {
    /// Records the fields of the event with a visitor, one after the other.
    pub fn record(&self, visitor: &mut Visitor)
        requires
            old(visitor).wf(),
        ensures
            final(visitor).wf(),
            final(visitor).values() == record_all(old(visitor).values(), self.fields@),
            final(visitor).severity() == old(visitor).severity(),
            final(visitor).members() == old(visitor).members(),
    {
        let mut i: usize = 0;
        assert(self.fields@.take(0) =~= Seq::<Field>::empty());
        while i < self.fields.len()
            invariant
                i <= self.fields.len(),
                visitor.wf(),
                visitor.values() == record_all(old(visitor).values(), self.fields@.take(i as int)),
                visitor.severity() == old(visitor).severity(),
                visitor.members() == old(visitor).members(),
            decreases self.fields.len() - i,
        {
            let field = &self.fields[i];
            proof {
                assert(self.fields@.take(i + 1).drop_last() =~= self.fields@.take(i as int));
                assert(self.fields@.take(i + 1).last() == *field);
            }
            let name = field.name.as_str();
            match &field.value {
                FieldValue::I64(n) => visitor.record_i64(name, *n),
                FieldValue::U64(n) => visitor.record_u64(name, *n),
                FieldValue::Bool(b) => visitor.record_bool(name, *b),
                FieldValue::Str(text) => visitor.record_str(name, text.as_str()),
                FieldValue::Debug(text) => visitor.record_debug(name, text.as_str()),
                FieldValue::Value(value) => visitor.record_value(name, value.clone()),
            }
            i += 1;
        }
        assert(self.fields@.take(self.fields.len() as int) =~= self.fields@);
    }
}

/// Reads the trace id that the spans around an event carry.
pub fn read_trace_id(spans: &Vec<Span>) -> (r: Option<String>)
    requires
        trace_ids_readable(spans@),
    ensures
        match r {
            Some(id) => scope_trace_id(spans@) == Some(id@),
            None => scope_trace_id(spans@) is None,
        },
{
    let mut visitor = TraceIdVisitor::new();
    let mut i: usize = 0;
    assert(spans@.take(0) =~= Seq::<Span>::empty());
    while i < spans.len()
        invariant
            i <= spans.len(),
            trace_ids_readable(spans@),
            visitor.trace_id() == scope_trace_id(spans@.take(i as int)),
        decreases spans.len() - i,
    {
        let span = &spans[i];
        let ghost before = visitor.trace_id();
        proof {
            assert(spans@.take(i + 1).drop_last() =~= spans@.take(i as int));
            assert(spans@.take(i + 1).last() == *span);
            assert(spans@[i as int] == *span);
        }
        let mut j: usize = 0;
        while j < span.field_names.len()
            invariant
                j <= span.field_names.len(),
                names_trace_id(*span) ==> unpackable(span.fields@),
                visitor.trace_id() == if exists|k: int|
                    0 <= k < j && (#[trigger] span.field_names@[k])@ == "trace_id"@ {
                    Some(unpacked(span.fields@))
                } else {
                    before
                },
            decreases span.field_names.len() - j,
        {
            let name = span.field_names[j].as_str();
            proof {
                if name@ == "trace_id"@ {
                    assert(span.field_names@[j as int]@ == "trace_id"@);
                }
            }
            visitor.record_str(name, span.fields.as_str());
            proof {
                if name@ == "trace_id"@ {
                    assert(span.field_names@[j as int]@ == "trace_id"@);
                } else if exists|k: int|
                    0 <= k < j + 1 && (#[trigger] span.field_names@[k])@ == "trace_id"@ {
                    let k = choose|k: int|
                        0 <= k < j + 1 && (#[trigger] span.field_names@[k])@ == "trace_id"@;
                    assert(k < j);
                }
            }
            j += 1;
        }
        i += 1;
    }
    assert(spans@.take(spans.len() as int) =~= spans@);
    visitor.into_trace_id()
}

/// The text of the resource name of a trace in a project.
pub fn trace_resource_text(project_id: &str, trace_id: u128) -> (r: String)
    ensures
        r@ == trace_resource(project_id@, trace_id),
{
    let mut text = "projects/".to_owned();
    text.append(project_id);
    text.append("/traces/");
    let id = trace_id_text(trace_id);
    text.append(id.as_str());
    text
}

/// Adds the Cloud Trace members for the given trace data behind the others.
pub fn push_cloud_trace(
    members: &mut Vec<(String, JsonValue)>,
    project_id: &str,
    context: &TraceContext,
)
    ensures
        members_view(final(members)@) == members_view(old(members)@) + cloud_trace_members(
            project_id@,
            *context,
        ),
{
    match context.span_id {
        Some(id) => {
            push_member(members, SPAN_ID_KEY, JsonValue::String(span_id_text(id)));
        },
        None => {},
    }
    let (trace_id, sampled) = context.extract();
    match trace_id {
        Some(id) => {
            push_member(
                members,
                TRACE_KEY,
                JsonValue::String(trace_resource_text(project_id, id)),
            );
        },
        None => {},
    }
    if sampled {
        push_member(members, TRACE_SAMPLED_KEY, JsonValue::Bool(true));
    }
    assert(members_view(members@) =~= members_view(old(members)@) + cloud_trace_members(
        project_id@,
        *context,
    ));
}

impl EventFormatter {
    /// The members of the entry of an event that happened at the given time, which is
    /// counted in nanoseconds since the Unix epoch. A time outside the years 0 to 9999 is
    /// an error, and so is a span whose fields are not the text of a JSON object.
    pub fn entry(&self, event: &Event, timestamp: i128) -> (r: Result<
        Vec<(String, JsonValue)>,
        Error,
    >)
        requires
            trace_ids_readable(event.spans@),
        ensures
            match r {
                Ok(members) => timestamp_formattable(timestamp as int) && entry_members(
                    *self,
                    *event,
                    timestamp as int,
                ) == Some(members_view(members@)) && reserved_keys_kept(
                    *self,
                    *event,
                    members_view(members@),
                ) && (fields_line_safe(event.fields@) ==> all_line_safe(members_view(members@))),
                Err(Error::Time) => !timestamp_formattable(timestamp as int),
                Err(Error::Serialization) => timestamp_formattable(timestamp as int)
                    && entry_members(*self, *event, timestamp as int) is None,
                Err(Error::Io) => false,
            },
    {
        let time = match format_rfc3339(timestamp) {
            Some(time) => time,
            None => {
                return Err(Error::Time);
            },
        };
        let severity = LogSeverity::from(&event.level);
        let mut members = self.heading(event, time);
        let ghost heading = members_view(members@);
        match self.push_span_part(&mut members, &event.spans) {
            Ok(()) => {},
            Err(error) => {
                return Err(Error::Serialization);
            },
        }
        let ghost before = members_view(members@);
        let mut visitor = Visitor::new(severity, members);
        assert(visitor.values() =~= Seq::empty());
        event.record(&mut visitor);
        let members = visitor.finish();
        proof {
            assert(severity == severity_of_level(event.level));
            assert(before == heading + span_part(*self, event.spans@)->0);
            assert(members_view(members@) == before + finish_members(
                recorded(event.fields@),
                severity_of_level(event.level),
            ));
            assert forall|i: int| before.len() <= i < members@.len() implies field_key(
                #[trigger] members_view(members@)[i].0,
            ) by {
                assert(field_key(members@[i].0@));
            }
            lemma_reserved_keys_kept(*self, *event, timestamp as int);
            if fields_line_safe(event.fields@) {
                lemma_entry_line_safe(*self, *event, timestamp as int);
            }
        }
        Ok(members)
    }

    /// The members that every entry begins with.
    pub fn heading(&self, event: &Event, time: String) -> (r: Vec<(String, JsonValue)>)
        ensures
            members_view(r@) == heading_members(*self, *event, time@),
    {
        let mut members: Vec<(String, JsonValue)> = Vec::new();
        assert(members_view(members@) =~= Seq::empty());
        push_member(&mut members, "time", JsonValue::String(time));
        push_member(&mut members, "target", JsonValue::String(event.target.clone()));
        if self.include_source_location {
            match &event.file {
                Some(file) => {
                    let location = SourceLocation { file: file.as_str(), line: event.line };
                    push_member(&mut members, SOURCE_LOCATION_KEY, location.serialize());
                },
                None => {},
            }
        }
        assert(members_view(members@) =~= heading_members(*self, *event, time@));
        members
    }

    /// Adds the members that the spans around an event give behind the others. On an
    /// error the members may already hold a part of them.
    pub fn push_span_part(&self, members: &mut Vec<(String, JsonValue)>, spans: &Vec<Span>) -> (r:
        Result<(), Error>)
        requires
            trace_ids_readable(spans@),
        ensures
            match r {
                Ok(()) => span_part(*self, spans@) is Some && members_view(final(members)@)
                    == members_view(old(members)@) + span_part(*self, spans@)->0
                    && all_line_safe(span_part(*self, spans@)->0),
                Err(error) => error == Error::Serialization && span_part(*self, spans@)
                    is None,
            },
    {
        if spans.len() == 0 {
            assert(members_view(members@) =~= members_view(old(members)@) + span_part(
                *self,
                spans@,
            )->0);
            proof {
                lemma_span_part_line_safe(*self, spans@);
            }
            return Ok(());
        }
        let span = &spans[spans.len() - 1];
        assert(*span == spans@.last());
        match SerializableSpan::new(span).serialize() {
            Ok(object) => {
                proof {
                    let written = span_members(span.name@, span.fields@)->0;
                    assert(object@ == Json::Object(written));
                    crate::json::lemma_line_safe_object(written);
                }
                push_member(members, "span", object);
            },
            Err(error) => {
                return Err(Error::Serialization);
            },
        }
        if self.include_span_list {
            match SerializableContext::new(spans).serialize() {
                Ok(list) => {
                    assert(list@ == Json::Array(chain_items(spans@)->0));
                    push_member(members, "spans", list);
                },
                Err(error) => {
                    return Err(Error::Serialization);
                },
            }
        }
        match read_trace_id(spans) {
            Some(id) => {
                push_member(members, "traceId", JsonValue::String(id));
            },
            None => {},
        }
        match (&self.cloud_trace_configuration, &span.trace_context) {
            (Some(configuration), Some(context)) => {
                push_cloud_trace(members, configuration.project_id.as_str(), context);
            },
            _ => {},
        }
        assert(members_view(members@) =~= members_view(old(members)@) + span_part(
            *self,
            spans@,
        )->0);
        proof {
            lemma_span_part_line_safe(*self, spans@);
        }
        Ok(())
    }

    /// Writes the entry of an event that happened at the given time: one JSON object,
    /// with the members of the entry in their order. On an error nothing is written.
    pub fn format_event(&self, event: &Event, timestamp: i128, writer: &mut WriteAdaptor) -> (r:
        Result<(), Error>)
        requires
            trace_ids_readable(event.spans@),
        ensures
            match r {
                Ok(()) => timestamp_formattable(timestamp as int) && entry_members(
                    *self,
                    *event,
                    timestamp as int,
                ) is Some && final(writer)@ == old(writer)@ + render_object(
                    entry_members(*self, *event, timestamp as int)->0,
                ) && reserved_keys_kept(
                    *self,
                    *event,
                    entry_members(*self, *event, timestamp as int)->0,
                ) && (fields_line_safe(event.fields@) ==> one_line(
                    render_object(entry_members(*self, *event, timestamp as int)->0),
                )),
                Err(Error::Time) => !timestamp_formattable(timestamp as int) && final(writer)@
                    == old(writer)@,
                Err(Error::Serialization) => timestamp_formattable(timestamp as int)
                    && entry_members(*self, *event, timestamp as int) is None && final(writer)@
                    == old(writer)@,
                Err(Error::Io) => false,
            },
    {
        let members = match self.entry(event, timestamp) {
            Ok(members) => members,
            Err(error) => {
                return Err(error);
            },
        };
        let mut text = String::new();
        render_members_into(&members, &mut text);
        proof {
            encode_utf8_valid_utf8(text@);
            encode_utf8_decode_utf8(text@);
            assert(text@ =~= render_object(members_view(members@)));
            if fields_line_safe(event.fields@) {
                lemma_render_one_line(Json::Object(members_view(members@)));
            }
        }
        match writer.write(text.as_str().as_bytes()) {
            Ok(_) => Ok(()),
            Err(error) => Err(error),
        }
    }

    /// The line of an event that happened at the given time: its entry as one JSON
    /// object, and a line feed behind it.
    pub fn format_line(&self, event: &Event, timestamp: i128) -> (r: Result<String, Error>)
        requires
            trace_ids_readable(event.spans@),
        ensures
            match r {
                Ok(line) => timestamp_formattable(timestamp as int) && entry_members(
                    *self,
                    *event,
                    timestamp as int,
                ) is Some && line@ == render_object(
                    entry_members(*self, *event, timestamp as int)->0,
                ).push('\n') && reserved_keys_kept(
                    *self,
                    *event,
                    entry_members(*self, *event, timestamp as int)->0,
                ) && (fields_line_safe(event.fields@) ==> one_line(line@.drop_last())),
                Err(Error::Time) => !timestamp_formattable(timestamp as int),
                Err(Error::Serialization) => timestamp_formattable(timestamp as int)
                    && entry_members(*self, *event, timestamp as int) is None,
                Err(Error::Io) => false,
            },
    {
        let mut writer = WriteAdaptor::new(String::new());
        match self.format_event(event, timestamp, &mut writer) {
            Ok(()) => {},
            Err(error) => {
                return Err(error);
            },
        }
        let mut line = writer.into_inner();
        proof {
            reveal_strlit("\n");
        }
        line.append("\n");
        assert(line@ =~= render_object(entry_members(*self, *event, timestamp as int)->0).push(
            '\n',
        ));
        assert(line@.drop_last() =~= render_object(
            entry_members(*self, *event, timestamp as int)->0,
        ));
        Ok(line)
    }
}

/// The span that an event belongs to: the parent that the event names, where it names
/// one that is known, and else the innermost span that was entered.
pub fn resolve_current<T>(parent: Option<T>, entered: Option<T>) -> (r: Option<T>)
    ensures
        r == if parent is Some {
            parent
        } else {
            entered
        },
{
    match parent {
        Some(span) => Some(span),
        None => entered,
    }
}

/// Whether some field name of the span is `trace_id`.
pub fn declares_trace_id(span: &Span) -> (r: bool)
    ensures
        r == names_trace_id(*span),
{
    let mut j: usize = 0;
    while j < span.field_names.len()
        invariant
            j <= span.field_names.len(),
            forall|k: int| 0 <= k < j ==> (#[trigger] span.field_names@[k])@ != "trace_id"@,
        decreases span.field_names.len() - j,
    {
        if str_eq(span.field_names[j].as_str(), "trace_id") {
            assert(span.field_names@[j as int]@ == "trace_id"@);
            return true;
        }
        j += 1;
    }
    false
}

/// Whether the trace id can be read from every span that declares a field `trace_id`,
/// which is what formatting an event asks of its spans.
pub fn can_read_trace_ids(spans: &Vec<Span>) -> (r: bool)
    ensures
        r == trace_ids_readable(spans@),
{
    let mut i: usize = 0;
    while i < spans.len()
        invariant
            i <= spans.len(),
            forall|k: int|
                0 <= k < i && names_trace_id(#[trigger] spans@[k]) ==> unpackable(
                    spans@[k].fields@,
                ),
        decreases spans.len() - i,
    {
        if declares_trace_id(&spans[i]) && !can_unpack(spans[i].fields.as_str()) {
            assert(names_trace_id(spans@[i as int]));
            return false;
        }
        i += 1;
    }
    true
}

impl Default for EventFormatter {
    fn default() -> (r: Self)
        ensures
            r.source_location(),
            !r.span_list(),
            r.project_id() is None,
    {
        EventFormatter {
            include_source_location: true,
            include_span_list: false,
            cloud_trace_configuration: None,
        }
    }
}

impl EventFormatter {
    /// Sets whether entries tell the place of the event in the source.
    pub fn with_source_location(self, include_source_location: bool) -> (r: Self)
        ensures
            r.source_location() == include_source_location,
            r.span_list() == self.span_list(),
            r.project_id() == self.project_id(),
    {
        EventFormatter {
            include_source_location,
            include_span_list: self.include_span_list,
            cloud_trace_configuration: self.cloud_trace_configuration,
        }
    }

    /// Sets whether entries list the whole chain of spans besides the current span.
    pub fn with_span_list(self, include_span_list: bool) -> (r: Self)
        ensures
            r.source_location() == self.source_location(),
            r.span_list() == include_span_list,
            r.project_id() == self.project_id(),
    {
        EventFormatter {
            include_source_location: self.include_source_location,
            include_span_list,
            cloud_trace_configuration: self.cloud_trace_configuration,
        }
    }

    /// Enables Cloud Trace fields for the traces of a project.
    pub fn enable_cloud_trace(self, configuration: CloudTraceConfiguration) -> (r: Self)
        ensures
            r.source_location() == self.source_location(),
            r.span_list() == self.span_list(),
            r.project_id() == Some(configuration.project_id@),
    {
        EventFormatter {
            include_source_location: self.include_source_location,
            include_span_list: self.include_span_list,
            cloud_trace_configuration: Some(configuration),
        }
    }
}

} // verus!
