//! What holds of the entry of every event.
use crate::event_formatter::{
    cloud_members, cloud_trace_members, entry_members, field_json, heading_members,
    location_members, names_key, recorded, reserved_keys_kept, rfc3339_text, span_list_members,
    span_part, trace_id_members, Event, EventFormatter, Field, SOURCE_LOCATION_KEY, SPAN_ID_KEY,
    TRACE_KEY, TRACE_SAMPLED_KEY,
};
use crate::fields::{
    insert_member,
    lemma_has_key_last, lemma_insert_keys, lemma_insert_lookup, lemma_insert_sorted,
    lemma_lookup_has_key, lemma_without_key_keys, lookup, sorted, without_key,
};
use crate::google::{severity_of_json, severity_of_level, LogSeverity, TraceContext};
use crate::json::{all_line_safe, has_key, has_member, line_safe, Json};
use crate::serializers::{source_location_members, Span};
use crate::text::{decimal, lemma_position_of_unique};
use crate::visitor::{
    camel_case_of, classify, field_key, finish_members, first_segment, optional_object,
    remainder, resolved_severity, route_of, Route, HTTP_REQUEST_KEY, INSERT_ID_KEY, LABELS_KEY,
    SEVERITY_KEY,
};
use vstd::prelude::*;

verus! {

/// The value of the last field with the given name, if there is such a field.
pub open spec fn last_field_named(fields: Seq<Field>, name: Seq<char>) -> Option<Json>
    decreases fields.len(),
{
    if fields.len() == 0 {
        None
    } else if fields.last().name@ == name {
        Some(field_json(fields.last().value))
    } else {
        last_field_named(fields.drop_last(), name)
    }
}

/// Whether some field has the given name.
pub open spec fn has_field(fields: Seq<Field>, name: Seq<char>) -> bool {
    exists|i: int| 0 <= i < fields.len() && (#[trigger] fields[i]).name@ == name
}

/// A field with the given name exists exactly when there is a last one.
pub proof fn lemma_last_field_named(fields: Seq<Field>, name: Seq<char>)
    ensures
        last_field_named(fields, name) is Some <==> has_field(fields, name),
    decreases fields.len(),
{
    if fields.len() > 0 {
        lemma_last_field_named(fields.drop_last(), name);
        if fields.last().name@ == name {
            assert(fields[fields.len() - 1].name@ == name);
        } else {
            if has_field(fields.drop_last(), name) {
                let i = choose|i: int|
                    0 <= i < fields.drop_last().len() && (#[trigger] fields.drop_last()[i]).name@
                        == name;
                assert(fields[i].name@ == name);
            }
            if has_field(fields, name) {
                let i = choose|i: int|
                    0 <= i < fields.len() && (#[trigger] fields[i]).name@ == name;
                assert(fields.drop_last()[i].name@ == name);
            }
        }
    }
}

/// What is recorded of the fields of an event stands in the order of the names, each
/// name once, and holds under each name the value of the last field of that name.
pub proof fn lemma_recorded(fields: Seq<Field>, name: Seq<char>)
    ensures
        sorted(recorded(fields)),
        lookup(recorded(fields), name) == last_field_named(fields, name),
        has_key(recorded(fields), name) <==> has_field(fields, name),
    decreases fields.len(),
{
    if fields.len() > 0 {
        let before = recorded(fields.drop_last());
        lemma_recorded(fields.drop_last(), name);
        lemma_insert_sorted(before, fields.last().name@, field_json(fields.last().value));
        lemma_insert_lookup(before, fields.last().name@, field_json(fields.last().value), name);
    }
    lemma_lookup_has_key(recorded(fields), name);
    lemma_last_field_named(fields, name);
}

/// The entry of an event without a field `severity` holds the severity that the level
/// of the event maps to.
pub proof fn lemma_severity_follows_level(formatter: EventFormatter, event: Event, nanos: int)
    requires
        !has_field(event.fields@, SEVERITY_KEY@),
        entry_members(formatter, event, nanos) is Some,
    ensures
        has_member(
            entry_members(formatter, event, nanos)->0,
            SEVERITY_KEY@,
            Json::String(severity_of_level(event.level).name()),
        ),
{
    lemma_recorded(event.fields@, SEVERITY_KEY@);
    lemma_last_field_named(event.fields@, SEVERITY_KEY@);
    lemma_severity_member(formatter, event, nanos);
}

/// The entry of an event holds the severity of the event: what its last field `severity`
/// stands for where it has one, and else what its level maps to.
pub proof fn lemma_severity_member(formatter: EventFormatter, event: Event, nanos: int)
    requires
        entry_members(formatter, event, nanos) is Some,
    ensures
        has_member(
            entry_members(formatter, event, nanos)->0,
            SEVERITY_KEY@,
            Json::String(
                resolved_severity(recorded(event.fields@), severity_of_level(event.level)).name(),
            ),
        ),
{
    let members = entry_members(formatter, event, nanos)->0;
    let heading = heading_members(formatter, event, rfc3339_text(nanos));
    let part = span_part(formatter, event.spans@)->0;
    let at = heading.len() + part.len();
    assert(members[at as int] == (
        SEVERITY_KEY@,
        Json::String(
            resolved_severity(recorded(event.fields@), severity_of_level(event.level)).name(),
        ),
    ));
}

/// The entry of an event with a field `severity` holds the severity that the last such
/// field stands for, whatever the level of the event.
pub proof fn lemma_severity_override_wins(
    formatter: EventFormatter,
    event: Event,
    nanos: int,
    value: Json,
)
    requires
        last_field_named(event.fields@, SEVERITY_KEY@) == Some(value),
        entry_members(formatter, event, nanos) is Some,
    ensures
        has_member(
            entry_members(formatter, event, nanos)->0,
            SEVERITY_KEY@,
            Json::String(severity_of_json(value).name()),
        ),
{
    lemma_recorded(event.fields@, SEVERITY_KEY@);
    lemma_severity_member(formatter, event, nanos);
}

/// The members that the fields give besides the severity are those that the recorded
/// fields without `severity` give: the field that overrides the severity goes nowhere
/// else.
pub proof fn lemma_severity_field_is_consumed(values: Seq<(Seq<char>, Json)>, fallback: LogSeverity)
    ensures
        finish_members(values, fallback).skip(1) == finish_members(
            without_key(values, SEVERITY_KEY@),
            fallback,
        ).skip(1),
        !has_key(without_key(values, SEVERITY_KEY@), SEVERITY_KEY@),
{
    let rest = without_key(values, SEVERITY_KEY@);
    lemma_without_key_keys(values, SEVERITY_KEY@, SEVERITY_KEY@);
    crate::fields::lemma_without_key_absent(rest, SEVERITY_KEY@);
    assert(finish_members(values, fallback).skip(1) =~= finish_members(rest, fallback).skip(1));
}

/// A key that begins with `http_request.` goes into the nested HTTP request, under what
/// follows the dot.
pub proof fn lemma_http_request_route(rest: Seq<char>)
    ensures
        route_of("http_request."@ + rest) == Route::HttpRequest,
        remainder("http_request."@ + rest) == rest,
{
    reveal_strlit("http_request.");
    reveal_strlit("http_request");
    let key = "http_request."@ + rest;
    lemma_position_of_unique(key, '.', 12);
    assert(first_segment(key) =~= "http_request"@);
    assert(remainder(key) =~= rest);
}

/// A recorded field whose key begins with `http_request.` has a member in the nested
/// HTTP request, under the camel case of what follows the dot.
pub proof fn lemma_classify_http_request(values: Seq<(Seq<char>, Json)>, rest: Seq<char>)
    requires
        has_key(values, "http_request."@ + rest),
    ensures
        has_key(classify(values).http_request, camel_case_of(rest)),
    decreases values.len(),
{
    let key = "http_request."@ + rest;
    lemma_http_request_route(rest);
    lemma_has_key_last(values, key);
    let before = classify(values.drop_last());
    if values.last().0 != key {
        lemma_classify_http_request(values.drop_last(), rest);
        if route_of(values.last().0) == Route::HttpRequest {
            lemma_insert_keys(
                before.http_request,
                camel_case_of(remainder(values.last().0)),
                values.last().1,
                camel_case_of(rest),
            );
        }
    } else {
        lemma_insert_keys(
            before.http_request,
            camel_case_of(rest),
            values.last().1,
            camel_case_of(rest),
        );
    }
}

/// The entry of an event with a field `http_request.X` holds the member `httpRequest`,
/// an object with a member under the camel case of `X`.
pub proof fn lemma_http_request_is_nested(
    formatter: EventFormatter,
    event: Event,
    nanos: int,
    rest: Seq<char>,
)
    requires
        has_field(event.fields@, "http_request."@ + rest),
        entry_members(formatter, event, nanos) is Some,
    ensures
        exists|nested: Seq<(Seq<char>, Json)>|
            has_key(nested, camel_case_of(rest)) && #[trigger] has_member(
                entry_members(formatter, event, nanos)->0,
                HTTP_REQUEST_KEY@,
                Json::Object(nested),
            ),
{
    let key = "http_request."@ + rest;
    reveal_strlit("http_request.");
    reveal_strlit("severity");
    assert(key[0] == 'h');
    assert(key != SEVERITY_KEY@);
    lemma_recorded(event.fields@, key);
    let values = recorded(event.fields@);
    lemma_without_key_keys(values, SEVERITY_KEY@, key);
    let placed = classify(without_key(values, SEVERITY_KEY@));
    lemma_classify_http_request(without_key(values, SEVERITY_KEY@), rest);
    let nested = placed.http_request;
    let members = entry_members(formatter, event, nanos)->0;
    let heading = heading_members(formatter, event, rfc3339_text(nanos));
    let part = span_part(formatter, event.spans@)->0;
    let at = heading.len() + part.len() + 1 + placed.top.len();
    assert(members[at as int] == (HTTP_REQUEST_KEY@, Json::Object(nested)));
    assert(has_member(members, HTTP_REQUEST_KEY@, Json::Object(nested)));
}

/// Where the place in the source is wanted and the file of the event is known, the
/// entry tells the place, and the line in it is a string: the number in decimal.
pub proof fn lemma_source_location_line_is_string(
    formatter: EventFormatter,
    event: Event,
    nanos: int,
)
    requires
        formatter.source_location(),
        event.file is Some,
        entry_members(formatter, event, nanos) is Some,
    ensures
        has_member(
            entry_members(formatter, event, nanos)->0,
            SOURCE_LOCATION_KEY@,
            Json::Object(source_location_members(event.file->0@, event.line)),
        ),
        event.line matches Some(line) ==> has_member(
            source_location_members(event.file->0@, event.line),
            "line"@,
            Json::String(decimal(line as int)),
        ),
{
    let members = entry_members(formatter, event, nanos)->0;
    assert(members[2] == (
        SOURCE_LOCATION_KEY@,
        Json::Object(source_location_members(event.file->0@, event.line)),
    ));
    if event.line is Some {
        let location = source_location_members(event.file->0@, event.line);
        assert(location[1] == ("line"@, Json::String(decimal(event.line->0 as int))));
    }
}

/// A key occurs in two runs of members put together exactly when it occurs in one of them.
pub proof fn lemma_has_key_concat(
    a: Seq<(Seq<char>, Json)>,
    b: Seq<(Seq<char>, Json)>,
    k: Seq<char>,
)
    ensures
        has_key(a + b, k) <==> has_key(a, k) || has_key(b, k),
{
    let both = a + b;
    if has_key(both, k) {
        let i = choose|i: int| 0 <= i < both.len() && (#[trigger] both[i]).0 == k;
        if i < a.len() {
            assert(a[i].0 == k);
        } else {
            assert(b[i - a.len()].0 == k);
        }
    }
    if has_key(a, k) {
        let i = choose|i: int| 0 <= i < a.len() && (#[trigger] a[i]).0 == k;
        assert(both[i].0 == k);
    }
    if has_key(b, k) {
        let i = choose|i: int| 0 <= i < b.len() && (#[trigger] b[i]).0 == k;
        assert(both[a.len() + i].0 == k);
    }
}

/// The keys of a run of at most one member.
pub proof fn lemma_has_key_short(a: Seq<(Seq<char>, Json)>, k: Seq<char>)
    requires
        a.len() <= 1,
    ensures
        has_key(a, k) <==> a.len() == 1 && a[0].0 == k,
{
    if has_key(a, k) {
        let i = choose|i: int| 0 <= i < a.len() && (#[trigger] a[i]).0 == k;
    }
    if a.len() == 1 && a[0].0 == k {
        assert(a[0].0 == k);
    }
}

/// The keys that the heading of an entry can hold.
pub proof fn lemma_heading_keys(
    formatter: EventFormatter,
    event: Event,
    time: Seq<char>,
    k: Seq<char>,
)
    ensures
        has_key(heading_members(formatter, event, time), k) ==> k == "time"@ || k == "target"@ || (
        k == SOURCE_LOCATION_KEY@ && formatter.source_location()),
{
    let first = seq![("time"@, Json::String(time)), ("target"@, Json::String(event.target@))];
    lemma_has_key_concat(first, location_members(formatter, event), k);
    lemma_has_key_short(location_members(formatter, event), k);
    if has_key(first, k) {
        let i = choose|i: int| 0 <= i < first.len() && (#[trigger] first[i]).0 == k;
    }
}

/// The keys that the Cloud Trace members can hold.
pub proof fn lemma_cloud_trace_keys(project_id: Seq<char>, context: TraceContext, k: Seq<char>)
    ensures
        has_key(cloud_trace_members(project_id, context), k) ==> k == SPAN_ID_KEY@ || k
            == TRACE_KEY@ || k == TRACE_SAMPLED_KEY@,
{
    let a: Seq<(Seq<char>, Json)> = match context.span_id {
        Some(id) => seq![
            (SPAN_ID_KEY@, Json::String(crate::event_formatter::lower_hex(id as nat, 16))),
        ],
        None => Seq::empty(),
    };
    let b: Seq<(Seq<char>, Json)> = match context.selected_trace().0 {
        Some(id) => seq![
            (TRACE_KEY@, Json::String(crate::event_formatter::trace_resource(project_id, id))),
        ],
        None => Seq::empty(),
    };
    let c: Seq<(Seq<char>, Json)> = if context.selected_trace().1 {
        seq![(TRACE_SAMPLED_KEY@, Json::Bool(true))]
    } else {
        Seq::empty()
    };
    assert(cloud_trace_members(project_id, context) == a + b + c);
    lemma_has_key_concat(a + b, c, k);
    lemma_has_key_concat(a, b, k);
    lemma_has_key_short(a, k);
    lemma_has_key_short(b, k);
    lemma_has_key_short(c, k);
}

/// The keys that the members for the spans can hold; there are none without a span.
pub proof fn lemma_span_part_keys(formatter: EventFormatter, spans: Seq<Span>, k: Seq<char>)
    requires
        span_part(formatter, spans) is Some,
    ensures
        has_key(span_part(formatter, spans)->0, k) ==> spans.len() > 0 && (k == "span"@ || k
            == "spans"@ || k == "traceId"@ || k == SPAN_ID_KEY@ || k == TRACE_KEY@ || k
            == TRACE_SAMPLED_KEY@),
{
    if spans.len() == 0 {
        lemma_has_key_short(span_part(formatter, spans)->0, k);
    } else {
        let members = span_members_of(spans);
        let a = seq![("span"@, Json::Object(members))];
        let b = span_list_members(formatter, spans)->0;
        let c = trace_id_members(spans);
        let d = cloud_members(formatter, spans.last());
        assert(span_part(formatter, spans)->0 == a + b + c + d);
        lemma_has_key_concat(a + b + c, d, k);
        lemma_has_key_concat(a + b, c, k);
        lemma_has_key_concat(a, b, k);
        lemma_has_key_short(a, k);
        lemma_has_key_short(b, k);
        lemma_has_key_short(c, k);
        match (formatter.project_id(), spans.last().trace_context) {
            (Some(project_id), Some(context)) => {
                lemma_cloud_trace_keys(project_id, context, k);
            },
            _ => {
                lemma_has_key_short(d, k);
            },
        }
    }
}

/// The members of the object that stands for the current span.
pub open spec fn span_members_of(spans: Seq<Span>) -> Seq<(Seq<char>, Json)> {
    crate::serializers::span_members(spans.last().name@, spans.last().fields@)->0
}

/// Whether the key is the camel case of the key of some recorded field.
pub open spec fn camel_of_recorded(values: Seq<(Seq<char>, Json)>, k: Seq<char>) -> bool {
    exists|raw: Seq<char>| #[trigger] has_key(values, raw) && camel_case_of(raw) == k
}

/// A top-level key of the sorted fields is the insert id key or the camel case of the
/// key of a recorded field.
pub proof fn lemma_classify_top_keys(values: Seq<(Seq<char>, Json)>, k: Seq<char>)
    ensures
        has_key(classify(values).top, k) ==> k == INSERT_ID_KEY@ || camel_of_recorded(values, k),
    decreases values.len(),
{
    if values.len() == 0 {
        lemma_has_key_short(classify(values).top, k);
    } else {
        let before = classify(values.drop_last());
        lemma_classify_top_keys(values.drop_last(), k);
        if camel_of_recorded(values.drop_last(), k) {
            let raw = choose|raw: Seq<char>|
                #[trigger] has_key(values.drop_last(), raw) && camel_case_of(raw) == k;
            lemma_has_key_last(values, raw);
            assert(has_key(values, raw));
        }
        let key = values.last().0;
        lemma_has_key_last(values, key);
        match route_of(key) {
            Route::InsertId => {
                lemma_insert_keys(
                    before.top,
                    INSERT_ID_KEY@,
                    Json::String(crate::visitor::display_text(values.last().1)),
                    k,
                );
            },
            Route::Field => {
                lemma_insert_keys(before.top, camel_case_of(key), values.last().1, k);
                if k == camel_case_of(key) {
                    assert(has_key(values, key));
                }
            },
            _ => {},
        }
    }
}

/// A key that the fields give is one of the four fixed keys or the camel case of the
/// key of a recorded field.
pub proof fn lemma_finish_keys(values: Seq<(Seq<char>, Json)>, fallback: LogSeverity, k: Seq<char>)
    ensures
        has_key(finish_members(values, fallback), k) ==> k == SEVERITY_KEY@ || k
            == HTTP_REQUEST_KEY@ || k == LABELS_KEY@ || k == INSERT_ID_KEY@ || camel_of_recorded(
            values,
            k,
        ),
{
    let rest = without_key(values, SEVERITY_KEY@);
    let placed = classify(rest);
    let a = seq![(SEVERITY_KEY@, Json::String(resolved_severity(values, fallback).name()))];
    let b = placed.top;
    let c = optional_object(HTTP_REQUEST_KEY@, placed.http_request);
    let d = optional_object(LABELS_KEY@, placed.labels);
    assert(finish_members(values, fallback) == a + b + c + d);
    lemma_has_key_concat(a + b + c, d, k);
    lemma_has_key_concat(a + b, c, k);
    lemma_has_key_concat(a, b, k);
    lemma_has_key_short(a, k);
    lemma_has_key_short(c, k);
    lemma_has_key_short(d, k);
    lemma_classify_top_keys(rest, k);
    if camel_of_recorded(rest, k) {
        let raw = choose|raw: Seq<char>| #[trigger] has_key(rest, raw) && camel_case_of(raw) == k;
        lemma_without_key_keys(values, SEVERITY_KEY@, raw);
        assert(has_key(values, raw));
    }
}

/// Where a key occurs in an entry: in the heading, among the members for the spans, or
/// among those that the fields give.
pub proof fn lemma_entry_keys(formatter: EventFormatter, event: Event, nanos: int, k: Seq<char>)
    requires
        entry_members(formatter, event, nanos) is Some,
        forall|i: int|
            heading_members(formatter, event, rfc3339_text(nanos)).len() + span_part(
                formatter,
                event.spans@,
            )->0.len() <= i < entry_members(formatter, event, nanos)->0.len() ==> field_key(
                #[trigger] entry_members(formatter, event, nanos)->0[i].0,
            ),
    ensures
        has_key(entry_members(formatter, event, nanos)->0, k) ==> {
            ||| k == "time"@
            ||| k == "target"@
            ||| k == SOURCE_LOCATION_KEY@ && formatter.source_location()
            ||| event.spans@.len() > 0 && (k == "span"@ || k == "spans"@ || k == "traceId"@ || k
                == SPAN_ID_KEY@ || k == TRACE_KEY@ || k == TRACE_SAMPLED_KEY@)
            ||| field_key(k) && (k == SEVERITY_KEY@ || k == HTTP_REQUEST_KEY@ || k == LABELS_KEY@
                || k == INSERT_ID_KEY@ || names_key(event.fields@, k))
        },
{
    let members = entry_members(formatter, event, nanos)->0;
    let heading = heading_members(formatter, event, rfc3339_text(nanos));
    let part = span_part(formatter, event.spans@)->0;
    let values = recorded(event.fields@);
    let given = finish_members(values, severity_of_level(event.level));
    assert(members == heading + part + given);
    lemma_has_key_concat(heading + part, given, k);
    lemma_has_key_concat(heading, part, k);
    lemma_heading_keys(formatter, event, rfc3339_text(nanos), k);
    lemma_span_part_keys(formatter, event.spans@, k);
    if has_key(given, k) {
        let j = choose|j: int| 0 <= j < given.len() && (#[trigger] given[j]).0 == k;
        assert(members[heading.len() + part.len() + j] == given[j]);
        assert(field_key(k));
        lemma_finish_keys(values, severity_of_level(event.level), k);
        if camel_of_recorded(values, k) {
            let raw = choose|raw: Seq<char>|
                #[trigger] has_key(values, raw) && camel_case_of(raw) == k;
            lemma_recorded(event.fields@, raw);
            let i = choose|i: int|
                0 <= i < event.fields@.len() && (#[trigger] event.fields@[i]).name@ == raw;
            assert(camel_case_of(event.fields@[i].name@) == k);
        }
    }
}

/// The reserved keys of an entry stay what they are, whatever the fields of the event
/// are called, given that every key that the fields give is plain or one of the two
/// reserved keys that fields are routed to.
pub proof fn lemma_reserved_keys_kept(formatter: EventFormatter, event: Event, nanos: int)
    requires
        entry_members(formatter, event, nanos) is Some,
        forall|i: int|
            heading_members(formatter, event, rfc3339_text(nanos)).len() + span_part(
                formatter,
                event.spans@,
            )->0.len() <= i < entry_members(formatter, event, nanos)->0.len() ==> field_key(
                #[trigger] entry_members(formatter, event, nanos)->0[i].0,
            ),
    ensures
        reserved_keys_kept(formatter, event, entry_members(formatter, event, nanos)->0),
{
    let members = entry_members(formatter, event, nanos)->0;
    reveal_strlit("time");
    reveal_strlit("target");
    reveal_strlit("span");
    reveal_strlit("spans");
    reveal_strlit("traceId");
    reveal_strlit("severity");
    reveal_strlit("httpRequest");
    reveal_strlit("http_request.");
    reveal_strlit("httpRequest.");
    reveal_strlit("logging.googleapis.com/sourceLocation");
    reveal_strlit("logging.googleapis.com/spanId");
    reveal_strlit("logging.googleapis.com/trace");
    reveal_strlit("logging.googleapis.com/trace_sampled");
    reveal_strlit("logging.googleapis.com/labels");
    reveal_strlit("logging.googleapis.com/insertId");
    assert forall|rest: Seq<char>| !has_key(members, #[trigger] ("http_request."@ + rest)) by {
        let first = "http_request."@ + rest;
        lemma_entry_keys(formatter, event, nanos, first);
        assert(first[0] == 'h' && first[12] == '.');
        assert(SOURCE_LOCATION_KEY@[0] == 'l');
        assert(SPAN_ID_KEY@[0] == 'l');
        assert(TRACE_KEY@[0] == 'l');
        assert(TRACE_SAMPLED_KEY@[0] == 'l');
        assert(LABELS_KEY@[0] == 'l');
        assert(INSERT_ID_KEY@[0] == 'l');
        assert("time"@[0] == 't' && "target"@[0] == 't' && "span"@[0] == 's' && "spans"@[0] == 's'
            && "traceId"@[0] == 't');
    }
    assert forall|rest: Seq<char>| !has_key(members, #[trigger] ("httpRequest."@ + rest)) by {
        let second = "httpRequest."@ + rest;
        lemma_entry_keys(formatter, event, nanos, second);
        assert(second[0] == 'h' && second[11] == '.');
        assert(SOURCE_LOCATION_KEY@[0] == 'l');
        assert(SPAN_ID_KEY@[0] == 'l');
        assert(TRACE_KEY@[0] == 'l');
        assert(TRACE_SAMPLED_KEY@[0] == 'l');
        assert(LABELS_KEY@[0] == 'l');
        assert(INSERT_ID_KEY@[0] == 'l');
        assert("time"@[0] == 't' && "target"@[0] == 't' && "span"@[0] == 's' && "spans"@[0] == 's'
            && "traceId"@[0] == 't');
    }
    lemma_entry_keys(formatter, event, nanos, SOURCE_LOCATION_KEY@);
    lemma_entry_keys(formatter, event, nanos, SPAN_ID_KEY@);
    lemma_entry_keys(formatter, event, nanos, TRACE_KEY@);
    lemma_entry_keys(formatter, event, nanos, TRACE_SAMPLED_KEY@);
    lemma_entry_keys(formatter, event, nanos, "span"@);
    lemma_entry_keys(formatter, event, nanos, "spans"@);
    lemma_entry_keys(formatter, event, nanos, "traceId"@);
    assert(SOURCE_LOCATION_KEY@[7] == '.');
    assert(SPAN_ID_KEY@[7] == '.');
    assert(TRACE_KEY@[7] == '.');
    assert(TRACE_SAMPLED_KEY@[7] == '.');
    assert(SOURCE_LOCATION_KEY@.len() == 37);
    assert(SPAN_ID_KEY@.len() == 29);
    assert(TRACE_KEY@.len() == 28);
    assert(TRACE_SAMPLED_KEY@.len() == 36);
    assert(LABELS_KEY@.len() == 29);
    assert(INSERT_ID_KEY@.len() == 31);
    assert(SPAN_ID_KEY@[23] == 's');
    assert(LABELS_KEY@[23] == 'l');
    assert("time"@.len() == 4 && "target"@.len() == 6 && "span"@.len() == 4 && "spans"@.len() == 5
        && "traceId"@.len() == 7 && SEVERITY_KEY@.len() == 8 && HTTP_REQUEST_KEY@.len() == 11);
    assert("time"@[1] == 'i' && "span"@[1] == 'p');
    assert(!formatter.source_location() ==> !has_key(members, SOURCE_LOCATION_KEY@));
    if event.spans@.len() == 0 {
        assert(!has_key(members, SPAN_ID_KEY@));
        assert(!has_key(members, TRACE_KEY@));
        assert(!has_key(members, TRACE_SAMPLED_KEY@));
        assert(!names_key(event.fields@, "span"@) ==> !has_key(members, "span"@));
        assert(!names_key(event.fields@, "spans"@) ==> !has_key(members, "spans"@));
        assert(!names_key(event.fields@, "traceId"@) ==> !has_key(members, "traceId"@));
    }
}

/// Whether the raw texts inside the values of the fields hold no line feed. Fields with
/// numbers, truth values and strings are always so.
pub open spec fn fields_line_safe(fields: Seq<Field>) -> bool {
    forall|i: int| 0 <= i < fields.len() ==> line_safe(field_json((#[trigger] fields[i]).value))
}

/// Members put together are free of raw line feeds exactly when both runs are.
pub proof fn lemma_all_line_safe_concat(a: Seq<(Seq<char>, Json)>, b: Seq<(Seq<char>, Json)>)
    ensures
        all_line_safe(a + b) <==> all_line_safe(a) && all_line_safe(b),
{
    let both = a + b;
    if all_line_safe(both) {
        assert forall|i: int| 0 <= i < a.len() implies line_safe((#[trigger] a[i]).1) by {
            assert(both[i] == a[i]);
        }
        assert forall|i: int| 0 <= i < b.len() implies line_safe((#[trigger] b[i]).1) by {
            assert(both[a.len() + i] == b[i]);
        }
    }
    if all_line_safe(a) && all_line_safe(b) {
        assert forall|i: int| 0 <= i < both.len() implies line_safe((#[trigger] both[i]).1) by {
            if i < a.len() {
                assert(both[i] == a[i]);
            } else {
                assert(both[i] == b[i - a.len()]);
            }
        }
    }
}

/// Inserting a member that is free of raw line feeds among such members leaves such
/// members.
pub proof fn lemma_insert_line_safe(m: Seq<(Seq<char>, Json)>, key: Seq<char>, value: Json)
    requires
        all_line_safe(m),
        line_safe(value),
    ensures
        all_line_safe(insert_member(m, key, value)),
    decreases m.len(),
{
    if m.len() == 0 {
    } else {
        assert(m =~= m.drop_last() + seq![m.last()]);
        lemma_all_line_safe_concat(m.drop_last(), seq![m.last()]);
        if m.last().0 == key {
            lemma_all_line_safe_concat(m.drop_last(), seq![(key, value)]);
            assert(m.drop_last().push((key, value)) =~= m.drop_last() + seq![(key, value)]);
        } else if crate::text::key_before(m.last().0, key) {
            lemma_all_line_safe_concat(m, seq![(key, value)]);
            assert(m.push((key, value)) =~= m + seq![(key, value)]);
        } else {
            lemma_insert_line_safe(m.drop_last(), key, value);
            let inner = insert_member(m.drop_last(), key, value);
            lemma_all_line_safe_concat(inner, seq![m.last()]);
            assert(inner.push(m.last()) =~= inner + seq![m.last()]);
        }
    }
}

/// Taking a key away from members that are free of raw line feeds leaves such members.
pub proof fn lemma_without_key_line_safe(m: Seq<(Seq<char>, Json)>, key: Seq<char>)
    requires
        all_line_safe(m),
    ensures
        all_line_safe(without_key(m, key)),
    decreases m.len(),
{
    if m.len() > 0 {
        assert(m =~= m.drop_last() + seq![m.last()]);
        lemma_all_line_safe_concat(m.drop_last(), seq![m.last()]);
        lemma_without_key_line_safe(m.drop_last(), key);
        if m.last().0 != key {
            let inner = without_key(m.drop_last(), key);
            lemma_all_line_safe_concat(inner, seq![m.last()]);
            assert(inner.push(m.last()) =~= inner + seq![m.last()]);
        }
    }
}

/// What is recorded of fields that are free of raw line feeds is free of them.
pub proof fn lemma_recorded_line_safe(fields: Seq<Field>)
    requires
        fields_line_safe(fields),
    ensures
        all_line_safe(recorded(fields)),
    decreases fields.len(),
{
    if fields.len() > 0 {
        assert forall|i: int| 0 <= i < fields.drop_last().len() implies line_safe(
            field_json((#[trigger] fields.drop_last()[i]).value),
        ) by {
            assert(fields.drop_last()[i] == fields[i]);
        }
        lemma_recorded_line_safe(fields.drop_last());
        assert(line_safe(field_json(fields[fields.len() - 1].value)));
        lemma_insert_line_safe(
            recorded(fields.drop_last()),
            fields.last().name@,
            field_json(fields.last().value),
        );
    }
}

/// Sorting fields that are free of raw line feeds into their places leaves all three
/// places free of them.
pub proof fn lemma_classify_line_safe(values: Seq<(Seq<char>, Json)>)
    requires
        all_line_safe(values),
    ensures
        all_line_safe(classify(values).top),
        all_line_safe(classify(values).http_request),
        all_line_safe(classify(values).labels),
    decreases values.len(),
{
    if values.len() > 0 {
        assert(values =~= values.drop_last() + seq![values.last()]);
        lemma_all_line_safe_concat(values.drop_last(), seq![values.last()]);
        assert(line_safe(seq![values.last()][0].1));
        lemma_classify_line_safe(values.drop_last());
        let before = classify(values.drop_last());
        let key = values.last().0;
        let value = values.last().1;
        match route_of(key) {
            Route::HttpRequest => {
                lemma_insert_line_safe(before.http_request, camel_case_of(remainder(key)), value);
            },
            Route::Label => {
                lemma_insert_line_safe(
                    before.labels,
                    camel_case_of(remainder(key)),
                    Json::String(crate::visitor::display_text(value)),
                );
            },
            Route::InsertId => {
                lemma_insert_line_safe(
                    before.top,
                    INSERT_ID_KEY@,
                    Json::String(crate::visitor::display_text(value)),
                );
            },
            Route::Field => {
                lemma_insert_line_safe(before.top, camel_case_of(key), value);
            },
        }
    }
}

/// The members that fields free of raw line feeds give are free of them.
pub proof fn lemma_finish_line_safe(values: Seq<(Seq<char>, Json)>, fallback: LogSeverity)
    requires
        all_line_safe(values),
    ensures
        all_line_safe(finish_members(values, fallback)),
{
    let rest = without_key(values, SEVERITY_KEY@);
    lemma_without_key_line_safe(values, SEVERITY_KEY@);
    lemma_classify_line_safe(rest);
    let placed = classify(rest);
    let a = seq![(SEVERITY_KEY@, Json::String(resolved_severity(values, fallback).name()))];
    let b = placed.top;
    let c = optional_object(HTTP_REQUEST_KEY@, placed.http_request);
    let d = optional_object(LABELS_KEY@, placed.labels);
    assert(finish_members(values, fallback) == a + b + c + d);
    lemma_all_line_safe_concat(a + b + c, d);
    lemma_all_line_safe_concat(a + b, c);
    lemma_all_line_safe_concat(a, b);
}

/// The members for the spans are free of raw line feeds, given that the objects of the
/// spans that are written are.
pub proof fn lemma_span_part_line_safe(formatter: EventFormatter, spans: Seq<Span>)
    requires
        span_part(formatter, spans) is Some,
        spans.len() > 0 ==> all_line_safe(span_members_of(spans)),
        spans.len() > 0 && formatter.span_list() ==> line_safe(
            Json::Array(crate::serializers::chain_items(spans)->0),
        ),
    ensures
        all_line_safe(span_part(formatter, spans)->0),
{
    if spans.len() > 0 {
        let a = seq![("span"@, Json::Object(span_members_of(spans)))];
        let b = span_list_members(formatter, spans)->0;
        let c = trace_id_members(spans);
        let d = cloud_members(formatter, spans.last());
        assert(span_part(formatter, spans)->0 == a + b + c + d);
        lemma_all_line_safe_concat(a + b + c, d);
        lemma_all_line_safe_concat(a + b, c);
        lemma_all_line_safe_concat(a, b);
        assert(line_safe(a[0].1));
        match (formatter.project_id(), spans.last().trace_context) {
            (Some(project_id), Some(context)) => {
                let members = cloud_trace_members(project_id, context);
                assert forall|i: int| 0 <= i < members.len() implies line_safe(
                    (#[trigger] members[i]).1,
                ) by {
                    assert(members[i].1 is String || members[i].1 is Bool);
                }
            },
            _ => {},
        }
    }
}

/// An entry is free of raw line feeds, given that the fields of the event and the
/// objects of the spans that are written are.
pub proof fn lemma_entry_line_safe(formatter: EventFormatter, event: Event, nanos: int)
    requires
        entry_members(formatter, event, nanos) is Some,
        fields_line_safe(event.fields@),
        all_line_safe(span_part(formatter, event.spans@)->0),
    ensures
        all_line_safe(entry_members(formatter, event, nanos)->0),
{
    let heading = heading_members(formatter, event, rfc3339_text(nanos));
    let part = span_part(formatter, event.spans@)->0;
    let values = recorded(event.fields@);
    let given = finish_members(values, severity_of_level(event.level));
    lemma_recorded_line_safe(event.fields@);
    lemma_finish_line_safe(values, severity_of_level(event.level));
    assert forall|i: int| 0 <= i < heading.len() implies line_safe((#[trigger] heading[i]).1) by {
        if i == 2 {
            let location = source_location_members(event.file->0@, event.line);
            assert forall|k: int| 0 <= k < location.len() implies line_safe(
                (#[trigger] location[k]).1,
            ) by {
                assert(location[k].1 is String);
            }
        }
    }
    lemma_all_line_safe_concat(heading + part, given);
    lemma_all_line_safe_concat(heading, part);
}

} // verus!
