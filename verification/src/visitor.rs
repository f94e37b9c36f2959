//! Collects the fields of one event and sorts them into the members of its log entry.
use crate::fields::{
    insert_member, lemma_insert_keys, lookup, sorted, without_key, FieldMap,
};
use crate::google::{severity_of_json, LogSeverity};
use crate::json::{has_key, members_view, render, Json, JsonValue};
use crate::text::{find_char, position_of, str_eq};
use vstd::prelude::*;
use vstd::string::*;

verus! {

/// The key under which a log entry holds its labels.
pub const LABELS_KEY: &'static str = "logging.googleapis.com/labels";

/// The key under which a log entry holds its insert id.
pub const INSERT_ID_KEY: &'static str = "logging.googleapis.com/insertId";

/// The key under which a log entry holds the nested HTTP request.
pub const HTTP_REQUEST_KEY: &'static str = "httpRequest";

/// The key under which a log entry holds its severity, and the name of the field that
/// overrides it.
pub const SEVERITY_KEY: &'static str = "severity";

/// What `inflector`'s `to_camel_case` makes of a string.
pub uninterp spec fn camel_case_of(s: Seq<char>) -> Seq<char>;

/// Whether a key holds neither a dot nor a slash.
pub open spec fn plain_key(key: Seq<char>) -> bool {
    forall|i: int| 0 <= i < key.len() ==> key[i] != '.' && key[i] != '/'
}

/// Calls `inflector::cases::camelcase::to_camel_case`. The result is named by
/// `camel_case_of`. The function copies only alphanumeric characters to its result, some
/// of them in the other case, so the result holds neither a dot nor a slash.
#[verifier::external_body]
fn to_camel_case(s: &str) -> (r: String)
    ensures
        r@ == camel_case_of(s@),
        plain_key(r@),
{
    inflector::cases::camelcase::to_camel_case(s)
}

/// Whether a key has a dot in it, and so a first segment and a remainder.
pub open spec fn is_dotted(key: Seq<char>) -> bool {
    position_of(key, '.') < key.len()
}

/// The part of a key before its first dot.
pub open spec fn first_segment(key: Seq<char>) -> Seq<char> {
    key.take(position_of(key, '.'))
}

/// The part of a key after its first dot.
pub open spec fn remainder(key: Seq<char>) -> Seq<char> {
    key.skip(position_of(key, '.') + 1)
}

/// Where the field with a given key goes.
#[derive(Clone, Copy, Debug, PartialEq, Eq, Structural)]
pub enum Route {
    /// Into the nested HTTP request, under the remainder of its key.
    HttpRequest,
    /// Into the labels, under the remainder of its key, as a string.
    Label,
    /// To the top level under the insert id key, as a string.
    InsertId,
    /// To the top level under its own key.
    Field,
}

/// Where the field with the given raw key goes.
pub open spec fn route_of(key: Seq<char>) -> Route {
    if is_dotted(key) && first_segment(key) == "http_request"@ {
        Route::HttpRequest
    } else if is_dotted(key) && first_segment(key) == "labels"@ {
        Route::Label
    } else if key == "insert_id"@ {
        Route::InsertId
    } else {
        Route::Field
    }
}

/// The text that stands for a value where only a string may stand: a string by its own
/// characters, any other value by its JSON text.
pub open spec fn display_text(value: Json) -> Seq<char> {
    match value {
        Json::String(text) => text,
        _ => render(value),
    }
}

/// The fields of an event, sorted into the three places where an entry holds them.
pub struct Classified {
    pub top: Seq<(Seq<char>, Json)>,
    pub http_request: Seq<(Seq<char>, Json)>,
    pub labels: Seq<(Seq<char>, Json)>,
}

/// Sorts one more field into its place.
pub open spec fn classify_one(
    sorted_so_far: Classified,
    key: Seq<char>,
    value: Json,
) -> Classified {
    match route_of(key) {
        Route::HttpRequest => Classified {
            http_request: insert_member(
                sorted_so_far.http_request,
                camel_case_of(remainder(key)),
                value,
            ),
            ..sorted_so_far
        },
        Route::Label => Classified {
            labels: insert_member(
                sorted_so_far.labels,
                camel_case_of(remainder(key)),
                Json::String(display_text(value)),
            ),
            ..sorted_so_far
        },
        Route::InsertId => Classified {
            top: insert_member(
                sorted_so_far.top,
                INSERT_ID_KEY@,
                Json::String(display_text(value)),
            ),
            ..sorted_so_far
        },
        Route::Field => Classified {
            top: insert_member(sorted_so_far.top, camel_case_of(key), value),
            ..sorted_so_far
        },
    }
}

/// Sorts the fields into their places, one after the other. Where two fields come to
/// stand under one key, the later one stays.
pub open spec fn classify(values: Seq<(Seq<char>, Json)>) -> Classified
    decreases values.len(),
{
    if values.len() == 0 {
        Classified { top: Seq::empty(), http_request: Seq::empty(), labels: Seq::empty() }
    } else {
        classify_one(classify(values.drop_last()), values.last().0, values.last().1)
    }
}

/// The severity of an entry: what the `severity` field stands for where the event has
/// one, and else the severity that its level gave.
pub open spec fn resolved_severity(
    values: Seq<(Seq<char>, Json)>,
    fallback: LogSeverity,
) -> LogSeverity {
    match lookup(values, SEVERITY_KEY@) {
        Some(value) => severity_of_json(value),
        None => fallback,
    }
}

/// A member that holds an object, left out where the object has no member.
pub open spec fn optional_object(key: Seq<char>, members: Seq<(Seq<char>, Json)>) -> Seq<
    (Seq<char>, Json),
> {
    if members.len() > 0 {
        seq![(key, Json::Object(members))]
    } else {
        Seq::empty()
    }
}

/// The members that the fields of an event give: the severity first, then the top-level
/// fields, then the HTTP request and the labels where there are any.
pub open spec fn finish_members(values: Seq<(Seq<char>, Json)>, fallback: LogSeverity) -> Seq<
    (Seq<char>, Json),
> {
    let placed = classify(without_key(values, SEVERITY_KEY@));
    seq![(SEVERITY_KEY@, Json::String(resolved_severity(values, fallback).name()))] + placed.top
        + optional_object(HTTP_REQUEST_KEY@, placed.http_request) + optional_object(
        LABELS_KEY@,
        placed.labels,
    )
}

/// Whether a key can come from the fields of an event: it is plain, or one of the two
/// reserved keys that fields are routed to.
pub open spec fn field_key(key: Seq<char>) -> bool {
    plain_key(key) || key == INSERT_ID_KEY@ || key == LABELS_KEY@
}

/// Splits a key at its first dot into the segment before it and the remainder after it.
pub fn split_key(key: &str) -> (r: Option<(&str, &str)>)
    ensures
        match r {
            Some((segment, rest)) => is_dotted(key@) && segment@ == first_segment(key@) && rest@
                == remainder(key@),
            None => !is_dotted(key@),
        },
{
    let dot = find_char(key, '.');
    let length = key.unicode_len();
    if dot < length {
        let segment = key.substring_char(0, dot);
        let rest = key.substring_char(dot + 1, length);
        proof {
            assert(key@.subrange(0, dot as int) =~= key@.take(dot as int));
            assert(key@.subrange(dot + 1, length as int) =~= key@.skip(dot + 1));
        }
        Some((segment, rest))
    } else {
        None
    }
}

/// Where the field with the given raw key goes.
pub fn route(key: &str) -> (r: Route)
    ensures
        r == route_of(key@),
{
    match split_key(key) {
        Some((segment, _)) => {
            if str_eq(segment, "http_request") {
                Route::HttpRequest
            } else if str_eq(segment, "labels") {
                Route::Label
            } else if str_eq(key, "insert_id") {
                Route::InsertId
            } else {
                Route::Field
            }
        },
        None => {
            if str_eq(key, "insert_id") {
                Route::InsertId
            } else {
                Route::Field
            }
        },
    }
}

/// The text that stands for a value where only a string may stand.
pub fn display_string(value: JsonValue) -> (r: String)
    ensures
        r@ == display_text(value@),
{
    match value {
        JsonValue::String(text) => text,
        other => other.render(),
    }
}

/// Collects the fields of one event as they are recorded, and at the end sorts them into
/// the members of the entry.
#[derive(Debug)]
pub struct Visitor {
    values: FieldMap,
    severity: LogSeverity,
    members: Vec<(String, JsonValue)>,
}

impl Visitor {
    /// The fields recorded so far, in the order of their names.
    pub closed spec fn values(&self) -> Seq<(Seq<char>, Json)> {
        self.values@
    }

    /// The severity that holds unless a field overrides it.
    pub closed spec fn severity(&self) -> LogSeverity {
        self.severity
    }

    /// The members that the entry held before the fields.
    pub closed spec fn members(&self) -> Seq<(Seq<char>, Json)> {
        members_view(self.members@)
    }

    /// The recorded fields stand in the order of their names, each name once.
    pub open spec fn wf(&self) -> bool {
        sorted(self.values())
    }

    /// A visitor without fields, for an entry that already holds `members`.
    pub fn new(severity: LogSeverity, members: Vec<(String, JsonValue)>) -> (r: Visitor)
        ensures
            r.wf(),
            r.values().len() == 0,
            r.severity() == severity,
            r.members() == members_view(members@),
    {
        Visitor { values: FieldMap::new(), severity, members }
    }

    /// Records a field whose value is a JSON value as it stands.
    pub fn record_value(&mut self, field: &str, value: JsonValue)
        requires
            old(self).wf(),
        ensures
            final(self).wf(),
            final(self).values() == insert_member(old(self).values(), field@, value@),
            final(self).severity() == old(self).severity(),
            final(self).members() == old(self).members(),
    {
        self.values.insert(field.to_owned(), value);
    }

    /// Records a field with a signed number.
    pub fn record_i64(&mut self, field: &str, value: i64)
        requires
            old(self).wf(),
        ensures
            final(self).wf(),
            final(self).values() == insert_member(
                old(self).values(),
                field@,
                Json::Number(value as int),
            ),
            final(self).severity() == old(self).severity(),
            final(self).members() == old(self).members(),
    {
        self.record_value(field, JsonValue::Int(value));
    }

    /// Records a field with an unsigned number.
    pub fn record_u64(&mut self, field: &str, value: u64)
        requires
            old(self).wf(),
        ensures
            final(self).wf(),
            final(self).values() == insert_member(
                old(self).values(),
                field@,
                Json::Number(value as int),
            ),
            final(self).severity() == old(self).severity(),
            final(self).members() == old(self).members(),
    {
        self.record_value(field, JsonValue::UInt(value));
    }

    /// Records a field with a truth value.
    pub fn record_bool(&mut self, field: &str, value: bool)
        requires
            old(self).wf(),
        ensures
            final(self).wf(),
            final(self).values() == insert_member(old(self).values(), field@, Json::Bool(value)),
            final(self).severity() == old(self).severity(),
            final(self).members() == old(self).members(),
    {
        self.record_value(field, JsonValue::Bool(value));
    }

    /// Records a field with a string.
    pub fn record_str(&mut self, field: &str, value: &str)
        requires
            old(self).wf(),
        ensures
            final(self).wf(),
            final(self).values() == insert_member(
                old(self).values(),
                field@,
                Json::String(value@),
            ),
            final(self).severity() == old(self).severity(),
            final(self).members() == old(self).members(),
    {
        self.record_value(field, JsonValue::String(value.to_owned()));
    }

    /// Records a field of any other kind, by the text of its debug representation.
    pub fn record_debug(&mut self, field: &str, value: &str)
        requires
            old(self).wf(),
        ensures
            final(self).wf(),
            final(self).values() == insert_member(
                old(self).values(),
                field@,
                Json::String(value@),
            ),
            final(self).severity() == old(self).severity(),
            final(self).members() == old(self).members(),
    {
        self.record_value(field, JsonValue::String(value.to_owned()));
    }

    /// Ends the visit: hands back the members of the entry, those it held before followed
    /// by those that the recorded fields give.
    pub fn finish(self) -> (r: Vec<(String, JsonValue)>)
        requires
            self.wf(),
        ensures
            members_view(r@) == self.members() + finish_members(self.values(), self.severity()),
            forall|i: int| self.members().len() <= i < r@.len() ==> field_key(#[trigger] r@[i].0@),
    {
        let Visitor { values, severity, members } = self;
        let mut values = values;
        let mut members = members;
        let ghost before = members_view(members@);
        let ghost recorded = values@;
        let severity = match values.remove(SEVERITY_KEY) {
            Some(value) => LogSeverity::from(value),
            None => severity,
        };
        assert(severity == resolved_severity(recorded, self.severity()));
        members.push((SEVERITY_KEY.to_owned(), JsonValue::String(severity.to_string())));

        let mut top = FieldMap::new();
        let mut http_request = FieldMap::new();
        let mut labels = FieldMap::new();
        let rest = values.into_members();
        let ghost all = members_view(rest@);
        let ghost raw = rest@;
        proof {
            assert(top@ =~= Seq::empty());
            assert(http_request@ =~= Seq::empty());
            assert(labels@ =~= Seq::empty());
            assert(all.take(0).len() == 0);
        }
        for member in it: rest.into_iter()
            invariant
                it.seq() == raw,
                all == members_view(raw),
                top.wf(),
                http_request.wf(),
                labels.wf(),
                classify(all.take(it.index() as int)) == (Classified {
                    top: top@,
                    http_request: http_request@,
                    labels: labels@,
                }),
                forall|k: Seq<char>| has_key(top@, k) ==> plain_key(k) || k == INSERT_ID_KEY@,
        {
            let ghost done = it.index() as int;
            let ghost top_before = top@;
            let (key, value) = member;
            proof {
                assert(all.take(done + 1).drop_last() =~= all.take(done));
                assert(all.take(done + 1).last() == (key@, value@));
            }
            match route(key.as_str()) {
                Route::HttpRequest => {
                    match split_key(key.as_str()) {
                        Some((_, rest_of_key)) => {
                            http_request.insert(to_camel_case(rest_of_key), value);
                        },
                        None => {},
                    }
                },
                Route::Label => {
                    match split_key(key.as_str()) {
                        Some((_, rest_of_key)) => {
                            let text = display_string(value);
                            labels.insert(to_camel_case(rest_of_key), JsonValue::String(text));
                        },
                        None => {},
                    }
                },
                Route::InsertId => {
                    let text = display_string(value);
                    top.insert(INSERT_ID_KEY.to_owned(), JsonValue::String(text));
                    proof {
                        assert forall|k: Seq<char>| has_key(top@, k) implies plain_key(k) || k
                            == INSERT_ID_KEY@ by {
                            lemma_insert_keys(
                                top_before,
                                INSERT_ID_KEY@,
                                Json::String(display_text(value@)),
                                k,
                            );
                        }
                    }
                },
                Route::Field => {
                    let name = to_camel_case(key.as_str());
                    let ghost name_view = name@;
                    top.insert(name, value);
                    proof {
                        assert forall|k: Seq<char>| has_key(top@, k) implies plain_key(k) || k
                            == INSERT_ID_KEY@ by {
                            lemma_insert_keys(top_before, name_view, value@, k);
                        }
                    }
                },
            }
        }
        proof {
            assert(all.take(all.len() as int) =~= all);
        }
        let ghost placed = classify(all);
        let ghost start = members@.len();
        let mut top_members = top.into_members();
        assert(members_view(top_members@) == placed.top);
        proof {
            assert forall|i: int| 0 <= i < top_members@.len() implies field_key(
                #[trigger] top_members@[i].0@,
            ) by {
                assert(members_view(top_members@)[i].0 == top_members@[i].0@);
                assert(has_key(placed.top, top_members@[i].0@));
            }
        }
        let ghost with_severity = members@;
        members.append(&mut top_members);
        if !http_request.is_empty() {
            members.push(
                (HTTP_REQUEST_KEY.to_owned(), JsonValue::Object(http_request.into_members())),
            );
        }
        if !labels.is_empty() {
            members.push((LABELS_KEY.to_owned(), JsonValue::Object(labels.into_members())));
        }
        proof {
            reveal_strlit("severity");
            reveal_strlit("httpRequest");
            let wanted = before + finish_members(recorded, self.severity());
            assert(members_view(members@).len() == wanted.len());
            assert forall|i: int| 0 <= i < wanted.len() implies members_view(members@)[i]
                == wanted[i] by {
                if i < before.len() {
                    assert(members@[i] == self.members@[i]);
                } else if i == before.len() {
                } else if i < before.len() + 1 + placed.top.len() {
                    assert(members_view(members@)[i] == placed.top[i - before.len() - 1]);
                } else {
                    let object = members@[i].1;
                    crate::json::lemma_view_of_collections(object);
                }
            }
            assert(members_view(members@) =~= wanted);
            assert forall|i: int| before.len() <= i < members@.len() implies field_key(
                #[trigger] members@[i].0@,
            ) by {
                if i == before.len() {
                } else if i < before.len() + 1 + placed.top.len() {
                } else {
                }
            }
        }
        members
    }
}

} // verus!
