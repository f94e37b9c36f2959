//! The parts of a log entry that describe where an event happened: its spans and its
//! place in the source.
use crate::event_formatter::Error;
use crate::google::TraceContext;
use crate::json::{
    lemma_view_of_collections, line_safe, members_view, object_members, object_members_of,
    raw_members, Json, JsonValue,
};
use crate::text::{decimal, decimal_string};
use vstd::prelude::*;
use vstd::string::*;

verus! {

/// What an entry reads of one span.
#[derive(Debug)]
pub struct Span {
    /// The name of the span
    pub name: String,
    /// The fields of the span, as the text of a JSON object that was written when the
    /// span was made
    pub fields: String,
    /// The names of the fields that the span declares
    pub field_names: Vec<String>,
    /// The distributed-trace data attached to the span, if any
    pub trace_context: Option<TraceContext>,
}

/// The members of the object that stands for a span: its fields as they were written,
/// then its name. Nothing where the fields are not the text of a JSON object.
pub open spec fn span_members(name: Seq<char>, fields: Seq<char>) -> Option<
    Seq<(Seq<char>, Json)>,
> {
    match object_members_of(fields) {
        Some(pairs) => Some(raw_members(pairs).push(("name"@, Json::String(name)))),
        None => None,
    }
}

/// The object that stands for a span.
pub open spec fn span_object(span: Span) -> Option<Json> {
    match span_members(span.name@, span.fields@) {
        Some(members) => Some(Json::Object(members)),
        None => None,
    }
}

/// The objects that stand for a chain of spans, in the order of the chain. Nothing where
/// some span of the chain has no object.
pub open spec fn chain_items(spans: Seq<Span>) -> Option<Seq<Json>>
    decreases spans.len(),
{
    if spans.len() == 0 {
        Some(Seq::empty())
    } else {
        match (chain_items(spans.drop_last()), span_object(spans.last())) {
            (Some(items), Some(object)) => Some(items.push(object)),
            _ => None,
        }
    }
}

/// The members of the object that tells a place in the source: the file, and the line
/// where it is known, as a string.
pub open spec fn source_location_members(file: Seq<char>, line: Option<u32>) -> Seq<
    (Seq<char>, Json),
> {
    match line {
        Some(number) => seq![
            ("file"@, Json::String(file)),
            ("line"@, Json::String(decimal(number as int))),
        ],
        None => seq![("file"@, Json::String(file))],
    }
}

/// A span as it is written into an entry.
pub struct SerializableSpan<'a>(&'a Span);

impl<'a> SerializableSpan<'a> {
    /// The span that is written.
    pub closed spec fn span(&self) -> Span {
        *self.0
    }

    pub fn new(span: &'a Span) -> (r: Self)
        ensures
            r.span() == *span,
    {
        SerializableSpan(span)
    }

    /// The object that stands for the span: the fields of the span as they were written
    /// when it was made, then `name` with the name of the span. A field called `name`
    /// stays, and the name of the span follows it as one more member. Fields that are
    /// not the text of a JSON object are an error.
    pub fn serialize(&self) -> (r: Result<JsonValue, Error>)
        ensures
            match r {
                Ok(object) => span_object(self.span()) == Some(object@) && line_safe(object@),
                Err(error) => error == Error::Serialization && span_object(self.span())
                    is None,
            },
    {
        match object_members(self.0.fields.as_str()) {
            Some(members) => {
                let mut members = members;
                let ghost fields = members_view(members@);
                members.push(("name".to_owned(), JsonValue::String(self.0.name.clone())));
                let object = JsonValue::Object(members);
                proof {
                    lemma_view_of_collections(object);
                    assert(members_view(members@) =~= fields.push(
                        ("name"@, Json::String(self.0.name@)),
                    ));
                    assert forall|i: int| 0 <= i < members@.len() implies line_safe(
                        (#[trigger] members_view(members@)[i]).1,
                    ) by {
                        if i < fields.len() {
                            assert(members_view(members@)[i] == fields[i]);
                        }
                    }
                }
                Ok(object)
            },
            None => Err(Error::Serialization),
        }
    }
}

/// The chain of spans around an event, from the root to the innermost, as it is written
/// into an entry.
pub struct SerializableContext<'a>(&'a Vec<Span>);

impl<'a> SerializableContext<'a> {
    /// The chain that is written.
    pub closed spec fn spans(&self) -> Seq<Span> {
        self.0@
    }

    pub fn new(context: &'a Vec<Span>) -> (r: Self)
        ensures
            r.spans() == context@,
    {
        SerializableContext(context)
    }

    /// The array of the objects that stand for the spans, in the order of the chain.
    pub fn serialize(&self) -> (r: Result<JsonValue, Error>)
        ensures
            match r {
                Ok(list) => chain_items(self.spans()) == Some(list@->Array_0) && list@ is Array
                    && line_safe(list@),
                Err(error) => error == Error::Serialization && chain_items(self.spans())
                    is None,
            },
    {
        let mut items: Vec<JsonValue> = Vec::new();
        let mut i: usize = 0;
        proof {
            assert(self.spans().take(0) =~= Seq::<Span>::empty());
        }
        while i < self.0.len()
            invariant
                i <= self.0.len(),
                self.spans() == self.0@,
                chain_items(self.spans().take(i as int)) == Some(crate::json::items_view(items@)),
                forall|k: int|
                    0 <= k < items@.len() ==> line_safe(
                        #[trigger] crate::json::items_view(items@)[k],
                    ),
            decreases self.0.len() - i,
        {
            proof {
                assert(self.spans().take(i + 1).drop_last() =~= self.spans().take(i as int));
                assert(self.spans().take(i + 1).last() == self.0@[i as int]);
            }
            match SerializableSpan::new(&self.0[i]).serialize() {
                Ok(object) => {
                    let ghost before = crate::json::items_view(items@);
                    items.push(object);
                    assert(crate::json::items_view(items@) =~= before.push(object@));
                    assert forall|k: int| 0 <= k < items@.len() implies line_safe(
                        #[trigger] crate::json::items_view(items@)[k],
                    ) by {
                        if k < before.len() {
                            assert(crate::json::items_view(items@)[k] == before[k]);
                        }
                    }
                },
                Err(error) => {
                    proof {
                        lemma_chain_fails(self.spans(), i as int);
                    }
                    return Err(error);
                },
            }
            i += 1;
        }
        let list = JsonValue::Array(items);
        proof {
            assert(self.spans().take(self.0.len() as int) =~= self.spans());
            lemma_view_of_collections(list);
        }
        Ok(list)
    }
}

/// A chain with a span that has no object has no list of objects.
pub proof fn lemma_chain_fails(spans: Seq<Span>, i: int)
    requires
        0 <= i < spans.len(),
        span_object(spans[i]) is None,
    ensures
        chain_items(spans) is None,
    decreases spans.len(),
{
    if i < spans.len() - 1 {
        assert(spans.drop_last()[i] == spans[i]);
        lemma_chain_fails(spans.drop_last(), i);
    }
}

/// A place in the source as it is written into an entry.
pub struct SourceLocation<'a> {
    pub file: &'a str,
    pub line: Option<u32>,
}

impl<'a> SourceLocation<'a> {
    /// The object that tells the place: the file, and the line where it is known. The
    /// line is written as a string, as Cloud Logging wants it.
    pub fn serialize(&self) -> (r: JsonValue)
        ensures
            r@ == Json::Object(source_location_members(self.file@, self.line)),
    {
        let mut members: Vec<(String, JsonValue)> = Vec::new();
        members.push(("file".to_owned(), JsonValue::String(self.file.to_owned())));
        match self.line {
            Some(line) => {
                members.push(("line".to_owned(), JsonValue::String(decimal_string(line as u64))));
            },
            None => {},
        }
        let object = JsonValue::Object(members);
        proof {
            lemma_view_of_collections(object);
            assert(members_view(members@) =~= source_location_members(self.file@, self.line));
        }
        object
    }
}

} // verus!
