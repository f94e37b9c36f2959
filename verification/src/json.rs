//! JSON values as this library builds them, and their compact one-line rendering.
use crate::text::{decimal, decimal_nat, digit_char, push_decimal_i64, push_decimal_u64};
use vstd::prelude::*;
use vstd::string::*;

verus! {

/// Mathematical model of a JSON value. An object is the sequence of its members in the
/// order in which they are written, so a key may occur more than once.
pub enum Json {
    Null,
    Bool(bool),
    Number(int),
    String(Seq<char>),
    /// JSON text that is written out as it stands.
    Raw(Seq<char>),
    Array(Seq<Json>),
    Object(Seq<(Seq<char>, Json)>),
}

/// A JSON value.
#[derive(Debug)]
pub enum JsonValue {
    Null,
    Bool(bool),
    Int(i64),
    UInt(u64),
    String(String),
    /// The text of a JSON value that was rendered elsewhere, such as a number with a
    /// fraction. It is written out as it stands and never looked into.
    Raw(String),
    Array(Vec<JsonValue>),
    Object(Vec<(String, JsonValue)>),
}

/// The models of a sequence of values.
pub open spec fn items_view(items: Seq<JsonValue>) -> Seq<Json> {
    Seq::new(items.len(), |i: int| items[i]@)
}

/// The models of a sequence of members.
pub open spec fn members_view(members: Seq<(String, JsonValue)>) -> Seq<(Seq<char>, Json)> {
    Seq::new(members.len(), |i: int| (members[i].0@, members[i].1@))
}

impl View for JsonValue {
    type V = Json;

    open spec fn view(&self) -> Json
        decreases self,
    {
        match self {
            JsonValue::Null => Json::Null,
            JsonValue::Bool(b) => Json::Bool(*b),
            JsonValue::Int(n) => Json::Number(*n as int),
            JsonValue::UInt(n) => Json::Number(*n as int),
            JsonValue::String(s) => Json::String(s@),
            JsonValue::Raw(s) => Json::Raw(s@),
            JsonValue::Array(items) => Json::Array(
                Seq::new(
                    items@.len(),
                    |i: int|
                        if 0 <= i < items@.len() {
                            items@[i].view()
                        } else {
                            Json::Null
                        },
                ),
            ),
            JsonValue::Object(members) => Json::Object(
                Seq::new(
                    members@.len(),
                    |i: int|
                        if 0 <= i < members@.len() {
                            member_view(members@[i])
                        } else {
                            (Seq::empty(), Json::Null)
                        },
                ),
            ),
        }
    }
}

/// The model of one member of an object.
pub open spec fn member_view(member: (String, JsonValue)) -> (Seq<char>, Json)
    decreases member,
{
    (member.0@, member.1.view())
}

/// The view of an array is the sequence of the views of its items, and likewise for the
/// members of an object.
pub proof fn lemma_view_of_collections(value: JsonValue)
    ensures
        value matches JsonValue::Array(items) ==> value@ == Json::Array(items_view(items@)),
        value matches JsonValue::Object(members) ==> value@ == Json::Object(
            members_view(members@),
        ),
{
    match value {
        JsonValue::Array(items) => {
            assert(value@->Array_0 =~= items_view(items@));
        },
        JsonValue::Object(members) => {
            assert forall|i: int| 0 <= i < members@.len() implies value@->Object_0[i]
                == members_view(members@)[i] by {
                assert(member_view(members@[i]) == (members@[i].0@, members@[i].1@));
            }
            assert(value@->Object_0 =~= members_view(members@));
        },
        _ => {},
    }
}

/// The character of a hexadecimal digit, in lower case.
pub open spec fn hex_digit(d: int) -> char {
    if d < 10 {
        digit_char(d)
    } else if d == 10 {
        'a'
    } else if d == 11 {
        'b'
    } else if d == 12 {
        'c'
    } else if d == 13 {
        'd'
    } else if d == 14 {
        'e'
    } else {
        'f'
    }
}

/// How one character stands inside a JSON string: the quotation mark, the backslash and
/// the control characters are escaped, every other character stands for itself.
pub open spec fn escape_char(c: char) -> Seq<char> {
    if c == '"' {
        seq!['\\', '"']
    } else if c == '\\' {
        seq!['\\', '\\']
    } else if c == '\u{08}' {
        seq!['\\', 'b']
    } else if c == '\u{0c}' {
        seq!['\\', 'f']
    } else if c == '\n' {
        seq!['\\', 'n']
    } else if c == '\r' {
        seq!['\\', 'r']
    } else if c == '\t' {
        seq!['\\', 't']
    } else if (c as u32) < 0x20 {
        seq![
            '\\',
            'u',
            '0',
            '0',
            hex_digit((c as u32) as int / 16),
            hex_digit((c as u32) as int % 16),
        ]
    } else {
        seq![c]
    }
}

/// The characters of a string, each as it stands inside a JSON string.
pub open spec fn escape(s: Seq<char>) -> Seq<char>
    decreases s.len(),
{
    if s.len() == 0 {
        Seq::empty()
    } else {
        escape(s.drop_last()) + escape_char(s.last())
    }
}

/// A string as a JSON string: escaped, between quotation marks.
pub open spec fn quoted(s: Seq<char>) -> Seq<char> {
    seq!['"'] + escape(s) + seq!['"']
}

/// The compact text of a JSON value: no space between tokens, the members of an object
/// and the items of an array in their order.
pub open spec fn render(value: Json) -> Seq<char>
    decreases value, 1int,
{
    match value {
        Json::Null => "null"@,
        Json::Bool(b) => if b {
            "true"@
        } else {
            "false"@
        },
        Json::Number(n) => decimal(n),
        Json::String(s) => quoted(s),
        Json::Raw(text) => text,
        Json::Array(items) => seq!['['] + render_items(items) + seq![']'],
        Json::Object(members) => seq!['{'] + render_members(members) + seq!['}'],
    }
}

/// The texts of the items of an array, separated by commas.
pub open spec fn render_items(items: Seq<Json>) -> Seq<char>
    decreases items, 0int,
{
    if items.len() == 0 {
        Seq::empty()
    } else if items.len() == 1 {
        render(items[0])
    } else {
        render_items(items.drop_last()) + seq![','] + render(items.last())
    }
}

/// The text of one member of an object: the key as a JSON string, a colon, the value.
pub open spec fn render_member(key: Seq<char>, value: Json) -> Seq<char>
    decreases value, 2int,
{
    quoted(key) + seq![':'] + render(value)
}

/// The texts of the members of an object, separated by commas.
pub open spec fn render_members(members: Seq<(Seq<char>, Json)>) -> Seq<char>
    decreases members, 0int,
{
    if members.len() == 0 {
        Seq::empty()
    } else if members.len() == 1 {
        render_member(members[0].0, members[0].1)
    } else {
        render_members(members.drop_last()) + seq![','] + render_member(
            members.last().0,
            members.last().1,
        )
    }
}

/// The text of an object with the given members.
pub open spec fn render_object(members: Seq<(Seq<char>, Json)>) -> Seq<char> {
    render(Json::Object(members))
}

/// Rendering one more item: after the first, a comma comes before it.
pub proof fn lemma_render_items_push(items: Seq<Json>, next: Json)
    ensures
        render_items(items.push(next)) == if items.len() == 0 {
            render(next)
        } else {
            render_items(items) + seq![','] + render(next)
        },
{
    assert(items.push(next).drop_last() =~= items);
}

/// Rendering one more member: after the first, a comma comes before it.
pub proof fn lemma_render_members_push(members: Seq<(Seq<char>, Json)>, key: Seq<char>, value: Json)
    ensures
        render_members(members.push((key, value))) == if members.len() == 0 {
            render_member(key, value)
        } else {
            render_members(members) + seq![','] + render_member(key, value)
        },
{
    assert(members.push((key, value)).drop_last() =~= members);
}

/// Whether a text holds no line feed.
pub open spec fn one_line(text: Seq<char>) -> bool {
    forall|i: int| 0 <= i < text.len() ==> text[i] != '\n'
}

/// Whether the raw texts inside a value hold no line feed.
pub open spec fn line_safe(value: Json) -> bool
    decreases value,
{
    match value {
        Json::Raw(text) => one_line(text),
        Json::Array(items) => forall|i: int|
            0 <= i < items.len() ==> line_safe(#[trigger] items[i]),
        Json::Object(members) => forall|i: int|
            0 <= i < members.len() ==> line_safe((#[trigger] members[i]).1),
        _ => true,
    }
}

/// Whether the raw texts inside the values of the members hold no line feed.
pub open spec fn all_line_safe(members: Seq<(Seq<char>, Json)>) -> bool {
    forall|i: int| 0 <= i < members.len() ==> line_safe((#[trigger] members[i]).1)
}

/// An object is free of raw line feeds exactly when the values of its members are.
pub proof fn lemma_line_safe_object(members: Seq<(Seq<char>, Json)>)
    ensures
        line_safe(Json::Object(members)) <==> all_line_safe(members),
{
    let object = Json::Object(members);
    assert(object->Object_0 == members);
}

/// Two texts put together hold no line feed exactly when neither of them holds one.
pub proof fn lemma_one_line_concat(a: Seq<char>, b: Seq<char>)
    ensures
        one_line(a + b) <==> one_line(a) && one_line(b),
{
    let both = a + b;
    if one_line(both) {
        assert forall|i: int| 0 <= i < a.len() implies a[i] != '\n' by {
            assert(both[i] == a[i]);
        }
        assert forall|i: int| 0 <= i < b.len() implies b[i] != '\n' by {
            assert(both[a.len() + i] == b[i]);
        }
    }
}

/// An escaped string holds no line feed: a line feed is written as `\n`.
pub proof fn lemma_escape_one_line(s: Seq<char>)
    ensures
        one_line(escape(s)),
        one_line(quoted(s)),
    decreases s.len(),
{
    if s.len() > 0 {
        lemma_escape_one_line(s.drop_last());
        lemma_one_line_concat(escape(s.drop_last()), escape_char(s.last()));
    }
    lemma_one_line_concat(seq!['"'], escape(s));
    lemma_one_line_concat(seq!['"'] + escape(s), seq!['"']);
}

/// A number in decimal holds no line feed.
pub proof fn lemma_decimal_one_line(n: int)
    ensures
        one_line(decimal(n)),
{
    if n < 0 {
        lemma_decimal_nat_one_line((-n) as nat);
        lemma_one_line_concat(seq!['-'], decimal_nat((-n) as nat));
    } else {
        lemma_decimal_nat_one_line(n as nat);
    }
}

/// A natural number in decimal holds no line feed.
pub proof fn lemma_decimal_nat_one_line(n: nat)
    ensures
        one_line(decimal_nat(n)),
    decreases n,
{
    if n >= 10 {
        lemma_decimal_nat_one_line(n / 10);
    }
}

/// The text of a value holds no line feed unless a raw text inside the value does.
pub proof fn lemma_render_one_line(value: Json)
    requires
        line_safe(value),
    ensures
        one_line(render(value)),
    decreases value, 1int,
{
    reveal_strlit("null");
    reveal_strlit("true");
    reveal_strlit("false");
    match value {
        Json::Number(n) => {
            lemma_decimal_one_line(n);
        },
        Json::String(s) => {
            lemma_escape_one_line(s);
        },
        Json::Array(items) => {
            lemma_render_items_one_line(items);
            lemma_one_line_concat(seq!['['], render_items(items));
            lemma_one_line_concat(seq!['['] + render_items(items), seq![']']);
        },
        Json::Object(members) => {
            lemma_render_members_one_line(members);
            lemma_one_line_concat(seq!['{'], render_members(members));
            lemma_one_line_concat(seq!['{'] + render_members(members), seq!['}']);
        },
        _ => {},
    }
}

/// The texts of the items of an array hold no line feed unless a raw text inside does.
pub proof fn lemma_render_items_one_line(items: Seq<Json>)
    requires
        forall|i: int| 0 <= i < items.len() ==> line_safe(#[trigger] items[i]),
    ensures
        one_line(render_items(items)),
    decreases items, 0int,
{
    if items.len() == 1 {
        lemma_render_one_line(items[0]);
    } else if items.len() > 1 {
        assert forall|i: int| 0 <= i < items.drop_last().len() implies line_safe(
            #[trigger] items.drop_last()[i],
        ) by {
            assert(items.drop_last()[i] == items[i]);
        }
        lemma_render_items_one_line(items.drop_last());
        lemma_render_one_line(items.last());
        lemma_one_line_concat(render_items(items.drop_last()), seq![',']);
        lemma_one_line_concat(render_items(items.drop_last()) + seq![','], render(items.last()));
    }
}

/// The texts of the members of an object hold no line feed unless a raw text inside
/// does.
pub proof fn lemma_render_members_one_line(members: Seq<(Seq<char>, Json)>)
    requires
        all_line_safe(members),
    ensures
        one_line(render_members(members)),
    decreases members, 0int,
{
    if members.len() == 1 {
        lemma_render_member_one_line(members[0].0, members[0].1);
    } else if members.len() > 1 {
        assert forall|i: int| 0 <= i < members.drop_last().len() implies line_safe(
            (#[trigger] members.drop_last()[i]).1,
        ) by {
            assert(members.drop_last()[i] == members[i]);
        }
        lemma_render_members_one_line(members.drop_last());
        lemma_render_member_one_line(members.last().0, members.last().1);
        lemma_one_line_concat(render_members(members.drop_last()), seq![',']);
        lemma_one_line_concat(
            render_members(members.drop_last()) + seq![','],
            render_member(members.last().0, members.last().1),
        );
    }
}

/// The text of one member holds no line feed unless a raw text inside its value does.
pub proof fn lemma_render_member_one_line(key: Seq<char>, value: Json)
    requires
        line_safe(value),
    ensures
        one_line(render_member(key, value)),
    decreases value, 2int,
{
    lemma_escape_one_line(key);
    lemma_render_one_line(value);
    lemma_one_line_concat(quoted(key), seq![':']);
    lemma_one_line_concat(quoted(key) + seq![':'], render(value));
}

/// Whether some member has the given key.
pub open spec fn has_key(members: Seq<(Seq<char>, Json)>, key: Seq<char>) -> bool {
    exists|i: int| 0 <= i < members.len() && (#[trigger] members[i]).0 == key
}

/// Whether some member has the given key and value.
pub open spec fn has_member(members: Seq<(Seq<char>, Json)>, key: Seq<char>, value: Json) -> bool {
    exists|i: int| 0 <= i < members.len() && #[trigger] members[i] == (key, value)
}

/// Calls `serde_json::to_string` on a string slice. The contract states what its string
/// serializer writes: a quotation mark, then each character, with `"` and `\` behind a
/// backslash, backspace, form feed, line feed, carriage return and tab as `\b`, `\f`,
/// `\n`, `\r` and `\t`, any other character below U+0020 as `\u00` and two lower-case
/// hexadecimal digits, every other character as it is, then a quotation mark. Serializing
/// a string slice into memory has no way to fail, so an error is taken as the empty text.
#[verifier::external_body]
fn quote_str(s: &str) -> (r: String)
    ensures
        r@ == quoted(s@),
{
    serde_json::to_string(s).unwrap_or_default()
}

/// What `serde_json` makes of a text: where the text is one JSON object, its members in
/// the order in which `serde_json::Map` walks them, each value as the compact text that
/// `serde_json` writes for it; nothing where the text is no JSON, or is JSON of another
/// kind.
pub uninterp spec fn object_members_of(text: Seq<char>) -> Option<Seq<(Seq<char>, Seq<char>)>>;

/// The views of a sequence of pairs of strings.
pub open spec fn pairs_view(pairs: Seq<(String, String)>) -> Seq<(Seq<char>, Seq<char>)> {
    Seq::new(pairs.len(), |i: int| (pairs[i].0@, pairs[i].1@))
}

/// Calls `serde_json::from_str` for a `serde_json::Value` and, where that is an object,
/// hands out its members, each value as the text that `Value::to_string` gives. The result
/// is named by `object_members_of`. The text of a value is written without white space
/// between its tokens and with the line feeds inside strings escaped, so it holds no
/// line feed.
#[verifier::external_body]
fn parse_object(text: &str) -> (r: Option<Vec<(String, String)>>)
    ensures
        match r {
            Some(members) => object_members_of(text@) == Some(pairs_view(members@)),
            None => object_members_of(text@) is None,
        },
        r matches Some(members) ==> forall|i: int|
            0 <= i < members@.len() ==> one_line((#[trigger] members@[i]).1@),
{
    match serde_json::from_str::<serde_json::Value>(text) {
        Ok(serde_json::Value::Object(members)) => Some(
            members.into_iter().map(|(key, value)| (key, value.to_string())).collect(),
        ),
        _ => None,
    }
}

/// The members of an object given as text, each value kept as raw JSON text.
pub open spec fn raw_members(pairs: Seq<(Seq<char>, Seq<char>)>) -> Seq<(Seq<char>, Json)> {
    Seq::new(pairs.len(), |i: int| (pairs[i].0, Json::Raw(pairs[i].1)))
}

/// Reads the members of a JSON object from its text. Each value comes back as raw JSON
/// text, compactly rendered. `None` where the text is not a JSON object.
pub fn object_members(text: &str) -> (r: Option<Vec<(String, JsonValue)>>)
    ensures
        match r {
            Some(members) => object_members_of(text@) is Some && members_view(members@)
                == raw_members(object_members_of(text@)->0) && all_line_safe(
                members_view(members@),
            ),
            None => object_members_of(text@) is None,
        },
{
    match parse_object(text) {
        Some(pairs) => {
            let ghost all = pairs@;
            let mut members: Vec<(String, JsonValue)> = Vec::new();
            for pair in it: pairs.into_iter()
                invariant
                    it.seq() == all,
                    members@.len() == it.index(),
                    members_view(members@) == raw_members(pairs_view(all.take(it.index() as int))),
                    forall|i: int| 0 <= i < all.len() ==> one_line((#[trigger] all[i]).1@),
                    all_line_safe(members_view(members@)),
            {
                let ghost before = members@;
                let ghost done = it.index() as int;
                let (key, text) = pair;
                members.push((key, JsonValue::Raw(text)));
                proof {
                    assert(members@ == before.push((key, JsonValue::Raw(text))));
                    assert(all[done] == pair);
                    assert forall|i: int| 0 <= i < members@.len() implies members_view(members@)[i]
                        == raw_members(pairs_view(all.take(done + 1)))[i] by {
                        if i < done {
                            assert(members_view(before)[i] == raw_members(
                                pairs_view(all.take(done)),
                            )[i]);
                            assert(all.take(done)[i] == all.take(done + 1)[i]);
                        }
                    }
                    assert(members_view(members@) =~= raw_members(pairs_view(all.take(done + 1))));
                    assert forall|i: int| 0 <= i < members@.len() implies line_safe(
                        (#[trigger] members_view(members@)[i]).1,
                    ) by {
                        if i < done {
                            assert(members_view(members@)[i] == members_view(before)[i]);
                        } else {
                            assert(one_line(all[done].1@));
                        }
                    }
                }
            }
            assert(all.take(all.len() as int) =~= all);
            Some(members)
        },
        None => None,
    }
}

impl JsonValue {
    /// Appends the compact text of this value to `out`.
    pub fn render_into(&self, out: &mut String)
        ensures
            final(out)@ == old(out)@ + render(self@),
        decreases self,
    {
        match self {
            JsonValue::Null => {
                out.append("null");
            },
            JsonValue::Bool(b) => {
                if *b {
                    out.append("true");
                } else {
                    out.append("false");
                }
            },
            JsonValue::Int(n) => {
                push_decimal_i64(out, *n);
            },
            JsonValue::UInt(n) => {
                push_decimal_u64(out, *n);
                assert(decimal_nat(*n as nat) == decimal(*n as int));
            },
            JsonValue::String(s) => {
                let text = quote_str(s.as_str());
                out.append(text.as_str());
            },
            JsonValue::Raw(text) => {
                out.append(text.as_str());
            },
            JsonValue::Array(items) => {
                proof {
                    lemma_view_of_collections(*self);
                    reveal_strlit("[");
                    reveal_strlit("]");
                    reveal_strlit(",");
                }
                out.append("[");
                let mut i: usize = 0;
                while i < items.len()
                    invariant
                        i <= items.len(),
                        *self == JsonValue::Array(*items),
                        out@ == old(out)@ + seq!['['] + render_items(
                            items_view(items@).take(i as int),
                        ),
                    decreases items.len() - i,
                {
                    if i > 0 {
                        proof {
                            reveal_strlit(",");
                        }
                        out.append(",");
                    }
                    proof {
                        vstd::std_specs::vec::axiom_vec_index_decreases(*items, i as int);
                        assert(decreases_to!(*self => self->Array_0));
                    }
                    items[i].render_into(out);
                    proof {
                        let all = items_view(items@);
                        assert(all.take(i + 1) =~= all.take(i as int).push(items@[i as int]@));
                        lemma_render_items_push(all.take(i as int), items@[i as int]@);
                        assert(out@ =~= old(out)@ + seq!['['] + render_items(all.take(i + 1)));
                    }
                    i += 1;
                }
                out.append("]");
                proof {
                    let all = items_view(items@);
                    assert(all.take(items.len() as int) =~= all);
                    assert(out@ =~= old(out)@ + render(self@));
                }
            },
            JsonValue::Object(members) => {
                proof {
                    lemma_view_of_collections(*self);
                }
                render_members_into(members, out);
                assert(out@ =~= old(out)@ + render(self@));
            },
        }
    }

    /// The compact text of this value.
    pub fn render(&self) -> (r: String)
        ensures
            r@ == render(self@),
    {
        let mut out = String::new();
        self.render_into(&mut out);
        assert(out@ =~= render(self@));
        out
    }
}

impl Clone for JsonValue {
    fn clone(&self) -> (r: JsonValue)
        ensures
            r@ == self@,
        decreases self,
    {
        match self {
            JsonValue::Null => JsonValue::Null,
            JsonValue::Bool(b) => JsonValue::Bool(*b),
            JsonValue::Int(n) => JsonValue::Int(*n),
            JsonValue::UInt(n) => JsonValue::UInt(*n),
            JsonValue::String(text) => JsonValue::String(text.clone()),
            JsonValue::Raw(text) => JsonValue::Raw(text.clone()),
            JsonValue::Array(items) => {
                let mut copies: Vec<JsonValue> = Vec::new();
                let mut i: usize = 0;
                while i < items.len()
                    invariant
                        i <= items.len(),
                        *self == JsonValue::Array(*items),
                        copies@.len() == i,
                        forall|j: int| 0 <= j < i ==> copies@[j]@ == items@[j]@,
                    decreases items.len() - i,
                {
                    proof {
                        vstd::std_specs::vec::axiom_vec_index_decreases(*items, i as int);
                        assert(decreases_to!(*self => self->Array_0));
                    }
                    copies.push(items[i].clone());
                    i += 1;
                }
                let r = JsonValue::Array(copies);
                proof {
                    lemma_view_of_collections(*self);
                    lemma_view_of_collections(r);
                    assert(items_view(copies@) =~= items_view(items@));
                }
                r
            },
            JsonValue::Object(members) => {
                let copies = clone_members(members);
                let r = JsonValue::Object(copies);
                proof {
                    lemma_view_of_collections(*self);
                    lemma_view_of_collections(r);
                }
                r
            },
        }
    }
}

/// A copy of the members of an object.
pub fn clone_members(members: &Vec<(String, JsonValue)>) -> (r: Vec<(String, JsonValue)>)
    ensures
        members_view(r@) == members_view(members@),
    decreases members,
{
    let mut copies: Vec<(String, JsonValue)> = Vec::new();
    let mut i: usize = 0;
    while i < members.len()
        invariant
            i <= members.len(),
            copies@.len() == i,
            forall|j: int|
                0 <= j < i ==> copies@[j].0@ == members@[j].0@ && copies@[j].1@ == members@[j].1@,
        decreases members.len() - i,
    {
        proof {
            vstd::std_specs::vec::axiom_vec_index_decreases(*members, i as int);
        }
        copies.push((members[i].0.clone(), members[i].1.clone()));
        i += 1;
    }
    assert(members_view(copies@) =~= members_view(members@));
    copies
}

/// Appends the compact text of an object with the given members to `out`.
pub fn render_members_into(members: &Vec<(String, JsonValue)>, out: &mut String)
    ensures
        final(out)@ == old(out)@ + render_object(members_view(members@)),
    decreases members,
{
    proof {
        reveal_strlit("{");
        reveal_strlit("}");
        reveal_strlit(",");
        reveal_strlit(":");
    }
    out.append("{");
    let mut i: usize = 0;
    while i < members.len()
        invariant
            i <= members.len(),
            out@ == old(out)@ + seq!['{'] + render_members(members_view(members@).take(i as int)),
        decreases members.len() - i,
    {
        proof {
            reveal_strlit(",");
            reveal_strlit(":");
        }
        if i > 0 {
            out.append(",");
        }
        let key = quote_str(members[i].0.as_str());
        out.append(key.as_str());
        out.append(":");
        proof {
            vstd::std_specs::vec::axiom_vec_index_decreases(*members, i as int);
        }
        members[i].1.render_into(out);
        proof {
            let all = members_view(members@);
            let key = members@[i as int].0@;
            let value = members@[i as int].1@;
            assert(all.take(i + 1) =~= all.take(i as int).push((key, value)));
            lemma_render_members_push(all.take(i as int), key, value);
            assert(out@ =~= old(out)@ + seq!['{'] + render_members(all.take(i + 1)));
        }
        i += 1;
    }
    out.append("}");
    proof {
        let all = members_view(members@);
        assert(all.take(members.len() as int) =~= all);
        assert(out@ =~= old(out)@ + render_object(all));
    }
}

} // verus!
