//! JSON documents: the replies of the services that the companion asks.

use vstd::prelude::*;

use crate::score::Score;
use crate::text;

verus! {

/// A JSON value.
pub enum Json {
    Null,
    Bool(bool),
    Number(JsonNumber),
    Text(String),
    Array(Vec<Json>),
    Object(Vec<(String, Json)>),
}

/// A number: as an integer, where it is one that fits, and as a floating-point number.
#[derive(Clone, Copy, Debug)]
pub struct JsonNumber {
    pub integer: Option<i64>,
    pub float: Option<Score>,
}

/// The value that a `Json` stands for.
pub enum JsonView {
    Null,
    Bool(bool),
    Number(JsonNumber),
    Text(Seq<char>),
    Array(Seq<JsonView>),
    Object(Seq<(Seq<char>, JsonView)>),
}

/// The value of a `Json`.
pub open spec fn value_of(j: Json) -> JsonView
    decreases j,
{
    match j {
        Json::Null => JsonView::Null,
        Json::Bool(b) => JsonView::Bool(b),
        Json::Number(n) => JsonView::Number(n),
        Json::Text(t) => JsonView::Text(t@),
        Json::Array(items) => JsonView::Array(
            Seq::new(
                items@.len(),
                |i: int|
                    if 0 <= i < items@.len() {
                        value_of(items@[i])
                    } else {
                        JsonView::Null
                    },
            ),
        ),
        Json::Object(fields) => JsonView::Object(
            Seq::new(
                fields@.len(),
                |i: int|
                    if 0 <= i < fields@.len() {
                        (fields@[i].0@, value_of(fields@[i].1))
                    } else {
                        (seq![], JsonView::Null)
                    },
            ),
        ),
    }
}

impl View for Json {
    type V = JsonView;

    open spec fn view(&self) -> JsonView {
        value_of(*self)
    }
}

/// The values of a list.
pub open spec fn values_of(items: Seq<Json>) -> Seq<JsonView> {
    items.map_values(|j: Json| j@)
}

/// The names and values of a list of fields.
pub open spec fn fields_of(fields: Seq<(String, Json)>) -> Seq<(Seq<char>, JsonView)> {
    fields.map_values(|f: (String, Json)| (f.0@, f.1@))
}

proof fn lemma_array_value(items: Vec<Json>)
    ensures
        Json::Array(items)@ == JsonView::Array(values_of(items@)),
{
    assert(Json::Array(items)@->Array_0 =~= values_of(items@));
}

proof fn lemma_object_value(fields: Vec<(String, Json)>)
    ensures
        Json::Object(fields)@ == JsonView::Object(fields_of(fields@)),
{
    assert(Json::Object(fields)@->Object_0 =~= fields_of(fields@));
}

// ---------------------------------------------------------------------------
// Parsing
// ---------------------------------------------------------------------------

/// `serde_json::Value`, the crate's own form of a JSON value.
#[verifier::external_type_specification]
#[verifier::external_body]
pub struct ExValue(serde_json::Value);

/// The value that `serde_json::from_str` reads from a text; `None` where it rejects it.
pub uninterp spec fn json_of_text(text: Seq<char>) -> Option<JsonView>;

/// A `serde_json::Value` in the form of this module, variant by variant. A number is
/// taken by `Number::as_i64` and by the bits of `Number::as_f64`.
#[verifier::external_body]
fn json_of_value(value: serde_json::Value) -> Json {
    match value {
        serde_json::Value::Null => Json::Null,
        serde_json::Value::Bool(b) => Json::Bool(b),
        serde_json::Value::Number(n) => Json::Number(JsonNumber {
            integer: n.as_i64(),
            float: n.as_f64().map(|f| Score { bits: f.to_bits() }),
        }),
        serde_json::Value::String(s) => Json::Text(s),
        serde_json::Value::Array(v) => Json::Array(v.into_iter().map(json_of_value).collect()),
        serde_json::Value::Object(m) => Json::Object(
            m.into_iter().map(|(k, v)| (k, json_of_value(v))).collect(),
        ),
    }
}

/// `serde_json::from_str` into a `serde_json::Value`: the value is a function of the
/// text.
#[verifier::external_body]
pub(crate) fn parse_json(text: &str) -> (r: Option<Json>)
    ensures
        match r {
            Some(j) => json_of_text(text@) == Some(j@),
            None => json_of_text(text@) is None,
        },
{
    serde_json::from_str(text).ok().map(json_of_value)
}

// ---------------------------------------------------------------------------
// Reading a value
// ---------------------------------------------------------------------------

/// The value of the first field with a name.
pub open spec fn field_named(fields: Seq<(Seq<char>, JsonView)>, key: Seq<char>) -> Option<
    JsonView,
>
    decreases fields.len(),
{
    if fields.len() == 0 {
        None
    } else if fields[0].0 == key {
        Some(fields[0].1)
    } else {
        field_named(fields.drop_first(), key)
    }
}

/// The member of an object; nothing where the value is no object or has no such member.
pub open spec fn member(v: JsonView, key: Seq<char>) -> Option<JsonView> {
    match v {
        JsonView::Object(fields) => field_named(fields, key),
        _ => None,
    }
}

/// A member that is a text.
pub open spec fn text_member(v: JsonView, key: Seq<char>) -> Option<Seq<char>> {
    match member(v, key) {
        Some(JsonView::Text(t)) => Some(t),
        _ => None,
    }
}

/// A member that is true or false.
pub open spec fn bool_member(v: JsonView, key: Seq<char>) -> Option<bool> {
    match member(v, key) {
        Some(JsonView::Bool(b)) => Some(b),
        _ => None,
    }
}

/// A member that is an integer.
pub open spec fn integer_member(v: JsonView, key: Seq<char>) -> Option<i64> {
    match member(v, key) {
        Some(JsonView::Number(n)) => n.integer,
        _ => None,
    }
}

/// A member that is a number.
pub open spec fn score_member(v: JsonView, key: Seq<char>) -> Option<Score> {
    match member(v, key) {
        Some(JsonView::Number(n)) => n.float,
        _ => None,
    }
}

/// A member that is an array.
pub open spec fn array_member(v: JsonView, key: Seq<char>) -> Option<Seq<JsonView>> {
    match member(v, key) {
        Some(JsonView::Array(items)) => Some(items),
        _ => None,
    }
}

impl Json {
    /// The member of an object.
    pub fn get(&self, key: &str) -> (r: Option<&Json>)
        ensures
            match r {
                Some(j) => Some(j@),
                None => None,
            } == member(self@, key@),
    {
        match self {
            Json::Object(fields) => {
                let ghost all = fields_of(fields@);
                let mut i: usize = 0;
                proof {
                    lemma_object_value(*fields);
                    assert(all.skip(0) =~= all);
                }
                while i < fields.len()
                    invariant
                        self@ == JsonView::Object(all),
                        all == fields_of(fields@),
                        i <= fields@.len(),
                        field_named(all, key@) == field_named(all.skip(i as int), key@),
                    decreases fields@.len() - i,
                {
                    assert(all.skip(i as int)[0] == (fields@[i as int].0@, fields@[i as int].1@));
                    if text::same(fields[i].0.as_str(), key) {
                        return Some(&fields[i].1);
                    }
                    assert(all.skip(i as int).drop_first() =~= all.skip(i + 1));
                    i = i + 1;
                }
                assert(all.skip(i as int) =~= Seq::<(Seq<char>, JsonView)>::empty());
                None
            },
            _ => None,
        }
    }

    /// A member that is a text.
    pub fn get_text(&self, key: &str) -> (r: Option<String>)
        ensures
            match r {
                Some(t) => Some(t@),
                None => None,
            } == text_member(self@, key@),
    {
        match self.get(key) {
            Some(Json::Text(t)) => Some(t.clone()),
            _ => None,
        }
    }

    /// A member that is true or false.
    pub fn get_bool(&self, key: &str) -> (r: Option<bool>)
        ensures
            r == bool_member(self@, key@),
    {
        match self.get(key) {
            Some(Json::Bool(b)) => Some(*b),
            _ => None,
        }
    }

    /// A member that is an integer.
    pub fn get_integer(&self, key: &str) -> (r: Option<i64>)
        ensures
            r == integer_member(self@, key@),
    {
        match self.get(key) {
            Some(Json::Number(n)) => n.integer,
            _ => None,
        }
    }

    /// A member that is a number.
    pub fn get_score(&self, key: &str) -> (r: Option<Score>)
        ensures
            r == score_member(self@, key@),
    {
        match self.get(key) {
            Some(Json::Number(n)) => n.float,
            _ => None,
        }
    }

    /// A member that is an array.
    pub fn get_array(&self, key: &str) -> (r: Option<&Vec<Json>>)
        ensures
            match r {
                Some(items) => Some(values_of(items@)),
                None => None,
            } == array_member(self@, key@),
    {
        match self.get(key) {
            Some(Json::Array(items)) => {
                proof {
                    lemma_array_value(*items);
                }
                Some(items)
            },
            _ => None,
        }
    }
}

// ---------------------------------------------------------------------------
// Chat replies
// ---------------------------------------------------------------------------

/// The texts of a list of parts, each on a line of its own; parts without a text are
/// passed over, and no line break stands before the first text that is not empty.
pub open spec fn parts_text(parts: Seq<JsonView>) -> Seq<char>
    decreases parts.len(),
{
    if parts.len() == 0 {
        seq![]
    } else {
        let so_far = parts_text(parts.drop_last());
        match text_member(parts.last(), "text"@) {
            None => so_far,
            Some(t) => if so_far.len() > 0 {
                so_far.push('\n') + t
            } else {
                t
            },
        }
    }
}

/// The text of the content of a message: a text, or parts of which some have one.
pub open spec fn content_text(content: JsonView) -> Option<Seq<char>> {
    match content {
        JsonView::Text(t) => Some(t),
        JsonView::Array(parts) => if parts_text(parts).len() > 0 {
            Some(parts_text(parts))
        } else {
            None
        },
        _ => None,
    }
}

/// What the assistant says in a reply: the content of the message of its first choice.
pub open spec fn chat_content(reply: JsonView) -> Option<Seq<char>> {
    match array_member(reply, "choices"@) {
        Some(choices) => if choices.len() > 0 {
            match member(choices[0], "message"@) {
                Some(message) => match member(message, "content"@) {
                    Some(content) => content_text(content),
                    None => None,
                },
                None => None,
            }
        } else {
            None
        },
        None => None,
    }
}

fn join_parts(parts: &Vec<Json>) -> (r: String)
    ensures
        r@ == parts_text(values_of(parts@)),
{
    let mut out: String = String::new();
    let mut i: usize = 0;
    let ghost all = values_of(parts@);
    while i < parts.len()
        invariant
            i <= parts@.len(),
            all == values_of(parts@),
            out@ == parts_text(all.take(i as int)),
        decreases parts@.len() - i,
    {
        proof {
            assert(all.take(i + 1).drop_last() =~= all.take(i as int));
            assert(all.take(i + 1).last() == parts@[i as int]@);
        }
        match parts[i].get_text("text") {
            Some(t) => {
                if !out.as_str().is_empty() {
                    out.push('\n');
                    out.append(t.as_str());
                } else {
                    out = t;
                }
            },
            None => {},
        }
        i = i + 1;
    }
    assert(all.take(i as int) =~= all);
    out
}

/// What the assistant says in a reply.
pub fn extract_chat_content(value: &Json) -> (r: Option<String>)
    ensures
        match r {
            Some(t) => Some(t@),
            None => None,
        } == chat_content(value@),
{
    let choices: &Vec<Json> = match value.get_array("choices") {
        Some(v) => v,
        None => {
            return None;
        },
    };
    if choices.len() == 0 {
        return None;
    }
    let message: &Json = match choices[0].get("message") {
        Some(m) => m,
        None => {
            return None;
        },
    };
    match message.get("content") {
        Some(Json::Text(t)) => Some(t.clone()),
        Some(Json::Array(parts)) => {
            proof {
                lemma_array_value(*parts);
            }
            let out: String = join_parts(parts);
            if out.as_str().is_empty() {
                None
            } else {
                Some(out)
            }
        },
        _ => None,
    }
}

// ---------------------------------------------------------------------------
// An object within a text
// ---------------------------------------------------------------------------

/// The first position of a character.
pub open spec fn first_at(s: Seq<char>, c: char) -> Option<int>
    decreases s.len(),
{
    if s.len() == 0 {
        None
    } else if s[0] == c {
        Some(0int)
    } else {
        match first_at(s.drop_first(), c) {
            Some(i) => Some(i + 1),
            None => None,
        }
    }
}

/// The last position of a character.
pub open spec fn last_at(s: Seq<char>, c: char) -> Option<int>
    decreases s.len(),
{
    if s.len() == 0 {
        None
    } else if s.last() == c {
        Some(s.len() - 1)
    } else {
        last_at(s.drop_last(), c)
    }
}

/// Whether what lies between the first opening and the last closing brace, both of them
/// taken in, is a stretch of the text. It is not where the closing brace comes first
/// with something between the two.
pub open spec fn braces_in_order(s: Seq<char>) -> bool {
    match (first_at(s, '{'), last_at(s, '}')) {
        (Some(a), Some(b)) => a <= b + 1,
        _ => true,
    }
}

/// Why no object can be cut out of a text.
#[derive(Clone, Copy, Debug, PartialEq, Eq, Structural)]
pub enum ObjectError {
    /// There is no opening brace.
    NoStart,
    /// There is no closing brace.
    NoEnd,
}

/// The text from the first opening to the last closing brace.
pub open spec fn object_text(s: Seq<char>) -> Result<Seq<char>, ObjectError> {
    match (first_at(s, '{'), last_at(s, '}')) {
        (None, _) => Err(ObjectError::NoStart),
        (Some(a), None) => Err(ObjectError::NoEnd),
        (Some(a), Some(b)) => Ok(s.subrange(a, b + 1)),
    }
}

proof fn lemma_first_at(s: Seq<char>, c: char, i: int)
    requires
        0 <= i <= s.len(),
        forall|k: int| 0 <= k < i ==> #[trigger] s[k] != c,
        i < s.len() ==> s[i] == c,
    ensures
        first_at(s, c) == (if i < s.len() { Some(i) } else { None }),
    decreases s.len(),
{
    if s.len() > 0 && i > 0 {
        let t = s.drop_first();
        assert(s[0] != c);
        assert forall|k: int| 0 <= k < i - 1 implies #[trigger] t[k] != c by {
            assert(t[k] == s[k + 1]);
        }
        lemma_first_at(t, c, i - 1);
    }
}

proof fn lemma_last_at(s: Seq<char>, c: char, i: int)
    requires
        -1 <= i < s.len(),
        forall|k: int| i < k < s.len() ==> #[trigger] s[k] != c,
        i >= 0 ==> s[i] == c,
    ensures
        last_at(s, c) == (if i >= 0 { Some(i) } else { None }),
    decreases s.len(),
{
    if s.len() > 0 && i < s.len() - 1 {
        let t = s.drop_last();
        assert(s[s.len() - 1] != c);
        assert forall|k: int| i < k < t.len() implies #[trigger] t[k] != c by {
            assert(t[k] == s[k]);
        }
        lemma_last_at(t, c, i);
    }
}

fn find_first(s: &Vec<char>, c: char) -> (r: Option<usize>)
    ensures
        match r {
            Some(i) => i < s@.len() && first_at(s@, c) == Some(i as int),
            None => first_at(s@, c) is None,
        },
{
    let mut i: usize = 0;
    while i < s.len()
        invariant
            i <= s@.len(),
            forall|k: int| 0 <= k < i ==> #[trigger] s@[k] != c,
        decreases s@.len() - i,
    {
        if s[i] == c {
            proof {
                lemma_first_at(s@, c, i as int);
            }
            return Some(i);
        }
        i = i + 1;
    }
    proof {
        lemma_first_at(s@, c, i as int);
    }
    None
}

fn find_last(s: &Vec<char>, c: char) -> (r: Option<usize>)
    ensures
        match r {
            Some(i) => i < s@.len() && last_at(s@, c) == Some(i as int),
            None => last_at(s@, c) is None,
        },
{
    let mut i: usize = s.len();
    while i > 0
        invariant
            i <= s@.len(),
            forall|k: int| i <= k < s@.len() ==> #[trigger] s@[k] != c,
        decreases i,
    {
        if s[i - 1] == c {
            proof {
                lemma_last_at(s@, c, i - 1);
            }
            return Some(i - 1);
        }
        i = i - 1;
    }
    proof {
        lemma_last_at(s@, c, -1);
    }
    None
}

/// Whether an object can be looked for in a text.
pub fn has_braces_in_order(input: &str) -> (r: bool)
    ensures
        r == braces_in_order(input@),
{
    let chars: Vec<char> = text::chars_of(input);
    match (find_first(&chars, '{'), find_last(&chars, '}')) {
        (Some(a), Some(b)) => a <= b + 1,
        _ => true,
    }
}

/// Cuts the text from the first opening to the last closing brace out of a text.
pub fn extract_json_object(input: &str) -> (r: Result<String, ObjectError>)
    requires
        braces_in_order(input@),
    ensures
        match r {
            Ok(t) => Ok(t@),
            Err(e) => Err(e),
        } == object_text(input@),
{
    let chars: Vec<char> = text::chars_of(input);
    let a: usize = match find_first(&chars, '{') {
        Some(i) => i,
        None => {
            return Err(ObjectError::NoStart);
        },
    };
    let b: usize = match find_last(&chars, '}') {
        Some(i) => i,
        None => {
            return Err(ObjectError::NoEnd);
        },
    };
    Ok(text::text_between(&chars, a, b + 1))
}

// ---------------------------------------------------------------------------
// Answers in JSON
// ---------------------------------------------------------------------------

/// Why a reply holds no answer.
#[derive(Clone, Copy, Debug, PartialEq, Eq, Structural)]
pub enum ReplyError {
    /// The reply is no JSON.
    Body,
    /// The reply has no content of an assistant.
    NoContent,
    /// The content is no JSON and holds no JSON object.
    Content,
    /// The content is no JSON, and its braces stand the wrong way round, so that no
    /// object can be cut out.
    Braces,
}

/// The answer in the content of a reply: the content as a whole, or else the object
/// within it.
pub open spec fn answer_in(content: Seq<char>) -> Result<JsonView, ReplyError> {
    match json_of_text(content) {
        Some(v) => Ok(v),
        None => if !braces_in_order(content) {
            Err(ReplyError::Braces)
        } else {
            match object_text(content) {
                Err(_) => Err(ReplyError::Content),
                Ok(inner) => match json_of_text(inner) {
                    Some(v) => Ok(v),
                    None => Err(ReplyError::Content),
                },
            }
        },
    }
}

/// What the assistant says in the body of a reply.
pub open spec fn said_in(body: Seq<char>) -> Result<Seq<char>, ReplyError> {
    match json_of_text(body) {
        None => Err(ReplyError::Body),
        Some(reply) => match chat_content(reply) {
            None => Err(ReplyError::NoContent),
            Some(content) => Ok(content),
        },
    }
}

/// Reads the answer in the content of a reply.
pub fn parse_answer(content: &str) -> (r: Result<Json, ReplyError>)
    ensures
        match r {
            Ok(j) => Ok(j@),
            Err(e) => Err(e),
        } == answer_in(content@),
{
    match parse_json(content) {
        Some(j) => Ok(j),
        None => {
            if !has_braces_in_order(content) {
                return Err(ReplyError::Braces);
            }
            match extract_json_object(content) {
                Err(_) => Err(ReplyError::Content),
                Ok(inner) => match parse_json(inner.as_str()) {
                    Some(j) => Ok(j),
                    None => Err(ReplyError::Content),
                },
            }
        },
    }
}

/// Reads what the assistant says from the body of a reply.
pub fn read_reply(body: &str) -> (r: Result<String, ReplyError>)
    ensures
        match r {
            Ok(t) => Ok(t@),
            Err(e) => Err(e),
        } == said_in(body@),
{
    match parse_json(body) {
        None => Err(ReplyError::Body),
        Some(reply) => match extract_chat_content(&reply) {
            None => Err(ReplyError::NoContent),
            Some(content) => Ok(content),
        },
    }
}

/// Reads the answer in JSON that the body of a reply brings.
pub fn read_answer(body: &str) -> (r: Result<Json, ReplyError>)
    ensures
        match r {
            Ok(j) => Ok(j@),
            Err(e) => Err(e),
        } == (match said_in(body@) {
            Err(e) => Err(e),
            Ok(content) => answer_in(content),
        }),
{
    match read_reply(body) {
        Err(e) => Err(e),
        Ok(content) => parse_answer(content.as_str()),
    }
}

/// An object that is cut out of a text starts with an opening and ends with a closing
/// brace, unless the two stand side by side the wrong way round, where it is empty.
pub proof fn law_object_is_braced(s: Seq<char>)
    requires
        braces_in_order(s),
    ensures
        object_text(s) matches Ok(t) ==> t.len() == 0 || (t.len() >= 2 && t[0] == '{' && t.last()
            == '}'),
{
    lemma_positions(s, '{');
    lemma_positions(s, '}');
}

proof fn lemma_positions(s: Seq<char>, c: char)
    ensures
        first_at(s, c) matches Some(i) ==> 0 <= i < s.len() && s[i] == c,
        last_at(s, c) matches Some(i) ==> 0 <= i < s.len() && s[i] == c,
    decreases s.len(),
{
    if s.len() > 0 {
        lemma_positions(s.drop_first(), c);
        lemma_positions(s.drop_last(), c);
    }
}

// ---------------------------------------------------------------------------
// What reading comes to
// ---------------------------------------------------------------------------

/// A member is the value of the first field with its name, wherever that field stands;
/// there is none only where no field has the name, or where the value is no object.
pub proof fn law_member_is_the_first_of_its_name(
    fields: Seq<(Seq<char>, JsonView)>,
    key: Seq<char>,
    i: int,
)
    requires
        0 <= i <= fields.len(),
        forall|k: int| 0 <= k < i ==> (#[trigger] fields[k]).0 != key,
        i < fields.len() ==> fields[i].0 == key,
    ensures
        i < fields.len() ==> member(JsonView::Object(fields), key) == Some(fields[i].1),
        i == fields.len() ==> member(JsonView::Object(fields), key) is None,
    decreases fields.len(),
{
    if fields.len() > 0 && i > 0 {
        let t = fields.drop_first();
        assert(fields[0].0 != key);
        assert forall|k: int| 0 <= k < i - 1 implies (#[trigger] t[k]).0 != key by {
            assert(t[k] == fields[k + 1]);
        }
        law_member_is_the_first_of_its_name(t, key, i - 1);
    }
}

/// Nothing but an object has members, and a member is read only as what it is.
pub proof fn law_members_are_read_as_they_are(v: JsonView, key: Seq<char>)
    ensures
        !(v is Object) ==> member(v, key) is None,
        match member(v, key) {
            Some(JsonView::Text(t)) => text_member(v, key) == Some(t),
            _ => text_member(v, key) is None,
        },
        match member(v, key) {
            Some(JsonView::Bool(b)) => bool_member(v, key) == Some(b),
            _ => bool_member(v, key) is None,
        },
        match member(v, key) {
            Some(JsonView::Number(n)) => integer_member(v, key) == n.integer && score_member(v, key)
                == n.float,
            _ => integer_member(v, key) is None && score_member(v, key) is None,
        },
        match member(v, key) {
            Some(JsonView::Array(items)) => array_member(v, key) == Some(items),
            _ => array_member(v, key) is None,
        },
{
}

/// The texts of all parts are put together, in order, with a line break between two that
/// are not empty, however many there are; a part without a text changes nothing.
pub proof fn law_parts_are_put_together(parts: Seq<JsonView>, p: JsonView)
    ensures
        parts_text(Seq::empty()) == Seq::<char>::empty(),
        text_member(p, "text"@) is None ==> parts_text(parts.push(p)) == parts_text(parts),
        text_member(p, "text"@) is Some && parts_text(parts).len() == 0 ==> parts_text(
            parts.push(p),
        ) == text_member(p, "text"@)->0,
        text_member(p, "text"@) is Some && parts_text(parts).len() > 0 ==> parts_text(parts.push(p))
            == parts_text(parts) + "\n"@ + text_member(p, "text"@)->0,
{
    reveal_strlit("\n");
    assert(parts_text(Seq::empty()) =~= Seq::<char>::empty());
    assert(parts.push(p).drop_last() =~= parts);
    let so_far = parts_text(parts);
    assert(so_far.push('\n') =~= so_far + "\n"@);
}

/// What the assistant says is the content of the message of the first choice, as it stands
/// if it is a text, or the texts of its parts if it has any. There is nothing said in any
/// other reply.
pub proof fn law_first_choice_speaks(
    reply: JsonView,
    choices: Seq<JsonView>,
    message: JsonView,
    content: JsonView,
)
    requires
        member(reply, "choices"@) == Some(JsonView::Array(choices)),
        choices.len() > 0,
        member(choices[0], "message"@) == Some(message),
        member(message, "content"@) == Some(content),
    ensures
        content matches JsonView::Text(t) ==> chat_content(reply) == Some(t),
        content matches JsonView::Array(parts) ==> chat_content(reply) == (if parts_text(
            parts,
        ).len() > 0 {
            Some(parts_text(parts))
        } else {
            None
        }),
        !(content is Text) && !(content is Array) ==> chat_content(reply) is None,
{
}

/// Nothing is said where a reply has no choices, its first choice no message or the message
/// no content.
pub proof fn law_nothing_is_said_without_content(reply: JsonView)
    ensures
        chat_content(reply) is Some ==> {
            &&& member(reply, "choices"@) is Some
            &&& member(reply, "choices"@)->0 is Array
            &&& member(reply, "choices"@)->0->Array_0.len() > 0
            &&& member(member(reply, "choices"@)->0->Array_0[0], "message"@) is Some
            &&& member(
                member(member(reply, "choices"@)->0->Array_0[0], "message"@)->0,
                "content"@,
            ) is Some
        },
{
}

/// An object is cut out of a text from its first opening to its last closing brace,
/// whatever stands before, between and behind them; without the one or the other there is
/// none.
pub proof fn law_object_is_cut_out(before: Seq<char>, inner: Seq<char>, behind: Seq<char>)
    requires
        !before.contains('{'),
        !behind.contains('}'),
    ensures
        braces_in_order(before + "{"@ + inner + "}"@ + behind),
        object_text(before + "{"@ + inner + "}"@ + behind) == Ok::<Seq<char>, ObjectError>(
            "{"@ + inner + "}"@,
        ),
        braces_in_order(before),
        object_text(before) == Err::<Seq<char>, ObjectError>(ObjectError::NoStart),
        behind.contains('{') ==> object_text(behind) == Err::<Seq<char>, ObjectError>(
            ObjectError::NoEnd,
        ),
        braces_in_order(behind),
{
    reveal_strlit("{");
    reveal_strlit("}");
    let s = before + "{"@ + inner + "}"@ + behind;
    let a = before.len() as int;
    let b = a + 1 + inner.len();
    assert forall|k: int| 0 <= k < a implies #[trigger] s[k] != '{' by {
        assert(s[k] == before[k]);
    }
    assert forall|k: int| b < k < s.len() implies #[trigger] s[k] != '}' by {
        assert(s[k] == behind[k - b - 1]);
    }
    assert(s[a] == '{' && s[b] == '}');
    lemma_first_at(s, '{', a);
    lemma_last_at(s, '}', b);
    assert(s.subrange(a, b + 1) =~= "{"@ + inner + "}"@);
    assert forall|k: int| 0 <= k < before.len() implies #[trigger] before[k] != '{' by {}
    lemma_first_at(before, '{', before.len() as int);
    assert forall|k: int| -1 < k < behind.len() implies #[trigger] behind[k] != '}' by {}
    lemma_last_at(behind, '}', -1);
    if behind.contains('{') {
        lemma_first_at_some(behind, '{');
    }
}

proof fn lemma_first_at_some(s: Seq<char>, c: char)
    requires
        s.contains(c),
    ensures
        first_at(s, c) is Some,
    decreases s.len(),
{
    let k = choose|k: int| 0 <= k < s.len() && s[k] == c;
    if s[0] != c {
        assert(s.drop_first()[k - 1] == c);
        lemma_first_at_some(s.drop_first(), c);
    }
}

/// Braces stand the wrong way round exactly where the last closing one comes before the
/// first opening one with something between them; side by side that way they hold nothing.
pub proof fn law_braces_the_wrong_way_round(
    before: Seq<char>,
    between: Seq<char>,
    behind: Seq<char>,
)
    requires
        !before.contains('{'),
        !between.contains('{'),
        !between.contains('}'),
        !behind.contains('}'),
    ensures
        braces_in_order(before + "}"@ + between + "{"@ + behind) <==> between.len() == 0,
        between.len() == 0 ==> object_text(before + "}"@ + between + "{"@ + behind) == Ok::<
            Seq<char>,
            ObjectError,
        >(Seq::empty()),
{
    reveal_strlit("{");
    reveal_strlit("}");
    let s = before + "}"@ + between + "{"@ + behind;
    let b = before.len() as int;
    let a = b + 1 + between.len();
    assert(s[b] == '}' && s[a] == '{');
    assert forall|k: int| 0 <= k < a implies #[trigger] s[k] != '{' by {
        if k < b {
            assert(s[k] == before[k]);
        } else if k > b {
            assert(s[k] == between[k - b - 1]);
        }
    }
    assert forall|k: int| b < k < s.len() implies #[trigger] s[k] != '}' by {
        if k < a {
            assert(s[k] == between[k - b - 1]);
        } else if k > a {
            assert(s[k] == behind[k - a - 1]);
        }
    }
    lemma_first_at(s, '{', a);
    lemma_last_at(s, '}', b);
    if between.len() == 0 {
        assert(s.subrange(a, b + 1) =~= Seq::<char>::empty());
    }
}

/// An answer is the content as a whole where that is JSON, and the object within it
/// otherwise; each of the two other errors has its own cause.
pub proof fn law_answers_are_found(content: Seq<char>, inner: Seq<char>)
    ensures
        json_of_text(content) is Some ==> answer_in(content) == Ok::<JsonView, ReplyError>(
            json_of_text(content)->0,
        ),
        json_of_text(content) is None && !braces_in_order(content) ==> answer_in(content) == Err::<
            JsonView,
            ReplyError,
        >(ReplyError::Braces),
        json_of_text(content) is None && braces_in_order(content) ==> {
            &&& object_text(content) is Err ==> answer_in(content) == Err::<JsonView, ReplyError>(
                ReplyError::Content,
            )
            &&& object_text(content) == Ok::<Seq<char>, ObjectError>(inner) && json_of_text(
                inner,
            ) is Some ==> answer_in(content) == Ok::<JsonView, ReplyError>(json_of_text(inner)->0)
            &&& object_text(content) == Ok::<Seq<char>, ObjectError>(inner) && json_of_text(
                inner,
            ) is None ==> answer_in(content) == Err::<JsonView, ReplyError>(ReplyError::Content)
        },
{
}

/// A reply says what its first choice says; it is of no use exactly where it is no JSON or
/// says nothing.
pub proof fn law_replies_say_their_content(body: Seq<char>)
    ensures
        json_of_text(body) is None ==> said_in(body) == Err::<Seq<char>, ReplyError>(
            ReplyError::Body,
        ),
        json_of_text(body) is Some && chat_content(json_of_text(body)->0) is None ==> said_in(body)
            == Err::<Seq<char>, ReplyError>(ReplyError::NoContent),
        json_of_text(body) is Some && chat_content(json_of_text(body)->0) is Some ==> said_in(body)
            == Ok::<Seq<char>, ReplyError>(chat_content(json_of_text(body)->0)->0),
{
}

/// A value is seen whole: an array by all its items and an object by all its fields, in
/// order.
pub proof fn law_values_are_seen_whole(items: Vec<Json>, fields: Vec<(String, Json)>, i: int)
    ensures
        Json::Array(items)@ is Array && Json::Array(items)@->Array_0.len() == items@.len(),
        0 <= i < items@.len() ==> Json::Array(items)@->Array_0[i] == items@[i]@,
        Json::Object(fields)@ is Object && Json::Object(fields)@->Object_0.len() == fields@.len(),
        0 <= i < fields@.len() ==> Json::Object(fields)@->Object_0[i] == (
            fields@[i].0@,
            fields@[i].1@,
        ),
        values_of(items@) == Json::Array(items)@->Array_0,
{
    lemma_array_value(items);
    lemma_object_value(fields);
}

} // verus!
