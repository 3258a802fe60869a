//! JSON documents.
use serde::de::Unexpected;
use serde_json::Value;
use vstd::prelude::*;

verus! {

/// `serde_json::Number`, opaque: it is carried from the document that was read to
/// the document that is written.
#[verifier::external_type_specification]
#[verifier::external_body]
pub struct ExNumber(serde_json::Number);

/// `serde_json::Number`'s `Clone`: the clone is the same number.
pub assume_specification[ <serde_json::Number as Clone>::clone ](
    number: &serde_json::Number,
) -> (clone: serde_json::Number)
    ensures
        clone == *number,
;

/// A negative integer. Only reading a document makes one.
#[derive(Debug, Clone, Copy)]
pub struct NegativeInteger {
    value: i64,
}

impl View for NegativeInteger {
    type V = i64;

    closed spec fn view(&self) -> i64 {
        self.value
    }
}

impl NegativeInteger {
    /// The integer.
    pub fn get(&self) -> (value: i64)
        ensures
            value == self@,
    {
        self.value
    }
}

/// A number that is no integer of 64 bits. Only reading a document makes one.
#[derive(Debug)]
pub struct DecimalNumber {
    number: serde_json::Number,
}

impl View for DecimalNumber {
    type V = serde_json::Number;

    closed spec fn view(&self) -> serde_json::Number {
        self.number
    }
}

/// A JSON number.
#[derive(Debug)]
pub enum JsonNumber {
    /// An integer that fits `u64`.
    Unsigned(u64),
    /// A negative integer that fits `i64`.
    Negative(NegativeInteger),
    /// Any other number.
    Decimal(DecimalNumber),
}

/// What a [`JsonNumber`] stands for.
pub enum JsonNumberModel {
    Unsigned(u64),
    Negative(i64),
    Decimal(serde_json::Number),
}

impl View for JsonNumber {
    type V = JsonNumberModel;

    open spec fn view(&self) -> JsonNumberModel {
        match self {
            JsonNumber::Unsigned(n) => JsonNumberModel::Unsigned(*n),
            JsonNumber::Negative(n) => JsonNumberModel::Negative(n@),
            JsonNumber::Decimal(n) => JsonNumberModel::Decimal(n@),
        }
    }
}

/// A JSON document.
#[derive(Debug)]
pub enum Json {
    Null,
    Bool(bool),
    Number(JsonNumber),
    Text(String),
    Array(Vec<Json>),
    /// The members in the order they were added. A later member replaces an
    /// earlier one of the same key.
    Object(Vec<(String, Json)>),
}

/// What a [`Json`] document stands for.
pub enum JsonModel {
    Null,
    Bool(bool),
    Number(JsonNumberModel),
    Text(Seq<char>),
    Array(Seq<JsonModel>),
    Object(Map<Seq<char>, JsonModel>),
}

/// The documents of `items`.
pub open spec fn items_model(items: Seq<Json>) -> Seq<JsonModel>
    decreases items,
{
    if items.len() == 0 {
        Seq::empty()
    } else {
        items_model(items.drop_last()).push(items.last().model())
    }
}

/// The members of `members`, a later one replacing an earlier one.
pub open spec fn members_model(members: Seq<(String, Json)>) -> Map<Seq<char>, JsonModel>
    decreases members,
{
    if members.len() == 0 {
        Map::empty()
    } else {
        members_model(members.drop_last()).insert(members.last().0@, members.last().1.model())
    }
}

impl Json {
    /// The document that `self` holds.
    pub open spec fn model(&self) -> JsonModel
        decreases self,
    {
        match self {
            Json::Null => JsonModel::Null,
            Json::Bool(b) => JsonModel::Bool(*b),
            Json::Number(n) => JsonModel::Number(n@),
            Json::Text(text) => JsonModel::Text(text@),
            Json::Array(items) => JsonModel::Array(items_model(items@)),
            Json::Object(members) => JsonModel::Object(members_model(members@)),
        }
    }
}

impl View for Json {
    type V = JsonModel;

    open spec fn view(&self) -> JsonModel {
        self.model()
    }
}

/// `serde_json::Value`, opaque: [`value_model`] names the document it holds.
#[verifier::external_type_specification]
#[verifier::external_body]
pub struct ExValue(Value);

/// The document that a `serde_json::Value` holds.
pub uninterp spec fn value_model(value: Value) -> JsonModel;

/// What `serde_json::from_str` reads out of `text`: a document, or the message of
/// the error it reports.
pub uninterp spec fn parsed_text(text: Seq<char>) -> Result<JsonModel, Seq<char>>;

/// What `serde_json::from_slice` reads out of `bytes`.
pub uninterp spec fn parsed_bytes(bytes: Seq<u8>) -> Result<JsonModel, Seq<char>>;

/// The compact text that `serde_json::Value`'s `Display` writes for `document`.
pub uninterp spec fn rendered(document: JsonModel) -> Seq<char>;

/// The text that the `Debug` of `serde_json::Map` writes for an object with `members`.
pub uninterp spec fn debugged(members: Map<Seq<char>, JsonModel>) -> Seq<char>;

/// Whether a document is an integer that a `usize` can hold.
pub open spec fn is_count(document: JsonModel) -> bool {
    document matches JsonModel::Number(JsonNumberModel::Unsigned(n)) && n <= usize::MAX
}

/// What `serde_json::from_value` tells of a document that is read as a text and is none.
pub uninterp spec fn not_a_text(document: JsonModel) -> Seq<char>;

/// What `serde_json::from_value` tells of a document that is read as a count and is none.
pub uninterp spec fn not_a_count(document: JsonModel) -> Seq<char>;

/// What the `invalid_type` of `serde_json::Error` tells of a document in whose place
/// something `expected` was to stand.
pub uninterp spec fn wrong_type(document: JsonModel, expected: Seq<char>) -> Seq<char>;

/// Calls `serde_json::from_str`. The document or the error's message is the one
/// that [`parsed_text`] names.
#[verifier::external_body]
fn read_text(text: &str) -> (read: Result<Value, String>)
    ensures
        match read {
            Ok(value) => parsed_text(text@) == Ok::<JsonModel, Seq<char>>(value_model(value)),
            Err(message) => parsed_text(text@) == Err::<JsonModel, Seq<char>>(message@),
        },
{
    serde_json::from_str::<Value>(text).map_err(|error| error.to_string())
}

/// Calls `serde_json::from_slice`. The document or the error's message is the one
/// that [`parsed_bytes`] names.
#[verifier::external_body]
fn read_bytes(bytes: &[u8]) -> (read: Result<Value, String>)
    ensures
        match read {
            Ok(value) => parsed_bytes(bytes@) == Ok::<JsonModel, Seq<char>>(value_model(value)),
            Err(message) => parsed_bytes(bytes@) == Err::<JsonModel, Seq<char>>(message@),
        },
{
    serde_json::from_slice::<Value>(bytes).map_err(|error| error.to_string())
}

/// Calls `serde_json::Value`'s `Display`. The text is the one that [`rendered`]
/// names for the document the value holds.
#[verifier::external_body]
fn write_value(value: &Value) -> (text: String)
    ensures
        text@ == rendered(value_model(*value)),
{
    value.to_string()
}

/// Calls `serde_json::Value::as_object`, and the `Debug` of the `serde_json::Map` it gives.
/// There is a text where the value holds an object, and [`debugged`] names it.
#[verifier::external_body]
fn debug_object(value: &Value) -> (text: Option<String>)
    ensures
        match text {
            Some(text) => value_model(*value) is Object && text@ == debugged(
                value_model(*value)->Object_0,
            ),
            None => !(value_model(*value) is Object),
        },
{
    value.as_object().map(|map| format!("{:?}", map))
}

/// Calls `serde_json::from_value` for a `String`. A text is read, and nothing else is;
/// [`not_a_text`] names what is told of anything else.
#[verifier::external_body]
fn text_in(value: Value) -> (read: Result<String, String>)
    ensures
        match read {
            Ok(text) => value_model(value) == JsonModel::Text(text@),
            Err(message) => !(value_model(value) is Text) && message@ == not_a_text(
                value_model(value),
            ),
        },
{
    serde_json::from_value::<String>(value).map_err(|error| error.to_string())
}

/// Calls `serde_json::from_value` for a `usize`. An integer that fits is read, and nothing
/// else is; [`not_a_count`] names what is told of anything else.
#[verifier::external_body]
fn count_in(value: Value) -> (read: Result<usize, String>)
    ensures
        match read {
            Ok(count) => value_model(value) == JsonModel::Number(
                JsonNumberModel::Unsigned(count as u64),
            ),
            Err(message) => !is_count(value_model(value)) && message@ == not_a_count(
                value_model(value),
            ),
        },
{
    serde_json::from_value::<usize>(value).map_err(|error| error.to_string())
}

/// Calls the `invalid_type` of `serde_json::Error`, with the variant of the value as what is
/// unexpected. [`wrong_type`] names what it tells.
#[verifier::external_body]
fn refuse_type(value: &Value, expected: &str) -> (message: String)
    ensures
        message@ == wrong_type(value_model(*value), expected@),
{
    let unexpected = match value {
        Value::Null => Unexpected::Unit,
        Value::Bool(b) => Unexpected::Bool(*b),
        Value::Number(n) => match (n.as_u64(), n.as_i64()) {
            (Some(u), _) => Unexpected::Unsigned(u),
            (None, Some(i)) => Unexpected::Signed(i),
            (None, None) => Unexpected::Float(n.as_f64().unwrap_or_default()),
        },
        Value::String(s) => Unexpected::Str(s),
        Value::Array(_) => Unexpected::Seq,
        Value::Object(_) => Unexpected::Map,
    };
    <serde_json::Error as serde::de::Error>::invalid_type(unexpected, &expected).to_string()
}

/// Takes a `serde_json::Value` apart, variant by variant. The document stays the
/// one that [`value_model`] names.
#[verifier::external_body]
fn json_of(value: Value) -> (json: Json)
    ensures
        json@ == value_model(value),
{
    match value {
        Value::Null => Json::Null,
        Value::Bool(b) => Json::Bool(b),
        Value::Number(n) => Json::Number(match (n.as_u64(), n.as_i64()) {
            (Some(u), _) => JsonNumber::Unsigned(u),
            (None, Some(i)) => JsonNumber::Negative(NegativeInteger { value: i }),
            (None, None) => JsonNumber::Decimal(DecimalNumber { number: n }),
        }),
        Value::String(s) => Json::Text(s),
        Value::Array(items) => Json::Array(items.into_iter().map(json_of).collect()),
        Value::Object(map) => Json::Object(map.into_iter().map(|(k, v)| (k, json_of(v))).collect()),
    }
}

/// Puts a `serde_json::Value` together, variant by variant. [`value_model`] names
/// the document that `json` holds. An object keeps the last of two members of one
/// key, as `serde_json::Map` does.
#[verifier::external_body]
fn value_of(json: &Json) -> (value: Value)
    ensures
        value_model(value) == json@,
{
    match json {
        Json::Null => Value::Null,
        Json::Bool(b) => Value::Bool(*b),
        Json::Number(JsonNumber::Unsigned(n)) => Value::from(*n),
        Json::Number(JsonNumber::Negative(n)) => Value::from(n.value),
        Json::Number(JsonNumber::Decimal(n)) => Value::Number(n.number.clone()),
        Json::Text(text) => Value::String(text.clone()),
        Json::Array(items) => Value::Array(items.iter().map(value_of).collect()),
        Json::Object(members) => Value::Object(
            members.iter().map(|(k, v)| (k.clone(), value_of(v))).collect()),
    }
}

impl JsonNumber {
    /// The same number again.
    pub fn copy(&self) -> (number: JsonNumber)
        ensures
            number@ == self@,
    {
        match self {
            JsonNumber::Unsigned(n) => JsonNumber::Unsigned(*n),
            JsonNumber::Negative(n) => JsonNumber::Negative(*n),
            JsonNumber::Decimal(n) => JsonNumber::Decimal(
                DecimalNumber { number: n.number.clone() },
            ),
        }
    }
}

impl Json {
    /// Reads a document out of `text`; the error is the reader's message.
    pub fn parse(text: &str) -> (read: Result<Json, String>)
        ensures
            match read {
                Ok(json) => parsed_text(text@) == Ok::<JsonModel, Seq<char>>(json@),
                Err(message) => parsed_text(text@) == Err::<JsonModel, Seq<char>>(message@),
            },
    {
        match read_text(text) {
            Ok(value) => Ok(json_of(value)),
            Err(message) => Err(message),
        }
    }

    /// Reads a document out of `bytes`; the error is the reader's message.
    pub fn parse_bytes(bytes: &[u8]) -> (read: Result<Json, String>)
        ensures
            match read {
                Ok(json) => parsed_bytes(bytes@) == Ok::<JsonModel, Seq<char>>(json@),
                Err(message) => parsed_bytes(bytes@) == Err::<JsonModel, Seq<char>>(message@),
            },
    {
        match read_bytes(bytes) {
            Ok(value) => Ok(json_of(value)),
            Err(message) => Err(message),
        }
    }

    /// The document as compact text.
    pub fn to_text(&self) -> (text: String)
        ensures
            text@ == rendered(self@),
    {
        write_value(&value_of(self))
    }

    /// The members of an object for logs; `None` for any other document.
    pub fn describe_members(&self) -> (text: Option<String>)
        ensures
            match text {
                Some(text) => self@ is Object && text@ == debugged(self@->Object_0),
                None => !(self@ is Object),
            },
    {
        debug_object(&value_of(self))
    }

    /// Reads a text; the error is the reader's message.
    pub fn read_string(&self) -> (read: Result<String, String>)
        ensures
            match read {
                Ok(text) => self@ == JsonModel::Text(text@),
                Err(message) => !(self@ is Text) && message@ == not_a_text(self@),
            },
    {
        text_in(value_of(self))
    }

    /// Reads a count; the error is the reader's message.
    pub fn read_count(&self) -> (read: Result<usize, String>)
        ensures
            match read {
                Ok(count) => self@ == JsonModel::Number(JsonNumberModel::Unsigned(count as u64)),
                Err(message) => !is_count(self@) && message@ == not_a_count(self@),
            },
    {
        count_in(value_of(self))
    }

    /// What is told where this document stands in the place of something `expected`.
    pub fn refuse(&self, expected: &str) -> (message: String)
        ensures
            message@ == wrong_type(self@, expected@),
    {
        refuse_type(&value_of(self), expected)
    }

    /// A string document.
    pub fn text(text: &str) -> (json: Json)
        ensures
            json@ == JsonModel::Text(text@),
    {
        Json::Text(text.to_owned())
    }

    /// An integer document.
    pub fn unsigned(n: u64) -> (json: Json)
        ensures
            json@ == JsonModel::Number(JsonNumberModel::Unsigned(n)),
    {
        Json::Number(JsonNumber::Unsigned(n))
    }

    /// The same document again.
    pub fn copy(&self) -> (json: Json)
        ensures
            json@ == self@,
        decreases self,
    {
        match self {
            Json::Null => Json::Null,
            Json::Bool(b) => Json::Bool(*b),
            Json::Number(n) => Json::Number(n.copy()),
            Json::Text(text) => Json::Text(text.clone()),
            Json::Array(items) => Json::Array(copy_items(items)),
            Json::Object(members) => Json::Object(copy_members(members)),
        }
    }
}

/// The same items again.
pub fn copy_items(items: &Vec<Json>) -> (copies: Vec<Json>)
    ensures
        items_model(copies@) == items_model(items@),
    decreases items,
{
    let mut copies: Vec<Json> = Vec::new();
    let mut i: usize = 0;
    while i < items.len()
        invariant
            0 <= i <= items@.len(),
            items_model(copies@) == items_model(items@.subrange(0, i as int)),
        decreases items@.len() - i,
    {
        let copy = items[i].copy();
        proof {
            lemma_items_push(copies@, copy);
            lemma_items_push(items@.subrange(0, i as int), items@[i as int]);
            assert(items@.subrange(0, i as int).push(items@[i as int]) =~= items@.subrange(
                0,
                i + 1,
            ));
        }
        copies.push(copy);
        i += 1;
    }
    assert(items@.subrange(0, items@.len() as int) =~= items@);
    copies
}

/// The same members again.
pub fn copy_members(members: &Vec<(String, Json)>) -> (copies: Vec<(String, Json)>)
    ensures
        members_model(copies@) == members_model(members@),
    decreases members,
{
    let mut copies: Vec<(String, Json)> = Vec::new();
    let mut i: usize = 0;
    while i < members.len()
        invariant
            0 <= i <= members@.len(),
            members_model(copies@) == members_model(members@.subrange(0, i as int)),
        decreases members@.len() - i,
    {
        let member = (members[i].0.clone(), members[i].1.copy());
        proof {
            lemma_members_push(copies@, member);
            lemma_members_push(members@.subrange(0, i as int), members@[i as int]);
            assert(members@.subrange(0, i as int).push(members@[i as int])
                =~= members@.subrange(0, i + 1));
        }
        copies.push(member);
        i += 1;
    }
    assert(members@.subrange(0, members@.len() as int) =~= members@);
    copies
}

/// Adding an item adds its document.
pub proof fn lemma_items_push(items: Seq<Json>, item: Json)
    ensures
        items_model(items.push(item)) == items_model(items).push(item@),
{
    assert(items.push(item).drop_last() =~= items);
}

/// Adding a member sets its key.
pub proof fn lemma_members_push(members: Seq<(String, Json)>, member: (String, Json))
    ensures
        members_model(members.push(member)) == members_model(members).insert(
            member.0@,
            member.1@,
        ),
{
    assert(members.push(member).drop_last() =~= members);
}

/// Sets the member `key` of an object.
pub fn set(members: &mut Vec<(String, Json)>, key: &str, value: Json)
    ensures
        members_model(final(members)@) == members_model(old(members)@).insert(key@, value@),
{
    let member = (key.to_owned(), value);
    proof {
        lemma_members_push(members@, member);
    }
    members.push(member);
}

/// Sets every member of `more`.
pub fn set_all(members: &mut Vec<(String, Json)>, more: &Vec<(String, Json)>)
    ensures
        members_model(final(members)@) == members_model(old(members)@).union_prefer_right(
            members_model(more@),
        ),
{
    let ghost start = members_model(members@);
    let mut i: usize = 0;
    assert(members_model(more@.subrange(0, 0)) =~= Map::empty());
    assert(start.union_prefer_right(Map::empty()) =~= start);
    while i < more.len()
        invariant
            0 <= i <= more@.len(),
            members_model(members@) == start.union_prefer_right(
                members_model(more@.subrange(0, i as int)),
            ),
        decreases more@.len() - i,
    {
        let value = more[i].1.copy();
        proof {
            lemma_members_push(more@.subrange(0, i as int), more@[i as int]);
            assert(more@.subrange(0, i as int).push(more@[i as int]) =~= more@.subrange(0, i + 1));
            let so_far = members_model(more@.subrange(0, i as int));
            assert(start.union_prefer_right(so_far).insert(more@[i as int].0@, value@)
                =~= start.union_prefer_right(so_far.insert(more@[i as int].0@, value@)));
        }
        set(members, more[i].0.as_str(), value);
        i += 1;
    }
    assert(more@.subrange(0, more@.len() as int) =~= more@);
}

/// The documents of a list, one by one.
pub proof fn lemma_items(items: Seq<Json>)
    ensures
        items_model(items).len() == items.len(),
        forall|i: int| 0 <= i < items.len() ==> items_model(items)[i] == #[trigger] items[i]@,
    decreases items.len(),
{
    if items.len() > 0 {
        lemma_items(items.drop_last());
        assert forall|i: int| 0 <= i < items.len() implies items_model(items)[i]
            == #[trigger] items[i]@ by {
            if i < items.len() - 1 {
                assert(items.drop_last()[i] == items[i]);
            }
        }
    }
}

} // verus!
