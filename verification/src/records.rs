//! Reading records out of JSON documents.
//!
//! A record is an object of its fields, or an array of them in order; fields that
//! an object holds beside them are not looked at.
use vstd::prelude::*;
use crate::json;
use crate::json::{Json, JsonModel, JsonNumber, JsonNumberModel};
use crate::text;

verus! {

/// Whether `document` can be a record of `arity` fields.
pub open spec fn is_record(document: JsonModel, arity: nat) -> bool {
    match document {
        JsonModel::Object(_) => true,
        JsonModel::Array(items) => items.len() <= arity,
        _ => false,
    }
}

/// The field of a record that is called `name` and is its `position`-th.
pub open spec fn field(document: JsonModel, position: nat, name: Seq<char>) -> Option<JsonModel> {
    match document {
        JsonModel::Object(members) => if members.contains_key(name) {
            Some(members[name])
        } else {
            None
        },
        JsonModel::Array(items) => if position < items.len() {
            Some(items[position as int])
        } else {
            None
        },
        _ => None,
    }
}

/// The member of an object that is called `name`.
pub open spec fn member(document: JsonModel, name: Seq<char>) -> Option<JsonModel> {
    match document {
        JsonModel::Object(members) => if members.contains_key(name) {
            Some(members[name])
        } else {
            None
        },
        _ => None,
    }
}

/// The string member of an object that is called `name`.
pub open spec fn text_member(document: JsonModel, name: Seq<char>) -> Option<Seq<char>> {
    match member(document, name) {
        Some(JsonModel::Text(value)) => Some(value),
        _ => None,
    }
}

/// The member of an object that is called `name` and is an integer of `u64`.
pub open spec fn unsigned_member(document: JsonModel, name: Seq<char>) -> Option<u64> {
    match member(document, name) {
        Some(JsonModel::Number(JsonNumberModel::Unsigned(n))) => Some(n),
        _ => None,
    }
}

/// What an optional text stands for.
pub open spec fn optional_view(value: Option<String>) -> Option<Seq<char>> {
    match value {
        Some(value) => Some(value@),
        None => None,
    }
}

/// What an optional text says.
pub open spec fn optional_str(value: Option<&str>) -> Option<Seq<char>> {
    match value {
        Some(value) => Some(value@),
        None => None,
    }
}

/// An optional text, empty where it is absent.
pub open spec fn or_empty(value: Option<Seq<char>>) -> Seq<char> {
    match value {
        Some(value) => value,
        None => Seq::empty(),
    }
}

/// A text that is present and not empty.
pub open spec fn nonempty(value: Option<Seq<char>>) -> Option<Seq<char>> {
    match value {
        Some(value) => if value.len() > 0 {
            Some(value)
        } else {
            None
        },
        None => None,
    }
}

/// A field that holds a text, null or nothing; `None` where it holds anything else.
pub open spec fn optional_text(field: Option<JsonModel>) -> Option<Option<Seq<char>>> {
    match field {
        None => Some(None),
        Some(JsonModel::Null) => Some(None),
        Some(JsonModel::Text(value)) => Some(Some(value)),
        Some(_) => None,
    }
}

/// A field that holds an integer of `u32`, null or nothing.
pub open spec fn optional_u32(field: Option<JsonModel>) -> Option<Option<u32>> {
    match field {
        None => Some(None),
        Some(JsonModel::Null) => Some(None),
        Some(JsonModel::Number(JsonNumberModel::Unsigned(n))) => if n <= u32::MAX {
            Some(Some(n as u32))
        } else {
            None
        },
        Some(_) => None,
    }
}

/// A field that must hold a text.
pub open spec fn required_text(field: Option<JsonModel>) -> Option<Seq<char>> {
    match field {
        Some(JsonModel::Text(value)) => Some(value),
        _ => None,
    }
}

/// Whether a field names the variant `name`: as a text, or as an object whose only member
/// is that name with null.
pub open spec fn names_variant(field: Option<JsonModel>, name: Seq<char>) -> bool {
    match field {
        Some(JsonModel::Text(value)) => value == name,
        Some(JsonModel::Object(members)) => {
            &&& members.contains_key(name)
            &&& members[name] is Null
            &&& forall|key: Seq<char>| #[trigger] members.contains_key(key) ==> key == name
        },
        _ => false,
    }
}

/// What `read` makes of every item, where it can read them all.
pub open spec fn read_all<T>(items: Seq<JsonModel>, read: spec_fn(JsonModel) -> Option<T>) -> Option<
    Seq<T>,
>
    decreases items.len(),
{
    if items.len() == 0 {
        Some(Seq::empty())
    } else {
        match (read_all(items.drop_last(), read), read(items.last())) {
            (Some(before), Some(last)) => Some(before.push(last)),
            _ => None,
        }
    }
}

/// Where one of the first items cannot be read, the list cannot.
pub proof fn lemma_read_all_fails<T>(
    items: Seq<JsonModel>,
    read: spec_fn(JsonModel) -> Option<T>,
    n: int,
)
    requires
        0 <= n <= items.len(),
        read_all(items.subrange(0, n), read) is None,
    ensures
        read_all(items, read) is None,
    decreases items.len(),
{
    if n < items.len() {
        assert(items.drop_last().subrange(0, n) =~= items.subrange(0, n));
        lemma_read_all_fails(items.drop_last(), read, n);
    } else {
        assert(items.subrange(0, n) =~= items);
    }
}

/// The items of a list field: absent stands for empty.
pub open spec fn list_items(field: Option<JsonModel>) -> Option<Seq<JsonModel>> {
    match field {
        None => Some(Seq::empty()),
        Some(JsonModel::Array(items)) => Some(items),
        Some(_) => None,
    }
}

/// Whether `json` can be a record of `arity` fields.
pub fn has_record_shape(json: &Json, arity: usize) -> (shape: bool)
    ensures
        shape == is_record(json@, arity as nat),
{
    match json {
        Json::Object(_) => true,
        Json::Array(items) => {
            proof {
                json::lemma_items(items@);
            }
            items.len() <= arity
        },
        _ => false,
    }
}

/// Where the member of `name` stands: the last one counts.
fn find_member(members: &Vec<(String, Json)>, name: &str) -> (at: Option<usize>)
    ensures
        match at {
            Some(at) => {
                &&& at < members@.len()
                &&& json::members_model(members@).contains_key(name@)
                &&& json::members_model(members@)[name@] == members@[at as int].1@
            },
            None => !json::members_model(members@).contains_key(name@),
        },
{
    let mut at: Option<usize> = None;
    let mut i: usize = 0;
    while i < members.len()
        invariant
            0 <= i <= members@.len(),
            match at {
                Some(at) => {
                    &&& at < i
                    &&& json::members_model(members@.subrange(0, i as int)).contains_key(name@)
                    &&& json::members_model(members@.subrange(0, i as int))[name@]
                        == members@[at as int].1@
                },
                None => !json::members_model(members@.subrange(0, i as int)).contains_key(name@),
            },
        decreases members@.len() - i,
    {
        proof {
            json::lemma_members_push(members@.subrange(0, i as int), members@[i as int]);
            assert(members@.subrange(0, i as int).push(members@[i as int]) =~= members@.subrange(
                0,
                i + 1,
            ));
        }
        if text::same(members[i].0.as_str(), name) {
            at = Some(i);
        }
        i += 1;
    }
    assert(members@.subrange(0, members@.len() as int) =~= members@);
    at
}

/// The field of a record that is called `name` and is its `position`-th.
pub fn field_of<'a>(json: &'a Json, position: usize, name: &str) -> (found: Option<&'a Json>)
    ensures
        field(json@, position as nat, name@) == (match found {
            Some(found) => Some(found@),
            None => None::<JsonModel>,
        }),
{
    match json {
        Json::Object(members) => match find_member(members, name) {
            Some(at) => Some(&members[at].1),
            None => None,
        },
        Json::Array(items) => {
            proof {
                json::lemma_items(items@);
            }
            if position < items.len() {
                Some(&items[position])
            } else {
                None
            }
        },
        _ => None,
    }
}

/// The member of an object that is called `name`.
pub fn member_of<'a>(json: &'a Json, name: &str) -> (found: Option<&'a Json>)
    ensures
        member(json@, name@) == (match found {
            Some(found) => Some(found@),
            None => None::<JsonModel>,
        }),
{
    match json {
        Json::Object(members) => match find_member(members, name) {
            Some(at) => Some(&members[at].1),
            None => None,
        },
        _ => None,
    }
}

/// The string member of an object that is called `name`.
pub fn text_member_of(json: &Json, name: &str) -> (found: Option<String>)
    ensures
        optional_view(found) == text_member(json@, name@),
{
    match member_of(json, name) {
        Some(Json::Text(value)) => Some(value.clone()),
        _ => None,
    }
}

/// The member of an object that is called `name` and is an integer of `u64`.
pub fn unsigned_member_of(json: &Json, name: &str) -> (found: Option<u64>)
    ensures
        found == unsigned_member(json@, name@),
{
    match member_of(json, name) {
        Some(Json::Number(JsonNumber::Unsigned(n))) => Some(*n),
        _ => None,
    }
}

/// The document of an optional field.
pub open spec fn found_model(found: Option<&Json>) -> Option<JsonModel> {
    match found {
        Some(found) => Some(found@),
        None => None,
    }
}

/// A field that holds a text, null or nothing.
pub fn read_optional_text(found: Option<&Json>) -> (read: Option<Option<String>>)
    ensures
        optional_text(found_model(found)) == (match read {
            Some(value) => Some(optional_view(value)),
            None => None,
        }),
{
    match found {
        None => Some(None),
        Some(Json::Null) => Some(None),
        Some(Json::Text(value)) => Some(Some(value.clone())),
        Some(_) => None,
    }
}

/// A field that holds an integer of `u32`, null or nothing.
pub fn read_optional_u32(found: Option<&Json>) -> (read: Option<Option<u32>>)
    ensures
        read == optional_u32(found_model(found)),
{
    match found {
        None => Some(None),
        Some(Json::Null) => Some(None),
        Some(Json::Number(JsonNumber::Unsigned(n))) => if *n <= u32::MAX as u64 {
            Some(Some(*n as u32))
        } else {
            None
        },
        Some(_) => None,
    }
}

/// A field that must hold a text.
pub fn read_required_text(found: Option<&Json>) -> (read: Option<String>)
    ensures
        optional_view(read) == required_text(found_model(found)),
{
    match found {
        Some(Json::Text(value)) => Some(value.clone()),
        _ => None,
    }
}

proof fn lemma_members_are_kept(members: Seq<(String, Json)>, i: int)
    requires
        0 <= i < members.len(),
    ensures
        json::members_model(members).contains_key(members[i].0@),
    decreases members.len(),
{
    if i < members.len() - 1 {
        lemma_members_are_kept(members.drop_last(), i);
    }
}

/// Whether no member is called otherwise than `name`.
fn are_all_named(members: &Vec<(String, Json)>, name: &str) -> (all: bool)
    ensures
        all == (forall|key: Seq<char>| #[trigger]
            json::members_model(members@).contains_key(key) ==> key == name@),
{
    let mut i: usize = 0;
    while i < members.len()
        invariant
            0 <= i <= members@.len(),
            forall|key: Seq<char>| #[trigger]
                json::members_model(members@.subrange(0, i as int)).contains_key(key) ==> key
                    == name@,
        decreases members@.len() - i,
    {
        if !text::same(members[i].0.as_str(), name) {
            proof {
                lemma_members_are_kept(members@, i as int);
            }
            return false;
        }
        proof {
            json::lemma_members_push(members@.subrange(0, i as int), members@[i as int]);
            assert(members@.subrange(0, i as int).push(members@[i as int]) =~= members@.subrange(
                0,
                i + 1,
            ));
        }
        i += 1;
    }
    assert(members@.subrange(0, members@.len() as int) =~= members@);
    true
}

/// Whether a field names the variant `name`.
pub fn is_variant_named(found: Option<&Json>, name: &str) -> (named: bool)
    ensures
        named == names_variant(found_model(found), name@),
{
    match found {
        Some(Json::Text(value)) => text::same(value.as_str(), name),
        Some(Json::Object(members)) => match find_member(members, name) {
            Some(at) => match members[at].1 {
                Json::Null => are_all_named(members, name),
                _ => false,
            },
            None => false,
        },
        _ => false,
    }
}

/// An optional text that is present and not empty.
pub fn copy_nonempty(value: &Option<String>) -> (copy: Option<String>)
    ensures
        optional_view(copy) == nonempty(optional_view(*value)),
{
    match value {
        Some(value) => if value.as_str().is_empty() {
            None
        } else {
            Some(value.clone())
        },
        None => None,
    }
}

/// The same optional text again.
pub fn copy_optional(value: &Option<String>) -> (copy: Option<String>)
    ensures
        optional_view(copy) == optional_view(*value),
{
    match value {
        Some(value) => Some(value.clone()),
        None => None,
    }
}

/// The message in an error document: a bare string, or an object's string `message`.
pub open spec fn detail_of(document: Option<JsonModel>) -> Option<Seq<char>> {
    match document {
        Some(JsonModel::Text(message)) => Some(message),
        Some(document) => text_member(document, "message"@),
        None => None,
    }
}

/// The message in an error document.
pub fn value_detail(value: Option<&Json>) -> (detail: Option<String>)
    ensures
        optional_view(detail) == detail_of(found_model(value)),
{
    match value {
        None => None,
        Some(Json::Text(message)) => Some(message.clone()),
        Some(document) => text_member_of(document, "message"),
    }
}

/// A member is found by its own name and no other, as it is; what is no object has none.
pub proof fn members_are_found_by_name(
    members: Map<Seq<char>, JsonModel>,
    name: Seq<char>,
    other: Seq<char>,
    value: JsonModel,
    text: Seq<char>,
    n: u64,
)
    ensures
        member(JsonModel::Object(members.insert(name, value)), name) == Some(value),
        other != name ==> member(JsonModel::Object(members.insert(name, value)), other) == member(
            JsonModel::Object(members),
            other,
        ),
        member(JsonModel::Object(members.remove(name)), name) is None,
        text_member(JsonModel::Object(members.insert(name, JsonModel::Text(text))), name) == Some(
            text,
        ),
        value !is Text ==> text_member(JsonModel::Object(members.insert(name, value)), name) is None,
        unsigned_member(
            JsonModel::Object(
                members.insert(name, JsonModel::Number(JsonNumberModel::Unsigned(n))),
            ),
            name,
        ) == Some(n),
        value !is Object ==> member(value, name) is None,
{
}

/// The fields of a record stand under their names in an object and at their places in a
/// list, and a list holds no more than there are.
pub proof fn fields_are_found_by_name_or_place(
    members: Map<Seq<char>, JsonModel>,
    items: Seq<JsonModel>,
    position: nat,
    name: Seq<char>,
    arity: nat,
)
    ensures
        field(JsonModel::Object(members), position, name) == member(
            JsonModel::Object(members),
            name,
        ),
        position < items.len() ==> field(JsonModel::Array(items), position, name) == Some(
            items[position as int],
        ),
        position >= items.len() ==> field(JsonModel::Array(items), position, name) is None,
        is_record(JsonModel::Object(members), arity),
        is_record(JsonModel::Array(items), arity) == (items.len() <= arity),
        !is_record(JsonModel::Null, arity),
{
}

/// A list is read exactly where each of its items is, and then item by item, in order.
pub proof fn lists_are_read_item_by_item<T>(
    items: Seq<JsonModel>,
    read: spec_fn(JsonModel) -> Option<T>,
    item: JsonModel,
    value: T,
)
    ensures
        read_all(Seq::empty(), read) == Some(Seq::<T>::empty()),
        read(item) is None ==> read_all(items.push(item), read) is None,
        read_all(items, read) is None ==> read_all(items.push(item), read) is None,
        read(item) == Some(value) ==> (read_all(items, read) matches Some(before) ==> read_all(
            items.push(item),
            read,
        ) == Some(before.push(value))),
{
    assert(items.push(item).drop_last() =~= items);
}

/// The message of an error document is a text as it is, or an object's own message.
pub proof fn details_are_the_documents_own(
    message: Seq<char>,
    members: Map<Seq<char>, JsonModel>,
)
    ensures
        detail_of(Some(JsonModel::Text(message))) == Some(message),
        detail_of(
            Some(JsonModel::Object(members.insert("message"@, JsonModel::Text(message)))),
        ) == Some(message),
        !members.contains_key("message"@) ==> detail_of(Some(JsonModel::Object(members))) is None,
        detail_of(None) is None,
{
}

/// A field is held to its kind: a text that may be absent or null, a text that may not, a
/// count of 32 bits that may be absent or null, and a list that may be absent. Nothing
/// else is read as one.
pub proof fn fields_are_held_to_their_kind(
    value: JsonModel,
    text: Seq<char>,
    n: u64,
    items: Seq<JsonModel>,
)
    ensures
        optional_text(Some(JsonModel::Text(text))) == Some(Some(text)),
        optional_text(Some(JsonModel::Null)) == Some(None::<Seq<char>>),
        optional_text(None) == Some(None::<Seq<char>>),
        value !is Text && value !is Null ==> optional_text(Some(value)) is None,
        required_text(Some(JsonModel::Text(text))) == Some(text),
        value !is Text ==> required_text(Some(value)) is None,
        required_text(None) is None,
        optional_u32(Some(JsonModel::Number(JsonNumberModel::Unsigned(n)))) == (if n
            <= 0xffff_ffff {
            Some(Some(n as u32))
        } else {
            None
        }),
        optional_u32(Some(JsonModel::Null)) == Some(None::<u32>),
        optional_u32(None) == Some(None::<u32>),
        value !is Number && value !is Null ==> optional_u32(Some(value)) is None,
        list_items(Some(JsonModel::Array(items))) == Some(items),
        list_items(None) == Some(Seq::<JsonModel>::empty()),
        value !is Array ==> list_items(Some(value)) is None,
{
}

/// A variant is named by its own name as a text, or as the one member of an object, with
/// null; by nothing else.
pub proof fn variants_are_named(name: Seq<char>, other: Seq<char>, value: JsonModel)
    ensures
        names_variant(Some(JsonModel::Text(other)), name) == (other == name),
        names_variant(
            Some(JsonModel::Object(Map::empty().insert(name, JsonModel::Null))),
            name,
        ),
        other != name ==> !names_variant(
            Some(JsonModel::Object(Map::empty().insert(other, JsonModel::Null))),
            name,
        ),
        value !is Null ==> !names_variant(
            Some(JsonModel::Object(Map::empty().insert(name, value))),
            name,
        ),
        value !is Text && value !is Object ==> !names_variant(Some(value), name),
        !names_variant(None, name),
{
}

/// A text that is empty counts as none, and none as empty; any other stays as it is.
pub proof fn empty_texts_count_as_none(text: Seq<char>)
    ensures
        nonempty(Some(text)) == (if text.len() > 0 {
            Some(text)
        } else {
            None
        }),
        nonempty(None) is None,
        or_empty(Some(text)) == text,
        or_empty(None).len() == 0,
{
}

} // verus!
