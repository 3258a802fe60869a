//! Random identifiers.
use vstd::prelude::*;
use vstd::string::*;

verus! {

/// Whether `c` is a lower-case hexadecimal digit.
pub open spec fn is_hex(c: char) -> bool {
    '0' <= c <= '9' || 'a' <= c <= 'f'
}

/// Whether `id` is a version 4 UUID in its hyphenated form.
pub open spec fn is_hyphenated(id: Seq<char>) -> bool {
    &&& id.len() == 36
    &&& id[14] == '4'
    &&& forall|i: int|
        0 <= i < 36 ==> if i == 8 || i == 13 || i == 18 || i == 23 {
            #[trigger] id[i] == '-'
        } else {
            is_hex(id[i])
        }
}

/// Whether `id` is a version 4 UUID in its simple form.
pub open spec fn is_simple(id: Seq<char>) -> bool {
    &&& id.len() == 32
    &&& id[12] == '4'
    &&& forall|i: int| 0 <= i < 32 ==> is_hex(#[trigger] id[i])
}

/// Whether `id` is `prefix` and a UUID in its simple form.
pub open spec fn is_prefixed(id: Seq<char>, prefix: Seq<char>) -> bool {
    exists|uuid: Seq<char>| is_simple(uuid) && id == prefix + uuid
}

/// Whether `id` is `prefix` and a UUID in its hyphenated form.
pub open spec fn is_call_id(id: Seq<char>, prefix: Seq<char>) -> bool {
    exists|uuid: Seq<char>| is_hyphenated(uuid) && id == prefix + uuid
}

/// Calls `uuid::Uuid::new_v4` and formats the UUID by its `Display`: 36 characters,
/// lower-case hexadecimal digits in five groups set off by hyphens, the third group
/// beginning with the version. Which UUID it is is left to chance.
#[verifier::external_body]
fn hyphenated_uuid() -> (id: String)
    ensures
        is_hyphenated(id@),
{
    uuid::Uuid::new_v4().to_string()
}

/// Calls `uuid::Uuid::new_v4` and formats the UUID by `uuid::Uuid::simple`: 32
/// lower-case hexadecimal digits, the thirteenth being the version. Which UUID it is
/// is left to chance.
#[verifier::external_body]
fn simple_uuid() -> (id: String)
    ensures
        is_simple(id@),
{
    uuid::Uuid::new_v4().simple().to_string()
}

/// `prefix` and a fresh UUID in its simple form.
pub fn mint(prefix: &str) -> (id: String)
    ensures
        is_prefixed(id@, prefix@),
{
    let uuid = simple_uuid();
    let mut id = prefix.to_owned();
    id.append(uuid.as_str());
    assert(is_simple(uuid@) && id@ == prefix@ + uuid@);
    id
}

/// An id for a call that came without one: `prefix` and a fresh UUID in its hyphenated
/// form.
pub fn mint_call_id(prefix: &str) -> (id: String)
    ensures
        is_call_id(id@, prefix@),
{
    let uuid = hyphenated_uuid();
    let mut id = prefix.to_owned();
    id.append(uuid.as_str());
    assert(is_hyphenated(uuid@) && id@ == prefix@ + uuid@);
    id
}

} // verus!
