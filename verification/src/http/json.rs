//! What this client reads out of a JSON body: a member of its outermost object, as text or as a
//! count.
//!
//! The strings of such a body carry arbitrary user text, so the grammar is open, and it is read by
//! a JSON library rather than here.

use vstd::prelude::*;

verus! {

/// The text under a name in the object that a body is, where the body is JSON: nothing where it is
/// not, and an inner nothing where it is no object, holds no such name, or holds no text there.
pub uninterp spec fn json_text_at(body: Seq<u8>, name: Seq<char>) -> Option<Option<Seq<char>>>;

/// The count under a name in the object that a body is, where the body is JSON: nothing where it
/// is not, and an inner nothing where it is no object, holds no such name, or holds no whole number
/// there that sixty-four bits without a sign hold.
pub uninterp spec fn json_count_at(body: Seq<u8>, name: Seq<char>) -> Option<Option<u64>>;

/// `serde_json::from_slice` into a `serde_json::Value`, then `get` by name and `as_str`: the text
/// found, nothing inside where there is none, and nothing at all where the body is not JSON. Each
/// is a function of the body and the name alone.
#[verifier::external_body]
fn json_text(body: &[u8], name: &str) -> (found: Option<Option<String>>)
    ensures
        match found {
            Some(Some(text)) => json_text_at(body@, name@) == Some(Some(text@)),
            Some(None) => json_text_at(body@, name@) == Some(None::<Seq<char>>),
            None => json_text_at(body@, name@) is None,
        },
{
    let json: serde_json::Value = serde_json::from_slice(body).ok()?;
    Some(json.get(name).and_then(serde_json::Value::as_str).map(str::to_owned))
}

/// `serde_json::from_slice` into a `serde_json::Value`, then `get` by name and `as_u64`: the count
/// found, nothing inside where there is none, and nothing at all where the body is not JSON. Each
/// is a function of the body and the name alone.
#[verifier::external_body]
fn json_count(body: &[u8], name: &str) -> (found: Option<Option<u64>>)
    ensures
        found == json_count_at(body@, name@),
{
    let json: serde_json::Value = serde_json::from_slice(body).ok()?;
    Some(json.get(name).and_then(serde_json::Value::as_u64))
}

/// The text under a name, where a body is JSON that holds one.
pub open spec fn text_at(body: Seq<u8>, name: Seq<char>) -> Option<Seq<char>> {
    match json_text_at(body, name) {
        Some(found) => found,
        None => None,
    }
}

/// The count under a name, where a body is JSON that holds one.
pub open spec fn count_at(body: Seq<u8>, name: Seq<char>) -> Option<u64> {
    match json_count_at(body, name) {
        Some(found) => found,
        None => None,
    }
}

/// What an optional text says.
pub open spec fn said(text: Option<String>) -> Option<Seq<char>> {
    match text {
        Some(text) => Some(text@),
        None => None,
    }
}

/// The text under a name.
///
/// A body that is not JSON and one that holds no such text are the same answer: both mean that
/// this build cannot read what arrived.
pub(crate) fn find_text(body: &[u8], name: &str) -> (found: Option<String>)
    ensures
        said(found) == text_at(body@, name@),
{
    match json_text(body, name) {
        Some(found) => found,
        None => None,
    }
}

/// The count under a name.
pub(crate) fn find_count(body: &[u8], name: &str) -> (found: Option<u64>)
    ensures
        found == count_at(body@, name@),
{
    match json_count(body, name) {
        Some(found) => found,
        None => None,
    }
}

/// Text and counts are taken of a body as the library that reads it gives them, and a body that is
/// no JSON gives neither.
pub proof fn law_members_are_taken_as_they_are(body: Seq<u8>, name: Seq<char>)
    ensures
        json_text_at(body, name) matches Some(found) ==> text_at(body, name) == found,
        json_text_at(body, name) is None ==> text_at(body, name) is None,
        json_count_at(body, name) matches Some(found) ==> count_at(body, name) == found,
        json_count_at(body, name) is None ==> count_at(body, name) is None,
{
}

}
