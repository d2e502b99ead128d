//! Reading one string member out of a JSON document.

use vstd::prelude::*;

verus! {

/// `serde_json::Error`, carried unchanged as the cause of a parse failure.
#[verifier::external_type_specification]
#[verifier::external_body]
pub struct ExJsonError(serde_json::Error);

/// For the JSON document `document`: `None` when it does not parse;
/// otherwise `Some` of the text of its member `member` when the document is an
/// object whose member `member` is a string, and `Some(None)` when it is not.
pub uninterp spec fn json_member_text(document: Seq<u8>, member: Seq<char>) -> Option<Option<Seq<char>>>;

/// `serde_json::from_slice` into a `serde_json::Value`, then the string
/// member `member` of it (`value[member].as_str()`). Whether the document
/// parses, and what the member holds, is named by `json_member_text`.
#[verifier::external_body]
pub(crate) fn json_str_member(document: &[u8], member: &str) -> (r: Result<Option<String>, serde_json::Error>)
    ensures
        r is Ok <==> json_member_text(document@, member@) is Some,
        r matches Ok(Some(s)) ==> json_member_text(document@, member@) == Some(Some(s@)),
        r matches Ok(None) ==> json_member_text(document@, member@) == Some(None::<Seq<char>>),
{
    let value: serde_json::Value = serde_json::from_slice(document)?;
    Ok(value[member].as_str().map(|s| s.to_string()))
}

} // verus!
