//! The tag list of a note as it is kept in storage: a JSON array of strings.
use vstd::prelude::*;
use crate::text::views_of;

verus! {

/// `serde_json::Error`, carried as an opaque value: only whether a call failed is used.
#[verifier::external_type_specification]
#[verifier::external_body]
pub struct ExJsonError(serde_json::Error);

/// The JSON text that `serde_json::to_string` writes for a list of strings.
pub uninterp spec fn tags_json(tags: Seq<Seq<char>>) -> Seq<char>;

/// The list of strings that `serde_json::from_str` reads from a text, if it is one.
pub uninterp spec fn json_tags(text: Seq<char>) -> Option<Seq<Seq<char>>>;

/// Relies on `serde_json::to_string`: writes the strings as a JSON array; the
/// text depends on the strings alone. It fails only where a `Serialize` impl
/// fails or a map has non-string keys, so never on a list of strings.
#[verifier::external_body]
fn json_from_tags(tags: &Vec<String>) -> (r: Result<String, serde_json::Error>)
    ensures
        r is Ok,
        r matches Ok(t) ==> t@ == tags_json(views_of(tags@)),
{
    serde_json::to_string(tags)
}

/// Relies on `serde_json::from_str`: reads a JSON array of strings; whether it
/// succeeds and what it reads depend on the text alone.
#[verifier::external_body]
fn tags_from_json(text: &str) -> (r: Result<Vec<String>, serde_json::Error>)
    ensures
        match r {
            Ok(v) => json_tags(text@) == Some(views_of(v@)),
            Err(_) => json_tags(text@) is None,
        },
{
    serde_json::from_str(text)
}

/// A stored tag list that could not be read as JSON.
#[derive(Debug, Clone, Copy, PartialEq, Eq, Structural)]
pub struct TagsFormatError;

impl TagsFormatError {
    pub fn message(&self) -> (r: String)
        ensures
            r@ == "tags are not a JSON list of strings"@,
    {
        crate::text::lit("tags are not a JSON list of strings")
    }
}

/// The JSON text stored for the tags `tags`.
pub fn encode_tags(tags: &Vec<String>) -> (r: String)
    ensures
        r@ == tags_json(views_of(tags@)),
{
    match json_from_tags(tags) {
        Ok(t) => t,
        Err(_) => String::new(),
    }
}

/// The tags stored as the JSON text `text`.
pub fn decode_tags(text: &str) -> (r: Result<Vec<String>, TagsFormatError>)
    ensures
        match r {
            Ok(v) => json_tags(text@) == Some(views_of(v@)),
            Err(_) => json_tags(text@) is None,
        },
{
    match tags_from_json(text) {
        Ok(v) => Ok(v),
        Err(_) => Err(TagsFormatError),
    }
}

/// The tags stored as the JSON text `text`, or none when it is not a list of strings.
pub fn decode_tags_or_empty(text: &str) -> (r: Vec<String>)
    ensures
        views_of(r@) == match json_tags(text@) {
            Some(v) => v,
            None => Seq::empty(),
        },
{
    match tags_from_json(text) {
        Ok(v) => v,
        Err(_) => {
            let r: Vec<String> = Vec::new();
            assert(views_of(r@) =~= Seq::<Seq<char>>::empty());
            r
        },
    }
}

} // verus!
