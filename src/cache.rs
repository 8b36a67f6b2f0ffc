//! JSON text of what is kept on disk between sessions.
use crate::latest::texts;
use vstd::prelude::*;

verus! {

/// The JSON text serde_json writes for a list of strings.
pub uninterp spec fn json_of_texts(v: Seq<Seq<char>>) -> Seq<char>;

/// The list of strings serde_json reads from a JSON text, if it holds one.
pub uninterp spec fn texts_of_json(s: Seq<char>) -> Option<Seq<Seq<char>>>;

/// Relies on `serde_json::to_string`: the JSON array of the given strings.
/// It fails only for a `Serialize` impl that fails or a map with non-string
/// keys, and a list of strings has neither.
#[verifier::external_body]
pub(crate) fn texts_to_json(v: &Vec<String>) -> (r: String)
    ensures
        r@ == json_of_texts(texts(v@)),
{
    serde_json::to_string(v).unwrap_or_default()
}

/// Relies on `serde_json::from_str::<Vec<String>>`: the strings of a JSON
/// array, or an error when the text holds no such array.
#[verifier::external_body]
pub(crate) fn texts_from_json(s: &str) -> (r: Option<Vec<String>>)
    ensures
        match r {
            Some(v) => texts_of_json(s@) == Some(texts(v@)),
            None => texts_of_json(s@) is None,
        },
{
    serde_json::from_str::<Vec<String>>(s).ok()
}

} // verus!
