//! Replies of the translation service.

use crate::codec::{parse_document, parsed_json};
use crate::json::{find_key, lemma_array_view, Json, JsonValue};
use vstd::prelude::*;

verus! {

/// The translation that a reply document holds: the text at the head of the
/// array under `translation`. A document that is no object, or has no such
/// entry, or has something other than an array there, or an empty array, or
/// an array that begins with something other than a text, holds none.
pub open spec fn translation_in(doc: Json) -> Option<Seq<char>> {
    match doc {
        Json::Object(entries) => match find_key(entries, "translation"@) {
            Some(Json::Array(items)) => if items.len() > 0 {
                match items[0] {
                    Json::Text(text) => Some(text),
                    _ => None,
                }
            } else {
                None
            },
            _ => None,
        },
        _ => None,
    }
}

/// The translation that the body of a reply holds, if the body is JSON and
/// its document holds one.
pub open spec fn reply_translation(body: Seq<char>) -> Option<Seq<char>> {
    match parsed_json(body) {
        Some(doc) => translation_in(doc),
        None => None,
    }
}

/// Takes the translation out of a reply document.
pub fn first_translation(doc: &JsonValue) -> (r: Option<String>)
    ensures
        match r {
            Some(text) => translation_in(doc@) == Some(text@),
            None => translation_in(doc@).is_none(),
        },
{
    match doc.get("translation") {
        Some(JsonValue::Array(items)) => {
            proof {
                lemma_array_view(*items);
            }
            if items.len() > 0 {
                match &items[0] {
                    JsonValue::Text(text) => Some(text.clone()),
                    _ => None,
                }
            } else {
                None
            }
        },
        _ => None,
    }
}

/// Takes the translation out of the body of a reply.
pub fn read_translation(body: &str) -> (r: Option<String>)
    ensures
        match r {
            Some(text) => reply_translation(body@) == Some(text@),
            None => reply_translation(body@).is_none(),
        },
{
    match parse_document(body) {
        Ok(doc) => first_translation(&doc),
        Err(_) => None,
    }
}

} // verus!
