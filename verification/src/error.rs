//! What can go wrong in a translation run.

use crate::json::texts_model;
use vstd::prelude::*;

verus! {

/// The failures of a translation run.
#[derive(Debug, PartialEq, Eq)]
pub enum TranslateError {
    /// The input is not a JSON document.
    InvalidInputDocument,
    /// The translation service did not answer with a translation: its reply
    /// is not JSON, or holds no text at the head of a `translation` array, or
    /// the request never reached it.
    TranslationService {
        /// The keys that lead to the text that was being translated.
        key_path: Vec<String>,
        /// The text that was being translated.
        source: String,
        /// The language it was to be translated to.
        target_lang: String,
        /// What came back, as it came.
        raw_response: String,
    },
}

/// The line that reports a failed translation: what came back, the text that
/// was being translated and the language it was to be translated to,
/// separated by commas.
pub open spec fn failure_line(
    raw_response: Seq<char>,
    source: Seq<char>,
    target_lang: Seq<char>,
) -> Seq<char> {
    raw_response + ","@ + source + ","@ + target_lang
}

impl TranslateError {
    /// A line that reports the failure.
    pub fn describe(&self) -> (line: String)
        ensures
            match *self {
                TranslateError::InvalidInputDocument => line@ == "input is not a JSON document"@,
                TranslateError::TranslationService { source, target_lang, raw_response, .. } => {
                    line@ == failure_line(raw_response@, source@, target_lang@)
                },
            },
    {
        match self {
            TranslateError::InvalidInputDocument => {
                String::from_str("input is not a JSON document")
            },
            TranslateError::TranslationService { source, target_lang, raw_response, .. } => {
                let mut line = raw_response.clone();
                line.append(",");
                line.append(source.as_str());
                line.append(",");
                line.append(target_lang.as_str());
                line
            },
        }
    }
}

/// `e` reports that the service gave no translation for the text `source`
/// at `key_path`, which was to be translated to `target_lang`, and that
/// `raw_response` came back instead.
pub open spec fn is_service_failure(
    e: TranslateError,
    key_path: Seq<Seq<char>>,
    source: Seq<char>,
    target_lang: Seq<char>,
    raw_response: Seq<char>,
) -> bool {
    match e {
        TranslateError::TranslationService {
            key_path: path,
            source: text,
            target_lang: target,
            raw_response: raw,
        } => {
            &&& texts_model(path@) == key_path
            &&& text@ == source
            &&& target@ == target_lang
            &&& raw@ == raw_response
        },
        _ => false,
    }
}

} // verus!
