//! What is made of the body of a response before it is shown.

use crate::text::chars_of;
use crate::text::has_prefix;
use crate::text::is_white_space;
use crate::text::matches_at;
use crate::text::white_space;
use crate::value::JsonValue;
use crate::value::json_document;
use vstd::prelude::*;

verus! {

/// The language that a body is shown in.
#[derive(Debug, Clone, Copy, PartialEq, Eq, Structural)]
pub enum Language {
    Json,
    Html,
    Plain,
}

/// Whether every character of `body` is white space.
pub open spec fn blank(body: Seq<char>) -> bool {
    forall|i: int| 0 <= i < body.len() ==> white_space(#[trigger] body[i])
}

/// The language of a body: JSON where it reads as a document, HTML where it
/// begins with `<`, and none in particular otherwise.
pub open spec fn language_of(body: Seq<char>) -> Language {
    if json_document(body) is Ok {
        Language::Json
    } else if has_prefix(body, "<"@) {
        Language::Html
    } else {
        Language::Plain
    }
}

/// Tells whether `body` holds nothing but white space.
pub fn is_blank(body: &str) -> (b: bool)
    ensures
        b == blank(body@),
{
    let chars = chars_of(body);
    let mut i: usize = 0;
    while i < chars.len()
        invariant
            i <= chars.len(),
            chars@ == body@,
            forall|j: int| 0 <= j < i ==> white_space(#[trigger] chars@[j]),
        decreases chars.len() - i,
    {
        if !is_white_space(chars[i]) {
            return false;
        }
        i += 1;
    }
    true
}

/// The language of a body that was read as a document with the result
/// `document`, or could not be.
pub fn language_after(body: &str, reads_as_document: bool) -> (language: Language)
    ensures
        language == if reads_as_document {
            Language::Json
        } else if has_prefix(body@, "<"@) {
            Language::Html
        } else {
            Language::Plain
        },
{
    if reads_as_document {
        Language::Json
    } else if matches_at(&chars_of(body), &chars_of("<"), 0) {
        Language::Html
    } else {
        Language::Plain
    }
}

/// The language to show `body` in.
pub fn response_language(body: &str) -> (language: Language)
    ensures
        language == language_of(body@),
{
    let reads = JsonValue::parse(body).is_ok();
    language_after(body, reads)
}

} // verus!
