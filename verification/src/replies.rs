//! What the outside services answer: the place in a JSON document where
//! the text of a completion or the address of a picture stands, and what
//! is said when it does not stand there.
//!
//! The caller parses the body of the answer and hands over the document.

use vstd::prelude::*;

verus! {

/// A JSON document, as far as the answers are read: texts, arrays and
/// objects. Numbers, booleans and null are all `Other`.
#[derive(Debug)]
pub enum JsonValue {
    Text(String),
    Array(Vec<JsonValue>),
    Object(Vec<(String, JsonValue)>),
    Other,
}

/// The value of the first entry with the given key.
pub open spec fn first_entry(entries: Seq<(String, JsonValue)>, key: Seq<char>) -> Option<JsonValue>
    decreases entries.len(),
{
    if entries.len() == 0 {
        None
    } else if entries[0].0@ == key {
        Some(entries[0].1)
    } else {
        first_entry(entries.drop_first(), key)
    }
}

/// The member of an object under a key. Anything but an object has no
/// members.
pub open spec fn member(value: JsonValue, key: Seq<char>) -> Option<JsonValue> {
    match value {
        JsonValue::Object(entries) => first_entry(entries@, key),
        _ => None,
    }
}

/// The element of an array at an index. Anything but an array has no
/// elements.
pub open spec fn element(value: JsonValue, index: int) -> Option<JsonValue> {
    match value {
        JsonValue::Array(items) => if 0 <= index < items@.len() {
            Some(items@[index])
        } else {
            None
        },
        _ => None,
    }
}

/// The text of a value that is a text.
pub open spec fn text_of(value: JsonValue) -> Option<Seq<char>> {
    match value {
        JsonValue::Text(text) => Some(text@),
        _ => None,
    }
}

/// The member of an object under a key.
pub fn get_member<'a>(value: &'a JsonValue, key: &str) -> (r: Option<&'a JsonValue>)
    ensures
        match r {
            Some(found) => member(*value, key@) == Some(*found),
            None => member(*value, key@) is None,
        },
{
    match value {
        JsonValue::Object(entries) => {
            let wanted = key.to_owned();
            let mut i: usize = 0;
            assert(entries@.skip(0) =~= entries@);
            while i < entries.len()
                invariant
                    0 <= i <= entries.len(),
                    wanted@ == key@,
                    *value == JsonValue::Object(*entries),
                    first_entry(entries@, key@) == first_entry(entries@.skip(i as int), key@),
                decreases entries.len() - i,
            {
                let ghost rest = entries@.skip(i as int);
                assert(rest[0] == entries@[i as int]);
                assert(rest.drop_first() =~= entries@.skip(i as int + 1));
                if entries[i].0 == wanted {
                    assert(first_entry(rest, key@) == Some(entries@[i as int].1));
                    return Some(&entries[i].1);
                }
                assert(first_entry(rest, key@) == first_entry(rest.drop_first(), key@));
                i += 1;
            }
            assert(entries@.skip(i as int).len() == 0);
            None
        },
        _ => None,
    }
}

/// The element of an array at an index.
pub fn get_element<'a>(value: &'a JsonValue, index: usize) -> (r: Option<&'a JsonValue>)
    ensures
        match r {
            Some(found) => element(*value, index as int) == Some(*found),
            None => element(*value, index as int) is None,
        },
{
    match value {
        JsonValue::Array(items) => {
            if index < items.len() {
                Some(&items[index])
            } else {
                None
            }
        },
        _ => None,
    }
}

/// The text of a value that is a text.
pub fn get_text(value: &JsonValue) -> (r: Option<String>)
    ensures
        match r {
            Some(text) => text_of(*value) == Some(text@),
            None => text_of(*value) is None,
        },
{
    match value {
        JsonValue::Text(text) => Some(text.clone()),
        _ => None,
    }
}

/// Why an answer of the text service holds no completion.
#[derive(Clone, Copy, Debug, PartialEq, Eq, Structural)]
pub enum ChatReplyError {
    NoChoices,
    NoFirstChoice,
    NoMessage,
    NoContent,
    ContentNotText,
}

/// Why an answer of the image service holds no address.
#[derive(Clone, Copy, Debug, PartialEq, Eq, Structural)]
pub enum ImageReplyError {
    NoData,
    NoFirstElement,
    NoUrl,
}

/// The completion in an answer of the text service: the text at
/// `choices[0].message.content`.
pub open spec fn chat_reply(body: JsonValue) -> Result<Seq<char>, ChatReplyError> {
    match member(body, "choices"@) {
        None => Err(ChatReplyError::NoChoices),
        Some(choices) => match element(choices, 0) {
            None => Err(ChatReplyError::NoFirstChoice),
            Some(first) => match member(first, "message"@) {
                None => Err(ChatReplyError::NoMessage),
                Some(message) => match member(message, "content"@) {
                    None => Err(ChatReplyError::NoContent),
                    Some(content) => match text_of(content) {
                        None => Err(ChatReplyError::ContentNotText),
                        Some(text) => Ok(text),
                    },
                },
            },
        },
    }
}

/// The address in an answer of the image service: the text at
/// `data[0].url`.
pub open spec fn image_reply(body: JsonValue) -> Result<Seq<char>, ImageReplyError> {
    match member(body, "data"@) {
        None => Err(ImageReplyError::NoData),
        Some(data) => match element(data, 0) {
            None => Err(ImageReplyError::NoFirstElement),
            Some(first) => match member(first, "url"@) {
                None => Err(ImageReplyError::NoUrl),
                Some(url) => match text_of(url) {
                    None => Err(ImageReplyError::NoUrl),
                    Some(text) => Ok(text),
                },
            },
        },
    }
}

/// Reads the completion out of an answer of the text service.
pub fn chat_completion_text(body: &JsonValue) -> (r: Result<String, ChatReplyError>)
    ensures
        match r {
            Ok(text) => chat_reply(*body) == Ok::<_, ChatReplyError>(text@),
            Err(e) => chat_reply(*body) == Err::<Seq<char>, _>(e),
        },
{
    let choices = match get_member(body, "choices") {
        Some(choices) => choices,
        None => {
            return Err(ChatReplyError::NoChoices);
        },
    };
    let first = match get_element(choices, 0) {
        Some(first) => first,
        None => {
            return Err(ChatReplyError::NoFirstChoice);
        },
    };
    let message = match get_member(first, "message") {
        Some(message) => message,
        None => {
            return Err(ChatReplyError::NoMessage);
        },
    };
    let content = match get_member(message, "content") {
        Some(content) => content,
        None => {
            return Err(ChatReplyError::NoContent);
        },
    };
    match get_text(content) {
        Some(text) => Ok(text),
        None => Err(ChatReplyError::ContentNotText),
    }
}

/// Reads the address of the picture out of an answer of the image
/// service.
pub fn image_url_text(body: &JsonValue) -> (r: Result<String, ImageReplyError>)
    ensures
        match r {
            Ok(text) => image_reply(*body) == Ok::<_, ImageReplyError>(text@),
            Err(e) => image_reply(*body) == Err::<Seq<char>, _>(e),
        },
{
    let data = match get_member(body, "data") {
        Some(data) => data,
        None => {
            return Err(ImageReplyError::NoData);
        },
    };
    let first = match get_element(data, 0) {
        Some(first) => first,
        None => {
            return Err(ImageReplyError::NoFirstElement);
        },
    };
    let url = match get_member(first, "url") {
        Some(url) => url,
        None => {
            return Err(ImageReplyError::NoUrl);
        },
    };
    match get_text(url) {
        Some(text) => Ok(text),
        None => Err(ImageReplyError::NoUrl),
    }
}

impl ChatReplyError {
    /// What is said of the failure. `rendered` is the document as text.
    pub open spec fn spec_message(self, rendered: Seq<char>) -> Seq<char> {
        match self {
            ChatReplyError::NoChoices => "Failed to get completions choices: "@ + rendered,
            ChatReplyError::NoFirstChoice => "Failed to get first element of choices"@,
            ChatReplyError::NoMessage => "Failed to get message"@,
            ChatReplyError::NoContent => "Failed to get message content"@,
            ChatReplyError::ContentNotText => "Failed to get content as string"@,
        }
    }

    /// What is said of the failure. `rendered` is the document as text.
    pub fn message(&self, rendered: &str) -> (s: String)
        ensures
            s@ == self.spec_message(rendered@),
    {
        match self {
            ChatReplyError::NoChoices => {
                let mut s = String::from_str("Failed to get completions choices: ");
                s.append(rendered);
                s
            },
            ChatReplyError::NoFirstChoice => String::from_str(
                "Failed to get first element of choices",
            ),
            ChatReplyError::NoMessage => String::from_str("Failed to get message"),
            ChatReplyError::NoContent => String::from_str("Failed to get message content"),
            ChatReplyError::ContentNotText => String::from_str("Failed to get content as string"),
        }
    }
}

impl ImageReplyError {
    /// What is said of the failure. `rendered` is the document as text.
    pub open spec fn spec_message(self, rendered: Seq<char>) -> Seq<char> {
        match self {
            ImageReplyError::NoData => "Failed to get data "@ + rendered,
            ImageReplyError::NoFirstElement => "Failed to get data"@,
            ImageReplyError::NoUrl => "Failed to get url"@,
        }
    }

    /// What is said of the failure. `rendered` is the document as text.
    pub fn message(&self, rendered: &str) -> (s: String)
        ensures
            s@ == self.spec_message(rendered@),
    {
        match self {
            ImageReplyError::NoData => {
                let mut s = String::from_str("Failed to get data ");
                s.append(rendered);
                s
            },
            ImageReplyError::NoFirstElement => String::from_str("Failed to get data"),
            ImageReplyError::NoUrl => String::from_str("Failed to get url"),
        }
    }
}

} // verus!
