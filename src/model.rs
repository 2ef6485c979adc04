//! The request and response data: a conversation of messages made of text
//! and image parts, and the completion objects sent back.

use crate::text::push_char;
use vstd::prelude::*;
use vstd::string::StringExecFns;

verus! {

/// One message of a conversation: who spoke, and what, in parts.
#[derive(Debug)]
pub struct Message {
    pub role: String,
    pub content: Vec<ContentPart>,
}

/// A value given either alone or as a list.
#[derive(Debug)]
pub enum SingleOrVec<T> {
    Single(T),
    Vec(Vec<T>),
}

/// One item of message content as a client may send it: a bare string or
/// a tagged part.
#[derive(Debug)]
pub enum ContentItem {
    String(String),
    Part(ContentPart),
}

/// One part of a message: text, or a reference to an image.
#[derive(Debug)]
pub enum ContentPart {
    Text { text: String },
    ImageUrl { image_url: ImageUrl },
}

/// Where an image referenced by a message is found.
#[derive(Debug)]
pub struct ImageUrl {
    pub url: String,
}

/// A chat completion request.
#[derive(Debug)]
pub struct ChatRequest {
    pub model: String,
    pub messages: Vec<Message>,
    pub stream: bool,
}

/// A complete, non-streamed completion.
#[derive(Debug)]
pub struct ChatResponse {
    pub id: String,
    pub object: String,
    pub created: i64,
    pub model: String,
    pub choices: Vec<Choice>,
    pub usage: Usage,
}

/// One choice of a complete completion.
#[derive(Debug)]
pub struct Choice {
    pub index: i32,
    pub message: ResponseMessage,
    pub finish_reason: String,
}

/// The message of a choice.
#[derive(Debug)]
pub struct ResponseMessage {
    pub role: String,
    pub content: String,
}

/// Token counts; the backend reports none, so they stay zero.
#[derive(Debug)]
pub struct Usage {
    pub prompt_tokens: i32,
    pub completion_tokens: i32,
    pub total_tokens: i32,
}

/// One chunk of a streamed completion.
#[derive(Debug)]
pub struct StreamResponse {
    pub id: String,
    pub object: String,
    pub created: i64,
    pub choices: Vec<StreamChoice>,
}

/// One choice of a streamed chunk.
#[derive(Debug)]
pub struct StreamChoice {
    pub index: i32,
    pub delta: Delta,
}

/// The new text that a streamed chunk carries.
#[derive(Debug)]
pub struct Delta {
    pub content: String,
}

/// The part that a content item stands for: a bare string is a text part.
pub open spec fn item_part(item: ContentItem) -> ContentPart {
    match item {
        ContentItem::String(s) => ContentPart::Text { text: s },
        ContentItem::Part(p) => p,
    }
}

/// The parts that message content stands for, in order.
pub open spec fn parts_of(content: SingleOrVec<ContentItem>) -> Seq<ContentPart> {
    match content {
        SingleOrVec::Single(item) => seq![item_part(item)],
        SingleOrVec::Vec(items) => items@.map_values(|item: ContentItem| item_part(item)),
    }
}

/// The part that one content item stands for.
pub fn into_part(item: ContentItem) -> (r: ContentPart)
    ensures
        r == item_part(item),
{
    match item {
        ContentItem::String(s) => ContentPart::Text { text: s },
        ContentItem::Part(p) => p,
    }
}

/// Message content as a list of parts: one item becomes a list of one, and
/// each bare string becomes a text part.
pub fn content_parts(content: SingleOrVec<ContentItem>) -> (r: Vec<ContentPart>)
    ensures
        r@ == parts_of(content),
{
    match content {
        SingleOrVec::Single(item) => {
            let mut out: Vec<ContentPart> = Vec::new();
            out.push(into_part(item));
            assert(out@ =~= seq![item_part(item)]);
            out
        },
        SingleOrVec::Vec(items) => {
            let ghost all = items@;
            let mut out: Vec<ContentPart> = Vec::new();
            for item in it: items
                invariant
                    it.seq() == all,
                    out@ == it.history().map_values(|i: ContentItem| item_part(i)),
            {
                let ghost before = out@;
                out.push(into_part(item));
                assert(out@ =~= it.history().push(item).map_values(|i: ContentItem| item_part(i)));
            }
            assert(out@ =~= all.map_values(|i: ContentItem| item_part(i)));
            out
        },
    }
}

/// `[Image: `, the opening of an image placeholder.
pub open spec fn image_opening() -> Seq<char> {
    seq!['[', 'I', 'm', 'a', 'g', 'e', ':', ' ']
}

/// How a part reads in a transcript: text as itself, an image as a
/// bracketed placeholder holding its address.
pub open spec fn rendered(p: ContentPart) -> Seq<char> {
    match p {
        ContentPart::Text { text } => text@,
        ContentPart::ImageUrl { image_url } => image_opening() + image_url.url@ + seq![']'],
    }
}

impl ContentPart {
    /// How this part reads in a transcript.
    pub fn render(&self) -> (r: String)
        ensures
            r@ == rendered(*self),
    {
        match self {
            ContentPart::Text { text } => text.clone(),
            ContentPart::ImageUrl { image_url } => {
                let mut out = String::new();
                proof {
                    reveal_strlit("[Image: ");
                }
                out.append("[Image: ");
                out.append(image_url.url.as_str());
                push_char(&mut out, ']');
                out
            },
        }
    }
}

} // verus!
