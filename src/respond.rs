//! The response formatter: completion objects and stream chunks in the
//! OpenAI-compatible shape.

use crate::model::{ChatResponse, Choice, Delta, ResponseMessage, StreamChoice, StreamResponse, Usage};
use crate::reassemble::TextDelta;
use vstd::prelude::*;
use vstd::string::StringExecFns;

verus! {

/// The sentinel that closes a stream, in place of a chunk.
pub const DONE_SENTINEL: &'static str = "[DONE]";

/// The object type of a complete completion.
pub const COMPLETION_OBJECT: &'static str = "chat.completion";

/// The object type of a stream chunk.
pub const CHUNK_OBJECT: &'static str = "chat.completion.chunk";

/// The role of the answering side.
pub const ASSISTANT_ROLE: &'static str = "assistant";

/// The reason every completion ends with.
pub const FINISH_REASON: &'static str = "stop";

/// The prefix of every completion identifier.
pub const ID_PREFIX: &'static str = "chatcmpl-";

/// A completion identifier made from a unique text.
pub fn completion_id(unique: &str) -> (r: String)
    ensures
        r@ == ID_PREFIX@ + unique@,
{
    let mut id = String::from_str(ID_PREFIX);
    id.append(unique);
    id
}

/// Relies on `uuid::Uuid::new_v4` and its `Display`: a random UUID in the
/// hyphenated form, 36 characters.
#[verifier::external_body]
fn random_uuid_text() -> (r: String)
    ensures
        r@.len() == 36,
{
    uuid::Uuid::new_v4().to_string()
}

/// A fresh completion identifier: the prefix and a random UUID.
pub fn new_completion_id() -> (r: String)
    ensures
        exists|u: Seq<char>| u.len() == 36 && r@ == ID_PREFIX@ + u,
{
    let unique = random_uuid_text();
    let id = completion_id(unique.as_str());
    assert(unique@.len() == 36 && id@ == ID_PREFIX@ + unique@);
    id
}

/// Relies on `chrono::Utc::now` and `DateTime::timestamp`: the current time
/// in whole seconds since the Unix epoch.
#[verifier::external_body]
fn unix_seconds() -> (r: i64) {
    chrono::Utc::now().timestamp()
}

/// The complete completion for aggregated text: one choice, from the
/// assistant, finished by `stop`, with zero token counts.
pub fn completion_response(id: String, created: i64, model: String, text: String)
    -> (r: ChatResponse)
    ensures
        r.id == id,
        r.object@ == COMPLETION_OBJECT@,
        r.created == created,
        r.model == model,
        r.choices@.len() == 1,
        r.choices@[0].index == 0,
        r.choices@[0].message.role@ == ASSISTANT_ROLE@,
        r.choices@[0].message.content == text,
        r.choices@[0].finish_reason@ == FINISH_REASON@,
        r.usage.prompt_tokens == 0,
        r.usage.completion_tokens == 0,
        r.usage.total_tokens == 0,
{
    let mut choices: Vec<Choice> = Vec::new();
    choices.push(
        Choice {
            index: 0,
            message: ResponseMessage { role: String::from_str(ASSISTANT_ROLE), content: text },
            finish_reason: String::from_str(FINISH_REASON),
        },
    );
    ChatResponse {
        id,
        object: String::from_str(COMPLETION_OBJECT),
        created,
        model,
        choices,
        usage: Usage { prompt_tokens: 0, completion_tokens: 0, total_tokens: 0 },
    }
}

/// The stream chunk that carries one delta: the stream's identifier, one
/// choice at index zero, and the delta's text without a role.
pub fn stream_chunk(id: String, created: i64, delta: TextDelta) -> (r: StreamResponse)
    ensures
        r.id == id,
        r.object@ == CHUNK_OBJECT@,
        r.created == created,
        r.choices@.len() == 1,
        r.choices@[0].index == 0,
        r.choices@[0].delta.content == delta.text,
{
    let mut choices: Vec<StreamChoice> = Vec::new();
    choices.push(StreamChoice { index: 0, delta: Delta { content: delta.text } });
    StreamResponse { id, object: String::from_str(CHUNK_OBJECT), created, choices }
}

/// The complete completion for aggregated text, under a fresh identifier
/// and stamped with the current time.
pub fn new_completion_response(model: String, text: String) -> (r: ChatResponse)
    ensures
        exists|u: Seq<char>| u.len() == 36 && r.id@ == ID_PREFIX@ + u,
        r.object@ == COMPLETION_OBJECT@,
        r.model == model,
        r.choices@.len() == 1,
        r.choices@[0].index == 0,
        r.choices@[0].message.role@ == ASSISTANT_ROLE@,
        r.choices@[0].message.content == text,
        r.choices@[0].finish_reason@ == FINISH_REASON@,
        r.usage.prompt_tokens == 0,
        r.usage.completion_tokens == 0,
        r.usage.total_tokens == 0,
{
    let id = new_completion_id();
    completion_response(id, unix_seconds(), model, text)
}

/// The stream chunk for one delta of the stream `id`, stamped with the
/// current time.
pub fn stream_chunk_now(id: &String, delta: TextDelta) -> (r: StreamResponse)
    ensures
        r.id == *id,
        r.object@ == CHUNK_OBJECT@,
        r.choices@.len() == 1,
        r.choices@[0].index == 0,
        r.choices@[0].delta.content == delta.text,
{
    stream_chunk(id.clone(), unix_seconds(), delta)
}

} // verus!
