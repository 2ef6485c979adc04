use rs_capi::reassemble::TextDelta;
use rs_capi::respond::{
    completion_id, completion_response, new_completion_id, new_completion_response, stream_chunk,
    stream_chunk_now, DONE_SENTINEL,
};

#[test]
fn completion_has_one_stopped_assistant_choice_and_no_usage() {
    let r = completion_response("id-1".to_string(), 17, "gpt-4".to_string(), "Hi".to_string());
    assert_eq!(r.id, "id-1");
    assert_eq!(r.object, "chat.completion");
    assert_eq!(r.created, 17);
    assert_eq!(r.model, "gpt-4");
    assert_eq!(r.choices.len(), 1);
    assert_eq!(r.choices[0].index, 0);
    assert_eq!(r.choices[0].message.role, "assistant");
    assert_eq!(r.choices[0].message.content, "Hi");
    assert_eq!(r.choices[0].finish_reason, "stop");
    assert_eq!((r.usage.prompt_tokens, r.usage.completion_tokens, r.usage.total_tokens), (0, 0, 0));
}

#[test]
fn chunk_carries_the_delta_text() {
    let delta = TextDelta { index: 3, text: "more".to_string() };
    let r = stream_chunk("id-2".to_string(), 5, delta);
    assert_eq!(r.id, "id-2");
    assert_eq!(r.object, "chat.completion.chunk");
    assert_eq!(r.created, 5);
    assert_eq!(r.choices.len(), 1);
    assert_eq!(r.choices[0].index, 0);
    assert_eq!(r.choices[0].delta.content, "more");
}

#[test]
fn identifiers_have_the_prefix_and_a_uuid() {
    assert_eq!(completion_id("abc"), "chatcmpl-abc");
    let a = new_completion_id();
    let b = new_completion_id();
    assert!(a.starts_with("chatcmpl-"));
    assert_eq!(a.len(), 45);
    assert_eq!(a.matches('-').count(), 5);
    assert_ne!(a, b);
}

#[test]
fn fresh_completion_and_chunk() {
    let r = new_completion_response("m".to_string(), "t".to_string());
    assert!(r.id.starts_with("chatcmpl-"));
    assert!(r.created > 1_600_000_000);
    assert_eq!(r.choices[0].message.content, "t");
    let id = new_completion_id();
    let c = stream_chunk_now(&id, TextDelta { index: 0, text: "x".to_string() });
    assert_eq!(c.id, id);
    assert!(c.created > 1_600_000_000);
}

#[test]
fn stream_ends_with_the_done_sentinel() {
    assert_eq!(DONE_SENTINEL, "[DONE]");
}
