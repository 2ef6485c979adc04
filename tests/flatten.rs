use rs_capi::flatten::{flatten_messages, join_content, message_text};
use rs_capi::model::{ContentPart, ImageUrl, Message};

fn text(t: &str) -> ContentPart {
    ContentPart::Text { text: t.to_string() }
}

fn image(url: &str) -> ContentPart {
    ContentPart::ImageUrl { image_url: ImageUrl { url: url.to_string() } }
}

fn message(role: &str, content: Vec<ContentPart>) -> Message {
    Message { role: role.to_string(), content }
}

#[test]
fn one_line_per_message() {
    let messages = vec![
        message("user", vec![text("Hello")]),
        message("user", vec![text("Look at this image"), image("https://example.com/image.jpg")]),
        message("assistant", vec![text("A cat.")]),
    ];
    let transcript = flatten_messages(&messages);
    assert_eq!(
        transcript,
        "user:Hello\nuser:Look at this image, [Image: https://example.com/image.jpg]\nassistant:A cat."
    );
    assert_eq!(transcript.lines().count(), messages.len());
    assert!(!transcript.ends_with('\n'));
}

#[test]
fn single_message_has_no_separator() {
    let messages = vec![message("user", vec![text("Hi")])];
    assert_eq!(flatten_messages(&messages), "user:Hi");
}

#[test]
fn no_messages_give_an_empty_transcript() {
    assert_eq!(flatten_messages(&Vec::new()), "");
}

#[test]
fn empty_content_leaves_role_and_colon() {
    assert_eq!(message_text(&message("system", Vec::new())), "system:");
    assert_eq!(join_content(&Vec::new()), "");
}

#[test]
fn parts_are_joined_by_comma_and_space() {
    assert_eq!(join_content(&vec![text("a"), text(""), image("b")]), "a, , [Image: b]");
}
