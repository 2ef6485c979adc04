use rs_capi::reassemble::{
    aggregate_chunks, aggregate_texts, chunk_delta, clean_completion, find_marker,
    remove_controls, stream_delta_text, stream_events, StreamEvent, StreamReassembler,
};

fn texts(items: &[&str]) -> Vec<String> {
    items.iter().map(|s| s.to_string()).collect()
}

#[test]
fn three_chunk_texts_aggregate_with_the_empty_one_skipped() {
    assert_eq!(aggregate_texts(&texts(&["Hello", "", " world"])), "Hello world");
}

#[test]
fn no_chunks_aggregate_to_nothing() {
    assert_eq!(aggregate_texts(&Vec::new()), "");
    assert_eq!(aggregate_chunks(&Vec::new()), "");
}

#[test]
fn prompt_echo_is_removed_up_to_the_last_marker_of_the_first_line() {
    assert_eq!(clean_completion("x<|END_USER|>y<|END_USER|>z"), "z");
    assert_eq!(clean_completion("prompt<|END_USER|> answer"), "answer");
}

#[test]
fn marker_after_a_line_feed_is_not_an_echo() {
    assert_eq!(clean_completion("a\nb<|END_USER|>c"), "ab<|END_USER|>c");
}

#[test]
fn leading_break_and_one_letter_are_removed() {
    assert_eq!(clean_completion("prompt<|END_USER|>\nAnswer here"), "nswer here");
    assert_eq!(clean_completion("\n42 is it"), "42 is it");
    assert_eq!(clean_completion("\n\nSecond"), "Second");
}

#[test]
fn control_characters_are_removed_everywhere() {
    assert_eq!(clean_completion(" a\u{1}b\u{7f}c\td "), "abcd");
    assert_eq!(remove_controls("x\u{0}y\u{1f}z\u{80}"), "xyz\u{80}");
}

#[test]
fn chunks_aggregate_in_arrival_order() {
    let chunks = vec![
        b"meta\nHello".to_vec(),
        vec![0x01, 0x02],
        b"meta\n there\x00\x00\x00\x00\x03".to_vec(),
    ];
    assert_eq!(aggregate_chunks(&chunks), "Hellothere");
}

#[test]
fn one_chunk_or_many_give_the_same_completion() {
    let whole = vec![b"Hello world!".to_vec()];
    let split = vec![b"Hel".to_vec(), b"lo w".to_vec(), b"orld!".to_vec()];
    assert_eq!(aggregate_chunks(&whole), aggregate_chunks(&split));
    assert_eq!(aggregate_chunks(&whole), "Hello world!");
}

#[test]
fn marker_search_finds_the_first_occurrence() {
    let chars: Vec<char> = "ab<|END_USER|>cd<|END_USER|>".chars().collect();
    assert_eq!(find_marker(&chars), Some(2));
    let none: Vec<char> = "<|END_USER".chars().collect();
    assert_eq!(find_marker(&none), None);
}

#[test]
fn delta_drops_echo_and_one_leading_letter() {
    assert_eq!(stream_delta_text("<|END_USER|>  Xhello"), Some("hello".to_string()));
    assert_eq!(stream_delta_text("Hello"), Some("ello".to_string()));
    assert_eq!(stream_delta_text("1234"), Some("1234".to_string()));
    assert_eq!(stream_delta_text("é!"), Some("!".to_string()));
    assert_eq!(stream_delta_text("a b"), Some("b".to_string()));
}

#[test]
fn delta_of_nothing_is_none() {
    assert_eq!(stream_delta_text(""), None);
    assert_eq!(stream_delta_text("a"), None);
    assert_eq!(stream_delta_text("\u{1}\u{2}"), None);
    assert_eq!(stream_delta_text("echo<|END_USER|>"), None);
}

#[test]
fn chunk_delta_normalizes_first() {
    assert_eq!(chunk_delta(b"meta\n 9 lives "), Some("9 lives".to_string()));
    assert_eq!(chunk_delta(&[0x01, 0x02]), None);
}

#[test]
fn stream_has_numbered_non_empty_deltas_then_done_once() {
    let chunks = vec![
        b"x\nHello".to_vec(),
        vec![0x01, 0x02],
        b"x\n 9 lives".to_vec(),
        b"x\nb".to_vec(),
    ];
    let events = stream_events(&chunks);
    assert_eq!(events.len(), 3);
    match &events[0] {
        StreamEvent::Delta(d) => {
            assert_eq!(d.index, 0);
            assert_eq!(d.text, "ello");
        },
        StreamEvent::Done => panic!("early done"),
    }
    match &events[1] {
        StreamEvent::Delta(d) => {
            assert_eq!(d.index, 1);
            assert_eq!(d.text, "9 lives");
        },
        StreamEvent::Done => panic!("early done"),
    }
    assert!(matches!(events[2], StreamEvent::Done));
}

#[test]
fn empty_stream_is_only_done() {
    let events = stream_events(&Vec::new());
    assert_eq!(events.len(), 1);
    assert!(matches!(events[0], StreamEvent::Done));
}

#[test]
fn reassembler_counts_deltas_and_closes() {
    let mut machine = StreamReassembler::new();
    assert_eq!(machine.emitted_count(), 0);
    assert!(machine.push_chunk(&[0x02, 0x00]).is_none());
    let first = machine.push_chunk(b"x\n 1 2").unwrap();
    assert_eq!(first.index, 0);
    assert_eq!(first.text, "1 2");
    let second = machine.push_chunk(b"x\n!").unwrap_or_else(|| panic!("no delta"));
    assert_eq!(second.index, 1);
    assert_eq!(machine.emitted_count(), 2);
    assert!(!machine.is_finished());
    assert!(matches!(machine.finish(), StreamEvent::Done));
    assert!(machine.is_finished());
}

#[test]
fn single_bytes_are_too_short_to_carry_text() {
    let split: Vec<Vec<u8>> = b"Hello".iter().map(|b| vec![*b]).collect();
    assert_eq!(aggregate_chunks(&split), "");
    assert_eq!(aggregate_chunks(&vec![b"Hello".to_vec()]), "Hello");
}
