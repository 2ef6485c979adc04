use rs_capi::request::{bearer_token, check_stream_mode, reasoning_only, BridgeError};

#[test]
fn streaming_reasoning_model_is_rejected() {
    assert_eq!(check_stream_mode("o1-preview", true), Err(BridgeError::UnsupportedStreamingMode));
}

#[test]
fn other_combinations_pass() {
    assert_eq!(check_stream_mode("o1-preview", false), Ok(()));
    assert_eq!(check_stream_mode("gpt-4", true), Ok(()));
    assert_eq!(check_stream_mode("o1", true), Ok(()));
    assert_eq!(check_stream_mode("", true), Ok(()));
}

#[test]
fn reasoning_family_is_the_o1_prefix() {
    assert!(reasoning_only("o1-mini"));
    assert!(reasoning_only("o1-"));
    assert!(!reasoning_only("o10"));
    assert!(!reasoning_only("xo1-"));
}

#[test]
fn errors_map_to_statuses() {
    assert_eq!(BridgeError::MalformedRequest.status_code(), 400);
    assert_eq!(BridgeError::UnsupportedStreamingMode.status_code(), 400);
    assert_eq!(BridgeError::BackendTransportFailure.status_code(), 500);
}

#[test]
fn bearer_header_gives_its_token() {
    assert_eq!(bearer_token("Bearer abc"), Some("abc".to_string()));
    assert_eq!(bearer_token("Bearer "), Some(String::new()));
}

#[test]
fn other_schemes_give_no_token() {
    assert_eq!(bearer_token("Basic abc"), None);
    assert_eq!(bearer_token("bearer abc"), None);
    assert_eq!(bearer_token(""), None);
}

#[test]
fn first_of_several_keys_is_used_trimmed() {
    assert_eq!(bearer_token("Bearer k1, k2"), Some("k1".to_string()));
    assert_eq!(bearer_token("Bearer  k1 ,k2"), Some("k1".to_string()));
}

#[test]
fn key_after_encoded_separator_is_used() {
    assert_eq!(bearer_token("Bearer user%3A%3Akey"), Some("key".to_string()));
    assert_eq!(bearer_token("Bearer a%3A%3Ab%3A%3Ac"), Some("b".to_string()));
    assert_eq!(bearer_token("Bearer a%3A%3Ab, c"), Some("b".to_string()));
}

#[test]
fn every_scheme_word_is_removed() {
    assert_eq!(bearer_token("Bearer x Bearer y"), Some("x y".to_string()));
}
