use draffity_services::ai::ChatMessage;
use draffity_services::token_counter::{estimate_request_tokens, estimate_tokens};

#[test]
fn empty_text_is_zero_tokens() {
    assert_eq!(estimate_tokens(""), 0);
}

#[test]
fn short_text_rounds_up_to_at_least_one() {
    assert_eq!(estimate_tokens("a"), 1);
    assert_eq!(estimate_tokens("abcd"), 1);
    assert_eq!(estimate_tokens("abcde"), 2);
}

#[test]
fn longer_text_estimates_more_than_shorter() {
    let short = estimate_tokens("hola mundo");
    let long = estimate_tokens(&"hola mundo ".repeat(50));
    assert!(long > short);
}

#[test]
fn request_tokens_account_for_message_overhead() {
    let msgs = vec![
        ChatMessage::system("eres un editor"),
        ChatMessage::user("continúa esta escena"),
    ];
    let est = estimate_request_tokens(&msgs);
    let content_only = estimate_tokens("eres un editor") + estimate_tokens("continúa esta escena");
    assert!(est > content_only);
}

#[test]
fn token_estimate_counts_characters_not_bytes() {
    // Eight characters, some of them multi-byte: two tokens.
    assert_eq!(estimate_tokens("áéíóúñüç"), 2);
}
