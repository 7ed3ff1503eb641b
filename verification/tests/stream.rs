use yu_hailo_infer::hailort::CompletionStatus;
use yu_hailo_infer::requests::MAX_STREAM_READS;
use yu_hailo_infer::stream::{StreamEvent, TokenStream};

#[test]
fn the_final_read_sends_the_token_then_the_whole_text() {
    let mut s = TokenStream::new();
    assert!(s.can_read());
    assert_eq!(s.on_read("Hel", &CompletionStatus::Generating), vec![StreamEvent::Token("Hel".to_string())]);
    assert!(s.can_read());
    assert_eq!(
        s.on_read("lo", &CompletionStatus::LogicalEndOfGeneration),
        vec![StreamEvent::Token("lo".to_string()), StreamEvent::Done("Hello".to_string())]
    );
    assert!(!s.can_read());
}

#[test]
fn every_terminal_status_ends_the_stream() {
    for status in [CompletionStatus::MaxTokensReached, CompletionStatus::Aborted] {
        let mut s = TokenStream::new();
        let events = s.on_read("", &status);
        assert_eq!(events, vec![StreamEvent::Token(String::new()), StreamEvent::Done(String::new())]);
        assert!(!s.can_read());
    }
}

#[test]
fn the_read_limit_ends_a_generation_that_never_finishes() {
    let mut s = TokenStream::new();
    let mut reads = 0;
    let mut last = Vec::new();
    while s.can_read() {
        last = s.on_read("x", &CompletionStatus::Generating);
        reads += 1;
    }
    assert_eq!(reads, MAX_STREAM_READS);
    assert_eq!(last, vec![StreamEvent::Token("x".to_string()), StreamEvent::Exceeded]);
}
