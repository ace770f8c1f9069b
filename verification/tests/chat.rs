use ask_jira::chat::{
    chat_body, chat_url, check_status, completion, content_of, Attempt, Next, INITIAL_BACKOFF,
    MAX_RETRIES,
};
use ask_jira::error::Error;
use ask_jira::http::Status;
use ask_jira::wire::parse;

fn again(next: Next) -> (Attempt, u64) {
    match next {
        Next::Again { attempt, wait, .. } => (attempt, wait),
        other => panic!("{:?}", other),
    }
}

fn finished(next: Next) -> Result<String, Error> {
    match next {
        Next::Finished(result) => result,
        other => panic!("{:?}", other),
    }
}

#[test]
fn a_request_has_one_message_and_no_stream() {
    assert_eq!(chat_url("https://s"), "https://s/.api/llm/chat/completions");
    assert_eq!(
        chat_body("Why \"x\"?\n", "m", 2000),
        r#"{"max_tokens":2000,"messages":[{"content":"Why \"x\"?\n","role":"user"}],"model":"m","stream":false}"#
    );
}

#[test]
fn a_reply_has_the_content_of_its_first_choice() {
    let body = r#"{"choices":[{"message":{"content":"Because."}},{"message":{"content":"No."}}]}"#;
    assert_eq!(completion(body).unwrap(), "Because.");
    assert_eq!(content_of(&parse(body).unwrap()).unwrap(), "Because.");
}

#[test]
fn a_reply_without_content_fails() {
    let bodies = [
        "{}",
        "[]",
        r#"{"choices":[]}"#,
        r#"{"choices":{"0":{"message":{"content":"x"}}}}"#,
        r#"{"choices":[{"message":{"content":null}}]}"#,
        r#"{"choices":[{"text":"x"}]}"#,
    ];
    for body in bodies {
        assert_eq!(
            completion(body).unwrap_err().message(),
            "Failed to extract content from response"
        );
    }
}

#[test]
fn a_malformed_reply_is_reported_in_full() {
    assert_eq!(
        completion("<html>").unwrap_err().message(),
        "Failed to parse JSON: expected value at line 1 column 1. Raw response: <html>"
    );
}

#[test]
fn a_refused_request_is_reported() {
    assert!(check_status(Status::new(204).unwrap()).is_ok());
    assert_eq!(
        check_status(Status::new(500).unwrap()).unwrap_err().message(),
        "HTTP error: 500 Internal Server Error"
    );
}

#[test]
fn waits_double_and_the_last_failure_is_the_result() {
    assert_eq!((MAX_RETRIES, INITIAL_BACKOFF), (5, 1000));
    let mut attempt = Attempt::first();
    let mut waited = vec![];
    for n in 1..5 {
        assert_eq!(attempt.count(), n);
        let (next, wait) = again(attempt.conclude(Err(Error::ContentMissing)));
        waited.push(wait);
        attempt = next;
    }
    assert_eq!(waited, vec![1000, 2000, 4000, 8000]);
    assert_eq!(attempt.count(), 5);
    let end = finished(attempt.conclude(Err(Error::Transport("down".to_string()))));
    assert_eq!(end.unwrap_err().message(), "down");
}

#[test]
fn the_first_answer_is_the_result() {
    let end = finished(Attempt::first().conclude(Ok("yes".to_string())));
    assert_eq!(end.unwrap(), "yes");
    let (second, _) = again(Attempt::first().conclude(Err(Error::KeyMissing)));
    assert_eq!(finished(second.conclude(Ok("later".to_string()))).unwrap(), "later");
}

#[test]
fn the_reason_for_another_attempt_is_kept() {
    match Attempt::first().conclude(Err(Error::Transport("slow".to_string()))) {
        Next::Again { error, .. } => assert_eq!(error.message(), "slow"),
        other => panic!("{:?}", other),
    }
}
