use ask_jira::http::{chat_headers, project_headers, search_headers, Header, Status};

fn pairs(headers: Vec<Header>) -> Vec<(String, String)> {
    headers.into_iter().map(|h| (h.name, h.value)).collect()
}

fn pair(name: &str, value: &str) -> (String, String) {
    (name.to_string(), value.to_string())
}

#[test]
fn statuses_have_three_digits() {
    assert!(Status::new(99).is_none());
    assert!(Status::new(1000).is_none());
    assert!(Status::new(100).is_some());
    assert!(Status::new(999).is_some());
}

#[test]
fn success_is_from_200_to_299() {
    for code in 100..1000 {
        assert_eq!(Status::new(code).unwrap().is_success(), (200..300).contains(&code));
    }
}

#[test]
fn a_status_is_written_with_its_reason() {
    assert_eq!(Status::new(200).unwrap().line(), "200 OK");
    assert_eq!(Status::new(404).unwrap().line(), "404 Not Found");
    assert_eq!(Status::new(599).unwrap().line(), "599 <unknown status code>");
}

#[test]
fn headers_carry_the_token() {
    assert_eq!(pairs(project_headers("t").unwrap()), vec![pair("authorization", "Bearer t")]);
    assert_eq!(
        pairs(search_headers("t").unwrap()),
        vec![pair("authorization", "Bearer t"), pair("content-type", "application/json")]
    );
    assert_eq!(
        pairs(chat_headers("t").unwrap()),
        vec![
            pair("content-type", "application/json"),
            pair("authorization", "token t"),
            pair("accept", "application/json")
        ]
    );
}

#[test]
fn a_token_with_control_characters_is_refused() {
    for token in ["a\nb", "\r", "\u{0}", "\u{7f}", "a\u{1f}"] {
        assert_eq!(project_headers(token).unwrap_err().message(), "failed to parse header value");
        assert!(search_headers(token).is_err());
        assert!(chat_headers(token).is_err());
    }
}

#[test]
fn any_other_token_is_accepted() {
    for token in ["", "\t", " ", "~", "é", "\u{80}", "日本"] {
        assert!(project_headers(token).is_ok());
        assert!(search_headers(token).is_ok());
        assert!(chat_headers(token).is_ok());
    }
}

#[test]
fn header_texts_are_those_of_the_header_type() {
    for c in '\u{0}'..='\u{200}' {
        let token = c.to_string();
        assert_eq!(
            project_headers(&token).is_ok(),
            reqwest::header::HeaderValue::from_str(&token).is_ok()
        );
    }
}
