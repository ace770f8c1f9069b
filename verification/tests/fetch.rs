use ask_jira::batches::plan;
use ask_jira::fetch::{Gather, GatherStep, Search, SearchStep};
use ask_jira::http::Status;
use ask_jira::wire::{parse, to_compact};

fn ok() -> Status {
    Status::new(200).unwrap()
}

fn search(max_issues: usize) -> Search {
    Search::new("https://jira", "project = A", max_issues, 2)
}

fn page(keys: &[&str], total: &str) -> String {
    let issues: Vec<String> = keys.iter().map(|k| format!("{{\"key\":\"{}\"}}", k)).collect();
    format!("{{\"issues\":[{}]{}}}", issues.join(","), total)
}

fn more(step: SearchStep) -> Search {
    match step {
        SearchStep::More(search) => search,
        other => panic!("{:?}", other),
    }
}

fn enough(step: SearchStep) -> (Option<String>, GatherStep) {
    match step {
        SearchStep::Enough { notice, gather } => (notice, gather),
        other => panic!("{:?}", other),
    }
}

fn failure(step: SearchStep) -> String {
    match step {
        SearchStep::Failed(error) => error.message(),
        other => panic!("{:?}", other),
    }
}

fn comments(step: GatherStep) -> Gather {
    match step {
        GatherStep::Comments(gather) => gather,
        other => panic!("{:?}", other),
    }
}

fn done(step: GatherStep) -> String {
    match step {
        GatherStep::Done(text) => text,
        other => panic!("{:?}", other),
    }
}

fn start_at(search: &Search) -> String {
    search.query()[1].1.clone()
}

#[test]
fn a_search_asks_for_its_first_page() {
    let search = search(10);
    assert_eq!(search.url(), "https://jira/rest/api/2/search");
    let query = search.query();
    assert_eq!(query.len(), 3);
    assert_eq!(query[0], ("jql".to_string(), "project = A".to_string()));
    assert_eq!(query[1], ("startAt".to_string(), "0".to_string()));
    assert_eq!(query[2], ("maxResults".to_string(), "2".to_string()));
}

#[test]
fn pages_follow_each_other() {
    let second = more(search(10).receive(ok(), &page(&["A-1", "A-2"], ",\"total\":3")));
    assert_eq!(start_at(&second), "2");
    let (notice, gather) = enough(second.receive(ok(), &page(&["A-3"], ",\"total\":3")));
    assert_eq!(notice, None);
    let first = comments(gather);
    assert_eq!(first.url(), "https://jira/rest/api/2/issue/A-1/comment");
    let second = comments(first.receive("{}"));
    assert_eq!(second.url(), "https://jira/rest/api/2/issue/A-2/comment");
    let third = comments(second.receive("{}"));
    assert_eq!(third.url(), "https://jira/rest/api/2/issue/A-3/comment");
    let text = done(third.receive("{}"));
    assert_eq!(
        to_compact(&parse(&text).unwrap()),
        r#"[{"key":"A-1"},{"key":"A-2"},{"key":"A-3"}]"#
    );
}

#[test]
fn the_latest_total_decides() {
    let second = more(search(10).receive(ok(), &page(&["A-1"], ",\"total\":9")));
    enough(second.receive(ok(), &page(&["A-2"], ",\"total\":2")));
}

#[test]
fn a_page_without_a_total_is_the_last() {
    enough(search(10).receive(ok(), &page(&["A-1"], "")));
    enough(search(10).receive(ok(), &page(&["A-1"], ",\"total\":\"9\"")));
    enough(search(10).receive(ok(), &page(&["A-1"], ",\"total\":-9")));
    enough(search(10).receive(ok(), &page(&["A-1"], ",\"total\":9.0")));
}

#[test]
fn an_empty_page_below_the_total_changes_nothing() {
    let again = more(search(10).receive(ok(), &page(&[], ",\"total\":3")));
    assert_eq!(start_at(&again), "0");
}

#[test]
fn no_issues_give_an_empty_list() {
    let (notice, gather) = enough(search(10).receive(ok(), &page(&[], ",\"total\":0")));
    assert_eq!(notice, None);
    assert_eq!(done(gather), "[]");
}

#[test]
fn the_limit_ends_a_search() {
    let (notice, gather) =
        enough(search(1).receive(ok(), &page(&["A-1", "A-2"], ",\"total\":9")));
    assert_eq!(
        notice.unwrap(),
        "Note: Reached max_issues limit (1). Not all Jira data was fetched."
    );
    let text = done(comments(gather).receive("{\"comments\":[]}"));
    assert_eq!(to_compact(&parse(&text).unwrap()), r#"[{"comments":[],"key":"A-1"}]"#);
}

#[test]
fn the_limit_is_noticed_where_it_is_met_exactly() {
    let (notice, _) = enough(search(2).receive(ok(), &page(&["A-1", "A-2"], ",\"total\":2")));
    assert!(notice.is_some());
}

#[test]
fn a_limit_of_zero_gathers_nothing() {
    let (notice, gather) = enough(search(0).receive(ok(), &page(&["A-1"], ",\"total\":9")));
    assert!(notice.is_some());
    assert_eq!(done(gather), "[]");
}

#[test]
fn issues_keep_key_fields_and_comments_without_nulls() {
    let body = r#"{"issues":[{"id":"1","key":"A-1","fields":{"summary":"s","due":null,"points":2.5,"labels":[null]},"self":"u"}],"total":1}"#;
    let (_, gather) = enough(search(10).receive(ok(), body));
    let text = done(comments(gather).receive(r#"{"comments":[{"body":"b","edited":null}],"total":1}"#));
    assert_eq!(
        to_compact(&parse(&text).unwrap()),
        r#"[{"comments":[{"body":"b"}],"fields":{"labels":[null],"points":2.5,"summary":"s"},"key":"A-1"}]"#
    );
    assert!(text.starts_with("[\n  {\n    \"comments\": ["));
}

#[test]
fn failures_of_a_search() {
    assert_eq!(
        failure(search(10).receive(Status::new(400).unwrap(), "bad jql")),
        "Jira search API request failed with status: 400 Bad Request. Body: bad jql"
    );
    assert_eq!(
        failure(search(10).receive(ok(), "<html>")),
        "expected value at line 1 column 1"
    );
    assert_eq!(failure(search(10).receive(ok(), "{}")), "No issues found");
    assert_eq!(failure(search(10).receive(ok(), "{\"issues\":{}}")), "No issues found");
    assert_eq!(failure(search(10).receive(ok(), "[]")), "No issues found");
}

#[test]
fn a_missing_key_fails_when_it_is_come_to() {
    let body = r#"{"issues":[{"key":"A-1"},{"key":7}],"total":2}"#;
    let (_, gather) = enough(search(10).receive(ok(), body));
    match comments(gather).receive("{}") {
        GatherStep::Failed(error) => assert_eq!(error.message(), "Issue key not found"),
        other => panic!("{:?}", other),
    }
}

#[test]
fn a_missing_key_beyond_the_limit_does_not_matter() {
    let body = r#"{"issues":[{"key":"A-1"},{}],"total":2}"#;
    let (_, gather) = enough(search(1).receive(ok(), body));
    done(comments(gather).receive("{}"));
}

#[test]
fn malformed_comments_fail() {
    let (_, gather) = enough(search(10).receive(ok(), &page(&["A-1"], "")));
    match comments(gather).receive("") {
        GatherStep::Failed(error) => {
            assert_eq!(error.message(), "EOF while parsing a value at line 1 column 0")
        }
        other => panic!("{:?}", other),
    }
}

#[test]
fn what_is_fetched_is_asked_about() {
    let (_, step) = enough(search(10).receive(ok(), &page(&["A-1", "A-2"], ",\"total\":2")));
    let step = comments(step).receive(r#"{"comments":[{"body":1.5}]}"#);
    let fetched = done(comments(step).receive(r#"{"comments":null}"#));
    let queries = plan("Why?", &fetched).unwrap().unwrap();
    assert_eq!(queries.len(), 1);
    assert!(queries[0].contains(r#""comments":[{"body":1.5}]"#));
    assert!(queries[0].contains(r#""key":"A-2""#));
    assert!(!queries[0].contains("null"));
}

/// What a fetch ends with, from a server that pages one list and caps its pages.
fn fetch_list(keys: &[&str], max_issues: usize, max_results: usize, cap: usize) -> String {
    let mut search = Search::new("https://jira", "project = A", max_issues, max_results);
    let mut step = loop {
        let query = search.query();
        let start: usize = query[1].1.parse().unwrap();
        let asked: usize = query[2].1.parse().unwrap();
        let end = keys.len().min(start + asked.min(cap));
        let total = format!(",\"total\":{}", keys.len());
        match search.receive(ok(), &page(&keys[start..end], &total)) {
            SearchStep::More(next) => search = next,
            SearchStep::Enough { gather, .. } => break gather,
            SearchStep::Failed(error) => panic!("{:?}", error),
        }
    };
    loop {
        match step {
            GatherStep::Comments(gather) => {
                let body = format!("{{\"comments\":[\"{}\"]}}", gather.url());
                step = gather.receive(&body);
            }
            other => return done(other),
        }
    }
}

fn fetched_keys(fetched: &str) -> Vec<String> {
    let value = parse(fetched).unwrap();
    value.items().unwrap().iter().map(|issue| issue.member_text("key").unwrap()).collect()
}

#[test]
fn a_paged_list_is_fetched_whatever_the_page_size() {
    let keys = ["A-1", "A-2", "A-3", "A-4", "A-5"];
    for max_issues in 0..7 {
        let fetched = fetch_list(&keys, max_issues, 100, 100);
        assert_eq!(fetched_keys(&fetched), keys[..max_issues.min(5)].to_vec());
        for max_results in 1..7 {
            for cap in 1..7 {
                assert_eq!(fetch_list(&keys, max_issues, max_results, cap), fetched);
            }
        }
    }
    assert_eq!(fetch_list(&[], 3, 2, 2), "[]");
}

#[test]
fn a_smaller_limit_fetches_the_first_part() {
    let keys = ["A-1", "A-2", "A-3", "A-4", "A-5"];
    let all = parse(&fetch_list(&keys, 5, 2, 2)).unwrap();
    let all: Vec<String> = all.items().unwrap().iter().map(to_compact).collect();
    for limit in 0..6 {
        let some = parse(&fetch_list(&keys, limit, 2, 2)).unwrap();
        let some: Vec<String> = some.items().unwrap().iter().map(to_compact).collect();
        assert_eq!(some, all[..limit].to_vec());
    }
}
