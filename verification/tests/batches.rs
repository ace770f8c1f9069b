use ask_jira::batches::{
    batch_query, collect_summaries, data_query, group, plan, split, BATCH_SIZE, MAX_CONCURRENT_TASKS,
};
use ask_jira::error::Error;
use ask_jira::json::Json;
use ask_jira::wire::to_compact;

/// An issue whose compact text has that many bytes.
fn issue(size: usize) -> Json {
    Json::Text("x".repeat(size - 2))
}

fn lengths(sizes: &[usize]) -> Vec<usize> {
    split(sizes.iter().map(|s| issue(*s)).collect()).iter().map(|b| b.len()).collect()
}

#[test]
fn limits_are_as_documented() {
    assert_eq!(BATCH_SIZE, 200_000);
    assert_eq!(MAX_CONCURRENT_TASKS, 50);
}

#[test]
fn batches_are_as_long_as_they_may_be() {
    assert_eq!(lengths(&[]), Vec::<usize>::new());
    assert_eq!(lengths(&[100_000, 100_000]), vec![2]);
    assert_eq!(lengths(&[100_000, 100_001]), vec![1, 1]);
    assert_eq!(lengths(&[100_000, 100_000, 2]), vec![2, 1]);
    assert_eq!(lengths(&[2, 2, 199_996, 2, 199_999, 2, 2]), vec![3, 1, 1, 2]);
}

#[test]
fn an_oversized_issue_stands_alone() {
    assert_eq!(lengths(&[300_000]), vec![1]);
    assert_eq!(lengths(&[2, 300_000, 2]), vec![1, 1, 1]);
    assert_eq!(lengths(&[300_000, 300_000]), vec![1, 1]);
}

#[test]
fn sizes_are_counted_in_bytes() {
    let two_bytes = Json::Text("é".repeat(60_000));
    let batches = split(vec![two_bytes.clone(), two_bytes]);
    assert_eq!(batches.len(), 2);
}

#[test]
fn batching_keeps_issues_in_order() {
    let issues: Vec<Json> = (0..10).map(|n| Json::Text(n.to_string().repeat(70_000))).collect();
    let texts: Vec<String> = issues.iter().map(to_compact).collect();
    let batches = split(issues);
    assert!(batches.iter().all(|b| !b.is_empty()));
    let flat: Vec<String> = batches.iter().flatten().map(to_compact).collect();
    assert_eq!(flat, texts);
    assert_eq!(batches.len(), 5);
}

#[test]
fn given_sizes_decide() {
    let issues: Vec<Json> = (0..4).map(Json::Unsigned).collect();
    let batches = group(issues, &vec![200_000, 1, 199_999, 0]);
    let lengths: Vec<usize> = batches.iter().map(|b| b.len()).collect();
    assert_eq!(lengths, vec![1, 3]);
    let issues: Vec<Json> = (0..3).map(Json::Unsigned).collect();
    let batches = group(issues, &vec![usize::MAX, usize::MAX, 0]);
    assert_eq!(batches.len(), 3);
}

#[test]
fn data_is_asked_about() {
    assert_eq!(
        data_query("Why?", "data"),
        "Question(s):\nWhy?\n\nJira data:\ndata\n\nBased on Jira data, please provide a comprehensive answer for the question(s)."
    );
}

#[test]
fn a_batch_is_asked_about() {
    let batch = vec![Json::Text("a".to_string()), Json::Unsigned(1)];
    assert_eq!(
        batch_query("Why?", batch),
        "Question(s):\nWhy?\n\nJira data:\n[\"a\",1]\n\nBased on Jira data, please provide a comprehensive answer for the question(s)."
    );
}

#[test]
fn fetched_data_is_planned() {
    let queries = plan("Why?", "[\n  {\n    \"key\": \"A-1\"\n  }\n]").unwrap().unwrap();
    assert_eq!(queries.len(), 1);
    assert!(queries[0].contains("Jira data:\n[{\"key\":\"A-1\"}]\n\n"));
    assert!(plan("Why?", "[]").unwrap().unwrap().is_empty());
    assert!(plan("Why?", "{}").unwrap().is_none());
    assert_eq!(
        plan("Why?", "").unwrap_err().message(),
        "EOF while parsing a value at line 1 column 0"
    );
}

#[test]
fn summaries_come_in_order() {
    let results = vec![Ok("a".to_string()), Ok("b".to_string())];
    assert_eq!(collect_summaries(results).unwrap(), vec!["a", "b"]);
    assert!(collect_summaries(vec![]).unwrap().is_empty());
}

#[test]
fn the_first_failure_counts() {
    let results = vec![
        Ok("a".to_string()),
        Err(Error::ContentMissing),
        Ok("b".to_string()),
        Err(Error::KeyMissing),
    ];
    assert_eq!(
        collect_summaries(results).unwrap_err().message(),
        "Failed to extract content from response"
    );
}
