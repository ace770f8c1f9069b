use ask_jira::answer::{conclude, shown_answer, Conclusion};
use ask_jira::error::Error;
use ask_jira::http::Status;
use ask_jira::jql::{
    find_project, generated_jql, plan_jql, project_info, project_keys, project_prompt, project_url,
    projects_prompt, projects_url, JqlStep,
};
use ask_jira::models::{available_models, choose_model, listing, models_url};
use ask_jira::options::{choose_task, needs_help, start, Start, Task};

fn strings(texts: &[&str]) -> Vec<String> {
    texts.iter().map(|t| t.to_string()).collect()
}

fn some(text: &str) -> Option<String> {
    Some(text.to_string())
}

#[test]
fn models_are_listed_by_name() {
    assert_eq!(models_url("https://s"), "https://s/.api/llm/models");
    let body = r#"{"data":[{"id":"a"},{"id":7},{"name":"x"},{"id":"b"}]}"#;
    assert_eq!(available_models(body).unwrap(), vec!["a", "b"]);
    assert_eq!(listing(&strings(&["a", "b"])), "Available models:\n- a\n- b\n");
    assert_eq!(listing(&vec![]), "Available models:\n");
}

#[test]
fn models_may_be_missing() {
    assert_eq!(available_models("{}").unwrap_err().message(), "'data' field is not an array");
    assert_eq!(
        available_models("nothing").unwrap_err().message(),
        "Failed to parse JSON: expected ident at line 1 column 2. Raw response: nothing"
    );
}

#[test]
fn a_model_is_used_if_it_is_listed() {
    let available = strings(&["a", "b"]);
    assert_eq!(choose_model("b".to_string(), &available).unwrap(), "b");
    assert_eq!(
        choose_model("c".to_string(), &available).unwrap_err().message(),
        "Invalid model: c. Use --list-models to see available models."
    );
}

#[test]
fn projects_are_listed_by_key() {
    assert_eq!(projects_url("https://j"), "https://j/rest/api/2/project");
    assert_eq!(project_url("https://j", "A"), "https://j/rest/api/2/project/A");
    let body = br#"[{"key":"A"},{"id":1},{"key":"B"}]"#;
    assert_eq!(project_keys(body).unwrap(), vec!["A", "B"]);
    assert!(project_keys(b"[]").unwrap().is_empty());
    assert_eq!(
        project_keys(b"{}").unwrap_err().message(),
        "error decoding response body: invalid type: map, expected a sequence at line 1 column 0"
    );
    assert_eq!(
        project_keys(b"").unwrap_err().message(),
        "error decoding response body: EOF while parsing a value at line 1 column 0"
    );
    assert!(project_keys(b"[1").is_err());
}

#[test]
fn a_project_is_described_in_compact_text() {
    assert_eq!(project_info(b"{ \"b\" : 1,\n \"a\" : null }").unwrap(), r#"{"a":null,"b":1}"#);
    assert_eq!(
        project_info(b"x").unwrap_err().message(),
        "error decoding response body: expected value at line 1 column 1"
    );
}

#[test]
fn a_description_describes_itself() {
    let info = project_info(" { \"é\" : [1, null, \"\\u0041\\n\"], \"a\" : -2 } ".as_bytes()).unwrap();
    assert_eq!(info, "{\"a\":-2,\"é\":[1,null,\"A\\n\"]}");
    assert_eq!(project_info(info.as_bytes()).unwrap(), info);
    let deep = format!("{}{}", "[".repeat(127), "]".repeat(127));
    assert_eq!(project_info(deep.as_bytes()).unwrap(), deep);
}

#[test]
fn the_first_listed_project_that_is_named_is_found() {
    let projects = strings(&["A", "BB", "C"]);
    assert_eq!(find_project("C AND BB", &projects), Some(1));
    assert_eq!(find_project("ABB", &projects), None);
    assert_eq!(find_project("", &vec![]), None);
}

#[test]
fn a_project_is_named_in_any_case() {
    let projects = strings(&["OPS", "STRASSE", "web"]);
    match plan_jql("what broke in ops today", &projects) {
        JqlStep::Describe(key) => assert_eq!(key, "OPS"),
        other => panic!("{:?}", other),
    }
    match plan_jql("Wer wohnt in der straße", &projects) {
        JqlStep::Describe(key) => assert_eq!(key, "STRASSE"),
        other => panic!("{:?}", other),
    }
    assert!(matches!(plan_jql("is web up", &projects), JqlStep::Ask(_)));
}

#[test]
fn without_a_named_project_all_are_put_forward() {
    let projects = strings(&["A", "B"]);
    match plan_jql("What is new?", &projects) {
        JqlStep::Ask(prompt) => {
            assert!(prompt.ends_with("\n\nQuestion: What is new?\n\nProjects: A, B"));
            assert!(prompt.starts_with(
                "Given the following question and list of Jira projects, generate"
            ));
            assert_eq!(prompt, projects_prompt("What is new?", &projects));
        }
        other => panic!("{:?}", other),
    }
}

#[test]
fn a_named_project_is_described_in_the_prompt() {
    let prompt = project_prompt("OPS", "Why?", "{}");
    assert!(prompt.contains("relevant issues in the OPS project. Use only the components"));
    assert!(prompt.ends_with("clauses:\n\nQuestion: Why?\n\nProject Information:\n{}"));
}

#[test]
fn a_generated_query_has_no_white_space_around_it() {
    assert_eq!(generated_jql("\n  project = OPS \n"), "project = OPS");
}

#[test]
fn summaries_lead_to_one_last_question() {
    match conclude("Why?", &strings(&["one", "two"])) {
        Conclusion::Ask(query) => assert_eq!(
            query,
            "Original question(s):\nWhy?\n\nJira data batches:\none\n\n--- Next Batch Summary ---\n\ntwo\n\nBased on these batches, please provide a comprehensive and cohesive answer to the original question(s). Synthesize the information from all batch summaries, highlighting key points, trends, and insights relevant to the question(s)."
        ),
        other => panic!("{:?}", other),
    }
}

#[test]
fn no_summaries_mean_no_data() {
    match conclude("Why?", &vec![]) {
        Conclusion::NoData(shown) => {
            assert_eq!(shown, "Answer: No Jira data found for the given query.")
        }
        other => panic!("{:?}", other),
    }
    assert_eq!(shown_answer("Because."), "Answer:\nBecause.");
}

#[test]
fn listing_models_comes_first() {
    assert!(matches!(start(true, some("m")), Start::ListModels));
    assert!(matches!(start(true, None), Start::ListModels));
    match start(false, some("m")) {
        Start::CheckModel(model) => assert_eq!(model, "m"),
        other => panic!("{:?}", other),
    }
    assert!(matches!(start(false, None), Start::UseDefault));
}

#[test]
fn help_is_for_runs_without_a_message() {
    assert!(needs_help(&None));
    assert!(!needs_help(&some("")));
}

#[test]
fn options_say_what_to_do() {
    match choose_task(some("j"), some("m"), false).unwrap() {
        Task::Query { jql, message } => assert_eq!((jql, message), ("j".into(), "m".into())),
        other => panic!("{:?}", other),
    }
    match choose_task(None, some("m"), true).unwrap() {
        Task::Generate { message } => assert_eq!(message, "m"),
        other => panic!("{:?}", other),
    }
    match choose_task(None, some("m"), false).unwrap() {
        Task::Chat { message } => assert_eq!(message, "m"),
        other => panic!("{:?}", other),
    }
}

#[test]
fn options_may_contradict_each_other() {
    for message in [some("m"), None] {
        assert_eq!(
            choose_task(some("j"), message, true).unwrap_err().message(),
            "--auto-jql cannot be used with --jql"
        );
    }
    for (jql, auto) in [(some("j"), false), (None, true), (None, false)] {
        assert_eq!(
            choose_task(jql, None, auto).unwrap_err().message(),
            "Invalid combination of options. Use --message with either --jql or --auto-jql"
        );
    }
}

#[test]
fn errors_are_described() {
    let refused = Error::SearchRefused { status: Status::new(401).unwrap(), body: "b".into() };
    assert_eq!(
        refused.message(),
        "Jira search API request failed with status: 401 Unauthorized. Body: b"
    );
    assert_eq!(Error::Transport("t".into()).message(), "t");
    assert_eq!(Error::JsonMalformed("j".into()).message(), "j");
    assert_eq!(Error::IssuesMissing.message(), "No issues found");
    assert_eq!(Error::KeyMissing.message(), "Issue key not found");
}
