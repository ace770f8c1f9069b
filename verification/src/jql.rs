//! Generating a JQL query from a question, with the help of what is known of the projects.
use crate::error::{Error, ErrorView};
use crate::json::{self, Json, Tree};
use crate::text;
use crate::wire::{self, Reading};
use vstd::prelude::*;

verus! {

/// Where projects are listed.
pub fn projects_url(host: &str) -> (url: String)
    ensures
        url@ == host@ + "/rest/api/2/project"@,
{
    host.to_string().concat("/rest/api/2/project")
}

/// Where a project is described.
pub fn project_url(host: &str, key: &str) -> (url: String)
    ensures
        url@ == host@ + "/rest/api/2/project/"@ + key@,
{
    host.to_string().concat("/rest/api/2/project/").concat(key)
}

/// The keys of the projects in a list.
pub fn keys_in(projects: &Vec<Json>) -> (keys: Vec<String>)
    ensures
        text::views(keys@) == json::member_texts(json::trees(projects@), "key"@),
{
    json::collect_member_texts(projects, "key")
}

/// The keys of the projects that a reply lists.
pub fn project_keys(body: &[u8]) -> (res: Result<Vec<String>, Error>)
    ensures
        match wire::parsed_bytes(body@) {
            Reading::Read(Tree::Array(projects)) => res matches Ok(keys) && text::views(keys@)
                == json::member_texts(projects, "key"@),
            _ => res matches Err(error) && error@ == ErrorView::BodyMalformed(
                wire::list_refusal(body@),
            ),
        },
{
    match wire::parse_list(body) {
        Ok(projects) => Ok(keys_in(&projects)),
        Err(reason) => Err(Error::BodyMalformed(reason)),
    }
}

/// The description of a project in a reply, as compact text; `None` where the reply is no JSON.
pub open spec fn described(body: Seq<u8>) -> Option<Seq<char>> {
    match wire::parsed_bytes(body) {
        Reading::Read(info) => Some(wire::compact(info)),
        Reading::Refused(_) => None,
    }
}

/// The description of a project in a reply, as compact text. The text is read as the reply is, with
/// each decimal as its own text is read; where decimals are read back, a reply that is this text
/// has the same description.
pub fn project_info(body: &[u8]) -> (res: Result<String, Error>)
    ensures
        match wire::parsed_bytes(body@) {
            Reading::Refused(reason) => res matches Err(error) && error@
                == ErrorView::BodyMalformed(reason),
            Reading::Read(info) => {
                &&& res matches Ok(text)
                &&& text@ == wire::compact(info)
                &&& wire::legible(info) ==> wire::parsed(text@) == Reading::Read(wire::reread(info))
                &&& wire::exact(info) ==> wire::parsed(text@) == Reading::Read(info)
                &&& wire::exact(info) ==> described(vstd::utf8::encode_utf8(text@)) == Some(text@)
            },
        },
{
    match wire::parse_bytes(body) {
        Ok(info) => {
            proof {
                if wire::exact(info@) {
                    wire::exact_values_reread_as_themselves(info@);
                }
            }
            Ok(wire::to_compact(&info))
        },
        Err(reason) => Err(Error::BodyMalformed(reason)),
    }
}

/// The position of the first of the keys that is a word of the text.
pub open spec fn first_named(text: Seq<char>, keys: Seq<Seq<char>>) -> Option<int>
    decreases keys.len(),
{
    if keys.len() == 0 {
        None
    } else {
        match first_named(text, keys.drop_last()) {
            Some(i) => Some(i),
            None => if text::has_word(text, keys.last()) {
                Some(keys.len() - 1)
            } else {
                None
            },
        }
    }
}

/// The project found is a word of the text, none that is listed before it is, and none is found
/// exactly where no listed project is a word of the text.
pub proof fn first_named_is_first(text: Seq<char>, keys: Seq<Seq<char>>)
    ensures
        match first_named(text, keys) {
            Some(at) => 0 <= at < keys.len() && text::has_word(text, keys[at]) && forall|i: int|
                0 <= i < at ==> !text::has_word(text, #[trigger] keys[i]),
            None => forall|i: int|
                0 <= i < keys.len() ==> !text::has_word(text, #[trigger] keys[i]),
        },
    decreases keys.len(),
{
    if keys.len() > 0 {
        let front = keys.drop_last();
        first_named_is_first(text, front);
        match first_named(text, front) {
            Some(at) => {
                assert(front[at] == keys[at]);
                assert forall|i: int| 0 <= i < at implies !text::has_word(
                    text,
                    #[trigger] keys[i],
                ) by {
                    assert(front[i] == keys[i]);
                }
            },
            None => {
                assert forall|i: int| 0 <= i < front.len() implies !text::has_word(
                    text,
                    #[trigger] keys[i],
                ) by {
                    assert(front[i] == keys[i]);
                }
            },
        }
    }
}

/// The position of the first of the projects that is a word of the text.
pub fn find_project(text: &str, projects: &Vec<String>) -> (res: Option<usize>)
    ensures
        match first_named(text@, text::views(projects@)) {
            Some(at) => res matches Some(i) && i == at && i < projects@.len(),
            None => res is None,
        },
{
    let ghost all = text::views(projects@);
    assert(all.take(0) =~= Seq::empty());
    for i in 0..projects.len()
        invariant
            all == text::views(projects@),
            first_named(text@, all.take(i as int)) is None,
    {
        assert(all.take(i + 1).drop_last() =~= all.take(i as int));
        if text::contains_word(text, projects[i].as_str()) {
            assert(first_named(text@, all.take(i + 1)) == Some(i as int));
            proof {
                lemma_first_stays(text@, all, i + 1);
            }
            return Some(i);
        }
    }
    assert(all.take(projects@.len() as int) =~= all);
    None
}

/// Once a key is found, keys listed after it do not matter.
proof fn lemma_first_stays(text: Seq<char>, keys: Seq<Seq<char>>, n: int)
    requires
        0 <= n <= keys.len(),
        first_named(text, keys.take(n)) is Some,
    ensures
        first_named(text, keys) == first_named(text, keys.take(n)),
    decreases keys.len(),
{
    if n < keys.len() {
        assert(keys.drop_last().take(n) =~= keys.take(n));
        lemma_first_stays(text, keys.drop_last(), n);
    } else {
        assert(keys.take(n) =~= keys);
    }
}

/// What is asked where a project is known.
pub open spec fn project_prompt_text(
    project: Seq<char>,
    message: Seq<char>,
    info: Seq<char>,
) -> Seq<char> {
    "Given the following question and project information, generate a valid JQL query to search for relevant issues in the "@
        + project
        + " project. Use only the components, issue types, and fields that exist in the provided project information. Ensure the query is specific to the question asked, but avoid overly broad conditions. Provide only the JQL query without any explanation or additional clauses:\n\nQuestion: "@
        + message + "\n\nProject Information:\n"@ + info
}

/// What is asked where no project is known.
pub open spec fn projects_prompt_text(message: Seq<char>, projects: Seq<Seq<char>>) -> Seq<char> {
    "Given the following question and list of Jira projects, generate a valid JQL query to search for relevant issues, avoid overly broad conditions that might lead to false positives. Provide only the JQL query without any explanation, LIMIT clause, labels clause, or anything else:\n\nQuestion: "@
        + message + "\n\nProjects: "@ + text::joined(projects, ", "@)
}

/// What is asked where a project is known.
pub fn project_prompt(project: &str, message: &str, info: &str) -> (prompt: String)
    ensures
        prompt@ == project_prompt_text(project@, message@, info@),
{
    "Given the following question and project information, generate a valid JQL query to search for relevant issues in the ".to_string().concat(
    project).concat(
        " project. Use only the components, issue types, and fields that exist in the provided project information. Ensure the query is specific to the question asked, but avoid overly broad conditions. Provide only the JQL query without any explanation or additional clauses:\n\nQuestion: ",
    ).concat(message).concat("\n\nProject Information:\n").concat(info)
}

/// What is asked where no project is known.
pub fn projects_prompt(message: &str, projects: &Vec<String>) -> (prompt: String)
    ensures
        prompt@ == projects_prompt_text(message@, text::views(projects@)),
{
    "Given the following question and list of Jira projects, generate a valid JQL query to search for relevant issues, avoid overly broad conditions that might lead to false positives. Provide only the JQL query without any explanation, LIMIT clause, labels clause, or anything else:\n\nQuestion: ".to_string().concat(
    message).concat("\n\nProjects: ").concat(text::join(projects, ", ").as_str())
}

/// How a query is come by.
#[derive(Debug)]
pub enum JqlStep {
    /// The project of this key is to be described first.
    Describe(String),
    /// This is to be asked.
    Ask(String),
}

/// Says how a query is come by: a project that the question, in upper case, names as a word is to
/// be described first; where there is none, all projects are put into what is asked.
pub fn plan_jql(message: &str, projects: &Vec<String>) -> (step: JqlStep)
    ensures
        match first_named(text::uppercase(message@), text::views(projects@)) {
            Some(at) => step matches JqlStep::Describe(key) && key@ == text::views(
                projects@,
            )[at] && key@ == projects@[at]@,
            None => step matches JqlStep::Ask(prompt) && prompt@ == projects_prompt_text(
                message@,
                text::views(projects@),
            ),
        },
{
    let upper = text::to_uppercase(message);
    match find_project(upper.as_str(), projects) {
        Some(i) => JqlStep::Describe(projects[i].clone()),
        None => JqlStep::Ask(projects_prompt(message, projects)),
    }
}

/// The query that an answer gives: the answer without white space at its ends.
pub fn generated_jql(answer: &str) -> (jql: String)
    ensures
        jql@ == text::trimmed(answer@),
{
    text::trim(answer)
}

/// The prompt for a named project asks for issues of that project, then has the question, and ends
/// with the description of the project in full.
pub proof fn a_project_prompt_has_question_and_description(
    project: Seq<char>,
    message: Seq<char>,
    info: Seq<char>,
)
    ensures
        ("Given the following question and project information, generate a valid JQL query to search for relevant issues in the "@
            + project).is_prefix_of(project_prompt_text(project, message, info)),
        (" project. Use only the components, issue types, and fields that exist in the provided project information. Ensure the query is specific to the question asked, but avoid overly broad conditions. Provide only the JQL query without any explanation or additional clauses:\n\nQuestion: "@
            + message + "\n\nProject Information:\n"@ + info).is_suffix_of(
            project_prompt_text(project, message, info),
        ),
        ("\n\nProject Information:\n"@ + info).is_suffix_of(
            project_prompt_text(project, message, info),
        ),
        project_prompt_text(project, message, info).len()
            == "Given the following question and project information, generate a valid JQL query to search for relevant issues in the "@.len()
            + project.len()
            + " project. Use only the components, issue types, and fields that exist in the provided project information. Ensure the query is specific to the question asked, but avoid overly broad conditions. Provide only the JQL query without any explanation or additional clauses:\n\nQuestion: "@.len()
            + message.len() + "\n\nProject Information:\n"@.len() + info.len(),
{
}

/// Prompts for the same project and question differ where the descriptions differ, and prompts for
/// the same project and description where the questions differ.
pub proof fn project_prompts_tell_their_parts_apart(
    project: Seq<char>,
    message: Seq<char>,
    other_message: Seq<char>,
    info: Seq<char>,
    other_info: Seq<char>,
)
    ensures
        info != other_info ==> project_prompt_text(project, message, info) != project_prompt_text(
            project,
            message,
            other_info,
        ),
        message != other_message ==> project_prompt_text(project, message, info)
            != project_prompt_text(project, other_message, info),
{
    let text = project_prompt_text(project, message, info);
    a_project_prompt_has_question_and_description(project, message, info);
    if text == project_prompt_text(project, message, other_info) {
        a_project_prompt_has_question_and_description(project, message, other_info);
        assert(text.subrange(text.len() - info.len(), text.len() as int) =~= info);
        assert(text.subrange(text.len() - info.len(), text.len() as int) =~= other_info);
    }
    if text == project_prompt_text(project, other_message, info) {
        a_project_prompt_has_question_and_description(project, other_message, info);
        let end = text.len() - info.len() - "\n\nProject Information:\n"@.len();
        assert(text.subrange(end - message.len(), end) =~= message);
        assert(text.subrange(end - message.len(), end) =~= other_message);
    }
}

/// The prompt where no project is named has the question, and ends with the list of all projects,
/// in order, with a comma and a space between one and the next. The positions at which the projects
/// stand, where there are any, are the result.
pub proof fn a_prompt_without_a_project_lists_all(message: Seq<char>, projects: Seq<Seq<char>>) -> (at:
    Seq<int>)
    ensures
        ("Given the following question and list of Jira projects, generate a valid JQL query to search for relevant issues, avoid overly broad conditions that might lead to false positives. Provide only the JQL query without any explanation, LIMIT clause, labels clause, or anything else:\n\nQuestion: "@
            + message + "\n\nProjects: "@).is_prefix_of(projects_prompt_text(message, projects)),
        projects.len() == 0 ==> projects_prompt_text(message, projects).len()
            == "Given the following question and list of Jira projects, generate a valid JQL query to search for relevant issues, avoid overly broad conditions that might lead to false positives. Provide only the JQL query without any explanation, LIMIT clause, labels clause, or anything else:\n\nQuestion: "@.len()
            + message.len() + "\n\nProjects: "@.len(),
        at.len() == projects.len(),
        projects.len() > 0 ==> at[0]
            == "Given the following question and list of Jira projects, generate a valid JQL query to search for relevant issues, avoid overly broad conditions that might lead to false positives. Provide only the JQL query without any explanation, LIMIT clause, labels clause, or anything else:\n\nQuestion: "@.len()
            + message.len() + "\n\nProjects: "@.len(),
        projects.len() > 0 ==> at.last() + projects.last().len() == projects_prompt_text(
            message,
            projects,
        ).len(),
        forall|i: int|
            0 <= i < projects.len() ==> 0 <= #[trigger] at[i] && at[i] + projects[i].len()
                <= projects_prompt_text(message, projects).len() && projects_prompt_text(
                message,
                projects,
            ).subrange(at[i], at[i] + projects[i].len()) == projects[i],
        forall|i: int|
            0 <= i < projects.len() - 1 ==> at[i + 1] == #[trigger] at[i] + projects[i].len() + ", "@.len()
                && projects_prompt_text(message, projects).subrange(
                at[i] + projects[i].len(),
                at[i] + projects[i].len() + ", "@.len(),
            ) == ", "@,
{
    let whole = projects_prompt_text(message, projects);
    let all = text::joined(projects, ", "@);
    let start = whole.len() - all.len();
    if projects.len() == 0 {
        Seq::empty()
    } else {
        let within = text::joined_parts_stand_in_order(projects, ", "@);
        let at = Seq::new(projects.len(), |i: int| start + within[i]);
        assert(whole.subrange(start, whole.len() as int) =~= all);
        assert forall|from: int, to: int| 0 <= from <= to <= all.len() implies #[trigger] whole.subrange(
            start + from,
            start + to,
        ) == all.subrange(from, to) by {
            assert(whole.subrange(start + from, start + to) =~= all.subrange(from, to));
        }
        assert forall|i: int| 0 <= i < projects.len() implies 0 <= #[trigger] at[i] && at[i]
            + projects[i].len() <= whole.len() && whole.subrange(at[i], at[i] + projects[i].len())
            == projects[i] by {
            assert(0 <= within[i]);
            assert(whole.subrange(start + within[i], start + (within[i] + projects[i].len()))
                == projects[i]);
        }
        assert forall|i: int| 0 <= i < projects.len() - 1 implies at[i + 1] == #[trigger] at[i]
            + projects[i].len() + ", "@.len() && whole.subrange(
            at[i] + projects[i].len(),
            at[i] + projects[i].len() + ", "@.len(),
        ) == ", "@ by {
            assert(within[i + 1] == within[i] + projects[i].len() + ", "@.len());
            assert(within[i + 1] + projects[i + 1].len() <= all.len());
            assert(whole.subrange(
                start + (within[i] + projects[i].len()),
                start + (within[i] + projects[i].len() + ", "@.len()),
            ) == ", "@);
        }
        at
    }
}

} // verus!
