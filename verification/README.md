# ask_jira

Answers questions about Jira issues with the help of the chat API of Sourcegraph.

`src/` is the library, verified with Verus. It decides and computes: what a run does by its
options, what each request carries, what each reply says, when a search asks for another page,
how issues are split into batches, when a chat request is sent again. `app/` is the command line
around it, which sends the requests, waits and prints.

JSON is read and written by `serde_json`, and statuses and header values are those of `reqwest`.
What the library relies on of them stands in `src/wire.rs` and `src/http.rs`, and what it relies
on of `str::to_uppercase` in `src/text.rs`; all else is proved.

## Environment variables

- `SRC_ACCESS_TOKEN`: the access token for Sourcegraph
- `SRC_ENDPOINT`: the URL of the Sourcegraph API
- `SRC_DEFAULT_MODEL`: the model that is used without `--set-model`
- `JIRA_TOKEN`: the token for the Jira API
- `JIRA_HOST`: the URL of the Jira host

## Options

- `--message`: the question
- `--jql`: a query for the issues that the question is about
- `--auto-jql`: generates that query from the question
- `--max-issues`: how many issues are fetched at most (default: 100000)
- `--max-results`: how many issues a page of a search has at most (default: 100)
- `--max-tokens`: how many tokens a response has at most (default: 2000)
- `--list-models`: lists the available models
- `--set-model`: sets the model to use
- `--debug`: logs what is done
