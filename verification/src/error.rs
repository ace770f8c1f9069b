//! What can go wrong, and what is said of it.
use crate::http::Status;
use vstd::prelude::*;

verus! {

/// Why a run fails.
#[derive(Debug)]
pub enum Error {
    /// The model asked for is none of those available.
    ModelUnknown(String),
    /// A query was given, and one was to be generated.
    JqlConflict,
    /// The options do not say what to do.
    OptionsInvalid,
    /// A token cannot stand in a header.
    HeaderInvalid,
    /// A reply that is reported in full is no JSON text.
    ReplyMalformed { reason: String, body: String },
    /// A text is no JSON text.
    JsonMalformed(String),
    /// The body of a reply is no JSON text, or not of the kind that is expected.
    BodyMalformed(String),
    /// A reply lists no models.
    ModelsMissing,
    /// A search did not succeed.
    SearchRefused { status: Status, body: String },
    /// A reply to a search lists no issues.
    IssuesMissing,
    /// An issue has no key.
    KeyMissing,
    /// A chat request did not succeed.
    ChatRefused(Status),
    /// A reply to a chat request has no content.
    ContentMissing,
    /// A request could not be made, or its reply not be received.
    Transport(String),
}

/// The model of an error.
pub enum ErrorView {
    ModelUnknown(Seq<char>),
    JqlConflict,
    OptionsInvalid,
    HeaderInvalid,
    ReplyMalformed { reason: Seq<char>, body: Seq<char> },
    JsonMalformed(Seq<char>),
    BodyMalformed(Seq<char>),
    ModelsMissing,
    SearchRefused { status: u16, body: Seq<char> },
    IssuesMissing,
    KeyMissing,
    ChatRefused(u16),
    ContentMissing,
    Transport(Seq<char>),
}

impl View for Error {
    type V = ErrorView;

    open spec fn view(&self) -> ErrorView {
        match self {
            Error::ModelUnknown(model) => ErrorView::ModelUnknown(model@),
            Error::JqlConflict => ErrorView::JqlConflict,
            Error::OptionsInvalid => ErrorView::OptionsInvalid,
            Error::HeaderInvalid => ErrorView::HeaderInvalid,
            Error::ReplyMalformed { reason, body } => ErrorView::ReplyMalformed {
                reason: reason@,
                body: body@,
            },
            Error::JsonMalformed(reason) => ErrorView::JsonMalformed(reason@),
            Error::BodyMalformed(reason) => ErrorView::BodyMalformed(reason@),
            Error::ModelsMissing => ErrorView::ModelsMissing,
            Error::SearchRefused { status, body } => ErrorView::SearchRefused {
                status: status@,
                body: body@,
            },
            Error::IssuesMissing => ErrorView::IssuesMissing,
            Error::KeyMissing => ErrorView::KeyMissing,
            Error::ChatRefused(status) => ErrorView::ChatRefused(status@),
            Error::ContentMissing => ErrorView::ContentMissing,
            Error::Transport(reason) => ErrorView::Transport(reason@),
        }
    }
}

impl ErrorView {
    /// What is said of the error.
    pub open spec fn message(self) -> Seq<char> {
        match self {
            ErrorView::ModelUnknown(model) => "Invalid model: "@ + model
                + ". Use --list-models to see available models."@,
            ErrorView::JqlConflict => "--auto-jql cannot be used with --jql"@,
            ErrorView::OptionsInvalid =>
                "Invalid combination of options. Use --message with either --jql or --auto-jql"@,
            ErrorView::HeaderInvalid => "failed to parse header value"@,
            ErrorView::ReplyMalformed { reason, body } => "Failed to parse JSON: "@ + reason
                + ". Raw response: "@ + body,
            ErrorView::JsonMalformed(reason) => reason,
            ErrorView::BodyMalformed(reason) => "error decoding response body: "@ + reason,
            ErrorView::ModelsMissing => "'data' field is not an array"@,
            ErrorView::SearchRefused { status, body } =>
                "Jira search API request failed with status: "@ + crate::http::status_line(status)
                    + ". Body: "@ + body,
            ErrorView::IssuesMissing => "No issues found"@,
            ErrorView::KeyMissing => "Issue key not found"@,
            ErrorView::ChatRefused(status) => "HTTP error: "@ + crate::http::status_line(status),
            ErrorView::ContentMissing => "Failed to extract content from response"@,
            ErrorView::Transport(reason) => reason,
        }
    }
}

impl Error {
    /// What is said of the error.
    pub fn message(&self) -> (text: String)
        ensures
            text@ == self@.message(),
    {
        match self {
            Error::ModelUnknown(model) => "Invalid model: ".to_string().concat(
                model.as_str(),
            ).concat(". Use --list-models to see available models."),
            Error::JqlConflict => "--auto-jql cannot be used with --jql".to_string(),
            Error::OptionsInvalid =>
                "Invalid combination of options. Use --message with either --jql or --auto-jql".to_string(),
            Error::HeaderInvalid => "failed to parse header value".to_string(),
            Error::ReplyMalformed { reason, body } => "Failed to parse JSON: ".to_string().concat(
                reason.as_str(),
            ).concat(". Raw response: ").concat(body.as_str()),
            Error::JsonMalformed(reason) => reason.clone(),
            Error::BodyMalformed(reason) => "error decoding response body: ".to_string().concat(
                reason.as_str(),
            ),
            Error::ModelsMissing => "'data' field is not an array".to_string(),
            Error::SearchRefused { status, body } =>
                "Jira search API request failed with status: ".to_string().concat(
                status.line().as_str(),
            ).concat(". Body: ").concat(body.as_str()),
            Error::IssuesMissing => "No issues found".to_string(),
            Error::KeyMissing => "Issue key not found".to_string(),
            Error::ChatRefused(status) => "HTTP error: ".to_string().concat(
                status.line().as_str(),
            ),
            Error::ContentMissing => "Failed to extract content from response".to_string(),
            Error::Transport(reason) => reason.clone(),
        }
    }
}

/// What is said of an error names what it is about, in full.
pub proof fn messages_say_what_errors_are_about(error: ErrorView)
    ensures
        error matches ErrorView::ModelUnknown(model) ==> ("Invalid model: "@ + model).is_prefix_of(
            error.message(),
        ) && ". Use --list-models to see available models."@.is_suffix_of(error.message())
            && error.message().len() == "Invalid model: "@.len() + model.len()
            + ". Use --list-models to see available models."@.len(),
        error is JqlConflict ==> error.message() == "--auto-jql cannot be used with --jql"@,
        error is OptionsInvalid ==> error.message()
            == "Invalid combination of options. Use --message with either --jql or --auto-jql"@,
        error is HeaderInvalid ==> error.message() == "failed to parse header value"@,
        error matches ErrorView::ReplyMalformed { reason, body } ==> ("Failed to parse JSON: "@
            + reason).is_prefix_of(error.message()) && (". Raw response: "@ + body).is_suffix_of(
            error.message(),
        ) && error.message().len() == "Failed to parse JSON: "@.len() + reason.len()
            + ". Raw response: "@.len() + body.len(),
        error matches ErrorView::JsonMalformed(reason) ==> error.message() == reason,
        error matches ErrorView::BodyMalformed(reason) ==> "error decoding response body: "@.is_prefix_of(
            error.message(),
        ) && reason.is_suffix_of(error.message()) && error.message().len()
            == "error decoding response body: "@.len() + reason.len(),
        error is ModelsMissing ==> error.message() == "'data' field is not an array"@,
        error matches ErrorView::SearchRefused { status, body } ==> (
        "Jira search API request failed with status: "@ + crate::http::status_line(
            status,
        )).is_prefix_of(error.message()) && (". Body: "@ + body).is_suffix_of(error.message())
            && error.message().len() == "Jira search API request failed with status: "@.len()
            + crate::http::status_line(status).len() + ". Body: "@.len() + body.len(),
        error is IssuesMissing ==> error.message() == "No issues found"@,
        error is KeyMissing ==> error.message() == "Issue key not found"@,
        error matches ErrorView::ChatRefused(status) ==> "HTTP error: "@.is_prefix_of(
            error.message(),
        ) && crate::http::status_line(status).is_suffix_of(error.message()) && error.message().len()
            == "HTTP error: "@.len() + crate::http::status_line(status).len(),
        error is ContentMissing ==> error.message() == "Failed to extract content from response"@,
        error matches ErrorView::Transport(reason) ==> error.message() == reason,
{
}

/// An error is told by its kind and by what it holds.
pub proof fn errors_are_told_by_what_they_hold(error: Error)
    ensures
        error matches Error::ModelUnknown(model) ==> error@ == ErrorView::ModelUnknown(model@),
        error is JqlConflict <==> error@ is JqlConflict,
        error is OptionsInvalid <==> error@ is OptionsInvalid,
        error is HeaderInvalid <==> error@ is HeaderInvalid,
        error matches Error::ReplyMalformed { reason, body } ==> error@
            == (ErrorView::ReplyMalformed { reason: reason@, body: body@ }),
        error matches Error::JsonMalformed(reason) ==> error@ == ErrorView::JsonMalformed(reason@),
        error matches Error::BodyMalformed(reason) ==> error@ == ErrorView::BodyMalformed(reason@),
        error is ModelsMissing <==> error@ is ModelsMissing,
        error matches Error::SearchRefused { status, body } ==> error@ == (ErrorView::SearchRefused {
            status: status@,
            body: body@,
        }),
        error is IssuesMissing <==> error@ is IssuesMissing,
        error is KeyMissing <==> error@ is KeyMissing,
        error matches Error::ChatRefused(status) ==> error@ == ErrorView::ChatRefused(status@),
        error is ContentMissing <==> error@ is ContentMissing,
        error matches Error::Transport(reason) ==> error@ == ErrorView::Transport(reason@),
{
}

} // verus!
