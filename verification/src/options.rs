//! What a run does, by the options that it is started with.
use crate::error::{Error, ErrorView};
use vstd::prelude::*;

verus! {

/// How a run starts.
#[derive(Debug)]
pub enum Start {
    /// The models are listed, and that is all.
    ListModels,
    /// The model of this name is used, if the list of models has it.
    CheckModel(String),
    /// The model that is used by default is used.
    UseDefault,
}

/// What a run does once the model is known.
#[derive(Debug)]
pub enum Task {
    /// Generates a query from the message, and answers the message from what it finds.
    Generate { message: String },
    /// Answers the message from what the query finds.
    Query { jql: String, message: String },
    /// Answers the message alone.
    Chat { message: String },
}

/// The model of how a run starts.
pub enum StartView {
    ListModels,
    CheckModel(Seq<char>),
    UseDefault,
}

/// The model of what a run does.
pub enum TaskView {
    Generate { message: Seq<char> },
    Query { jql: Seq<char>, message: Seq<char> },
    Chat { message: Seq<char> },
}

impl View for Start {
    type V = StartView;

    open spec fn view(&self) -> StartView {
        match self {
            Start::ListModels => StartView::ListModels,
            Start::CheckModel(model) => StartView::CheckModel(model@),
            Start::UseDefault => StartView::UseDefault,
        }
    }
}

impl View for Task {
    type V = TaskView;

    open spec fn view(&self) -> TaskView {
        match self {
            Task::Generate { message } => TaskView::Generate { message: message@ },
            Task::Query { jql, message } => TaskView::Query { jql: jql@, message: message@ },
            Task::Chat { message } => TaskView::Chat { message: message@ },
        }
    }
}

/// Says how a run starts. Listing the models comes before anything else, and a model that is asked
/// for before the one that is used by default.
pub fn start(list_models: bool, set_model: Option<String>) -> (first: Start)
    ensures
        list_models ==> first@ == StartView::ListModels,
        !list_models ==> match set_model {
            Some(model) => first@ == StartView::CheckModel(model@),
            None => first@ == StartView::UseDefault,
        },
        first is ListModels <==> list_models,
        !list_models ==> (first matches Start::CheckModel(model) ==> set_model == Some(model)),
        !list_models ==> (first is UseDefault <==> set_model is None),
{
    if list_models {
        return Start::ListModels;
    }
    match set_model {
        Some(model) => Start::CheckModel(model),
        None => Start::UseDefault,
    }
}

/// Whether the options are explained instead of followed: that is so where there is no message.
pub fn needs_help(message: &Option<String>) -> (yes: bool)
    ensures
        yes == message is None,
{
    message.is_none()
}

/// Says what a run does. A query that is given excludes one that is to be generated, and without
/// a message there is nothing to do.
pub fn choose_task(
    jql: Option<String>,
    message: Option<String>,
    auto_jql: bool,
) -> (res: Result<Task, Error>)
    ensures
        match (jql, message, auto_jql) {
            (Some(_), _, true) => res matches Err(error) && error@ == ErrorView::JqlConflict,
            (None, Some(m), true) => res matches Ok(task) && task@ == (TaskView::Generate {
                message: m@,
            }),
            (Some(j), Some(m), false) => res matches Ok(task) && task@ == (TaskView::Query {
                jql: j@,
                message: m@,
            }),
            (None, Some(m), false) => res matches Ok(task) && task@ == (TaskView::Chat {
                message: m@,
            }),
            (_, None, _) => res matches Err(error) && error@ == ErrorView::OptionsInvalid,
        },
        res matches Ok(Task::Generate { message: m }) ==> jql is None && message == Some(m)
            && auto_jql,
        res matches Ok(Task::Query { jql: j, message: m }) ==> jql == Some(j) && message == Some(m)
            && !auto_jql,
        res matches Ok(Task::Chat { message: m }) ==> jql is None && message == Some(m) && !auto_jql,
        res matches Err(error) ==> error is JqlConflict || error is OptionsInvalid,
        res matches Err(Error::JqlConflict) <==> jql is Some && auto_jql,
        res matches Err(Error::OptionsInvalid) <==> message is None && !(jql is Some && auto_jql),
{
    match (jql, message, auto_jql) {
        (Some(_), _, true) => Err(Error::JqlConflict),
        (None, Some(message), true) => Ok(Task::Generate { message }),
        (Some(jql), Some(message), false) => Ok(Task::Query { jql, message }),
        (None, Some(message), false) => Ok(Task::Chat { message }),
        (_, None, _) => Err(Error::OptionsInvalid),
    }
}

} // verus!
