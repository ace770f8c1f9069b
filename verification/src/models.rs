//! The models that a chat can use.
use crate::error::{Error, ErrorView};
use crate::json::{self, Json, Tree};
use crate::text;
use crate::wire::{self, Reading};
use vstd::prelude::*;

verus! {

/// Where models are listed.
pub fn models_url(endpoint: &str) -> (url: String)
    ensures
        url@ == endpoint@ + "/.api/llm/models"@,
{
    endpoint.to_string().concat("/.api/llm/models")
}

/// The models that a reply lists, by their names; `None` where it has no list.
pub open spec fn listed(reply: Tree) -> Option<Seq<Seq<char>>> {
    match reply.member("data"@).items() {
        Some(items) => Some(json::member_texts(items, "id"@)),
        None => None,
    }
}

/// The models that a reply lists, taken as a JSON value.
pub fn models_in(reply: &Json) -> (res: Result<Vec<String>, Error>)
    ensures
        match listed(reply@) {
            Some(names) => res matches Ok(models) && text::views(models@) == names,
            None => res matches Err(error) && error@ == ErrorView::ModelsMissing,
        },
{
    let items = match reply.member("data") {
        Some(data) => data.items(),
        None => None,
    };
    match items {
        Some(items) => Ok(json::collect_member_texts(items, "id")),
        None => Err(Error::ModelsMissing),
    }
}

/// The models that a reply lists.
pub fn available_models(body: &str) -> (res: Result<Vec<String>, Error>)
    ensures
        match wire::parsed(body@) {
            Reading::Refused(reason) => res matches Err(error) && error@
                == (ErrorView::ReplyMalformed { reason, body: body@ }),
            Reading::Read(reply) => match listed(reply) {
                Some(names) => res matches Ok(models) && text::views(models@) == names,
                None => res matches Err(error) && error@ == ErrorView::ModelsMissing,
            },
        },
{
    match wire::parse(body) {
        Ok(reply) => models_in(&reply),
        Err(reason) => Err(Error::ReplyMalformed { reason, body: body.to_string() }),
    }
}

/// The model asked for, where it is available.
pub fn choose_model(wanted: String, available: &Vec<String>) -> (res: Result<String, Error>)
    ensures
        match res {
            Ok(model) => model@ == wanted@ && text::views(available@).contains(wanted@),
            Err(error) => error@ == ErrorView::ModelUnknown(wanted@) && !text::views(
                available@,
            ).contains(wanted@),
        },
        res is Ok <==> exists|i: int| 0 <= i < available@.len() && #[trigger] available@[i]@
            == wanted@,
{
    for i in 0..available.len()
        invariant
            forall|j: int| 0 <= j < i ==> (#[trigger] available@[j])@ != wanted@,
    {
        if available[i] == wanted {
            assert(text::views(available@)[i as int] == wanted@);
            return Ok(wanted);
        }
    }
    assert forall|j: int| 0 <= j < available@.len() implies text::views(available@)[j]
        != wanted@ by {
        assert(available@[j]@ != wanted@);
    }
    Err(Error::ModelUnknown(wanted))
}

/// What is shown of models: a heading, and a line for each.
pub open spec fn listing_text(models: Seq<Seq<char>>) -> Seq<char>
    decreases models.len(),
{
    if models.len() == 0 {
        "Available models:\n"@
    } else {
        listing_text(models.drop_last()) + "- "@ + models.last() + "\n"@
    }
}

/// What is shown of models.
pub fn listing(models: &Vec<String>) -> (shown: String)
    ensures
        shown@ == listing_text(text::views(models@)),
{
    let ghost all = text::views(models@);
    let mut shown = "Available models:\n".to_string();
    for i in 0..models.len()
        invariant
            all == text::views(models@),
            shown@ == listing_text(all.take(i as int)),
    {
        assert(all.take(i + 1).drop_last() =~= all.take(i as int));
        shown.append("- ");
        shown.append(models[i].as_str());
        shown.append("\n");
    }
    assert(all.take(models@.len() as int) =~= all);
    shown
}

/// The models of a reply are the names of the items of its data, in order, where the data is a
/// list, and there is no list of models where it is not.
pub proof fn models_are_the_names_of_the_data(reply: Tree, items: Seq<Tree>)
    ensures
        reply.member("data"@) == Tree::Array(items) ==> listed(reply) == Some(
            json::member_texts(items, "id"@),
        ),
        !(reply.member("data"@) is Array) ==> listed(reply) is None,
{
}

/// What is shown of models starts with a heading, and each model adds one line, its name after a
/// dash, to what is shown of those before it.
pub proof fn each_model_is_shown_on_a_line(models: Seq<Seq<char>>, model: Seq<char>)
    ensures
        "Available models:\n"@.is_prefix_of(listing_text(models)),
        listing_text(Seq::empty()).len() == "Available models:\n"@.len(),
        listing_text(models).is_prefix_of(listing_text(models.push(model))),
        ("- "@ + model + "\n"@).is_suffix_of(listing_text(models.push(model))),
        listing_text(models.push(model)).len() == listing_text(models).len() + "- "@.len()
            + model.len() + "\n"@.len(),
    decreases models.len(),
{
    assert(models.push(model).drop_last() =~= models);
    if models.len() > 0 {
        each_model_is_shown_on_a_line(models.drop_last(), models.last());
        assert(models.drop_last().push(models.last()) =~= models);
    }
}

} // verus!
