//! Putting the summaries of batches together into one last question.
use crate::text;
use vstd::prelude::*;

verus! {

/// What is asked in the end.
pub open spec fn final_query_text(message: Seq<char>, summaries: Seq<Seq<char>>) -> Seq<char> {
    "Original question(s):\n"@ + message + "\n\nJira data batches:\n"@ + text::joined(
        summaries,
        "\n\n--- Next Batch Summary ---\n\n"@,
    )
        + "\n\nBased on these batches, please provide a comprehensive and cohesive answer to the original question(s). Synthesize the information from all batch summaries, highlighting key points, trends, and insights relevant to the question(s)."@
}

/// What follows from the summaries.
#[derive(Debug)]
pub enum Conclusion {
    /// There was nothing to summarize, and this is to be shown.
    NoData(String),
    /// This is to be asked.
    Ask(String),
}

/// What follows from the summaries: without any, that no data was found, and else a last
/// question.
pub fn conclude(message: &str, summaries: &Vec<String>) -> (conclusion: Conclusion)
    ensures
        if summaries@.len() == 0 {
            conclusion matches Conclusion::NoData(shown) && shown@
                == "Answer: No Jira data found for the given query."@
        } else {
            conclusion matches Conclusion::Ask(query) && query@ == final_query_text(
                message@,
                text::views(summaries@),
            )
        },
{
    if summaries.len() == 0 {
        return Conclusion::NoData("Answer: No Jira data found for the given query.".to_string());
    }
    let all = text::join(summaries, "\n\n--- Next Batch Summary ---\n\n");
    Conclusion::Ask(
        "Original question(s):\n".to_string().concat(message).concat(
            "\n\nJira data batches:\n",
        ).concat(all.as_str()).concat(
            "\n\nBased on these batches, please provide a comprehensive and cohesive answer to the original question(s). Synthesize the information from all batch summaries, highlighting key points, trends, and insights relevant to the question(s).",
        ),
    )
}

/// What is shown of an answer.
pub fn shown_answer(answer: &str) -> (shown: String)
    ensures
        shown@ == "Answer:\n"@ + answer@,
{
    "Answer:\n".to_string().concat(answer)
}

/// However many summaries there are, from one on, the last question starts with the message, ends
/// with what is to be done, and has every summary in between, in order, with the same line between
/// one and the next. The positions at which the summaries stand are the result.
pub proof fn the_last_question_has_every_summary(message: Seq<char>, summaries: Seq<Seq<char>>) -> (at:
    Seq<int>)
    requires
        summaries.len() > 0,
    ensures
        ("Original question(s):\n"@ + message + "\n\nJira data batches:\n"@).is_prefix_of(
            final_query_text(message, summaries),
        ),
        ("\n\nBased on these batches, please provide a comprehensive and cohesive answer to the original question(s). Synthesize the information from all batch summaries, highlighting key points, trends, and insights relevant to the question(s)."@).is_suffix_of(
            final_query_text(message, summaries),
        ),
        at.len() == summaries.len(),
        at[0] == ("Original question(s):\n"@ + message + "\n\nJira data batches:\n"@).len(),
        forall|i: int|
            0 <= i < summaries.len() ==> 0 <= #[trigger] at[i] && at[i] + summaries[i].len()
                <= final_query_text(message, summaries).len() && final_query_text(
                message,
                summaries,
            ).subrange(at[i], at[i] + summaries[i].len()) == summaries[i],
        forall|i: int|
            0 <= i < summaries.len() - 1 ==> at[i + 1] == #[trigger] at[i] + summaries[i].len()
                + "\n\n--- Next Batch Summary ---\n\n"@.len() && final_query_text(
                message,
                summaries,
            ).subrange(
                at[i] + summaries[i].len(),
                at[i] + summaries[i].len() + "\n\n--- Next Batch Summary ---\n\n"@.len(),
            ) == "\n\n--- Next Batch Summary ---\n\n"@,
        at.last() + summaries.last().len()
            + "\n\nBased on these batches, please provide a comprehensive and cohesive answer to the original question(s). Synthesize the information from all batch summaries, highlighting key points, trends, and insights relevant to the question(s)."@.len()
            == final_query_text(message, summaries).len(),
{
    let whole = final_query_text(message, summaries);
    let line = "\n\n--- Next Batch Summary ---\n\n"@;
    let head = "Original question(s):\n"@ + message + "\n\nJira data batches:\n"@;
    let all = text::joined(summaries, line);
    let within = text::joined_parts_stand_in_order(summaries, line);
    let start = head.len() as int;
    let at = Seq::new(summaries.len(), |i: int| start + within[i]);
    assert(whole.subrange(start, start + all.len()) =~= all);
    assert forall|from: int, to: int| 0 <= from <= to <= all.len() implies #[trigger] whole.subrange(
        start + from,
        start + to,
    ) == all.subrange(from, to) by {
        assert(whole.subrange(start + from, start + to) =~= all.subrange(from, to));
    }
    assert forall|i: int| 0 <= i < summaries.len() implies 0 <= #[trigger] at[i] && at[i]
        + summaries[i].len() <= whole.len() && whole.subrange(at[i], at[i] + summaries[i].len())
        == summaries[i] by {
        assert(0 <= within[i]);
        assert(whole.subrange(start + within[i], start + (within[i] + summaries[i].len()))
            == summaries[i]);
    }
    assert forall|i: int| 0 <= i < summaries.len() - 1 implies at[i + 1] == #[trigger] at[i]
        + summaries[i].len() + line.len() && whole.subrange(
        at[i] + summaries[i].len(),
        at[i] + summaries[i].len() + line.len(),
    ) == line by {
        assert(within[i + 1] == within[i] + summaries[i].len() + line.len());
        assert(within[i + 1] + summaries[i + 1].len() <= all.len());
        assert(whole.subrange(
            start + (within[i] + summaries[i].len()),
            start + (within[i] + summaries[i].len() + line.len()),
        ) == line);
    }
    at
}

} // verus!
