//! Chat requests: what is sent, what the reply says, and when to try again.
use crate::error::{Error, ErrorView};
use crate::http::Status;
use crate::json::{self, Json, Members, Tree};
use crate::wire::{self, Reading};
use vstd::prelude::*;

verus! {

/// How often a request is sent at most.
pub const MAX_RETRIES: u32 = 5;

/// How many milliseconds pass before the first request that is sent again.
pub const INITIAL_BACKOFF: u64 = 1000;

/// Where chat requests are sent.
pub fn chat_url(endpoint: &str) -> (url: String)
    ensures
        url@ == endpoint@ + "/.api/llm/chat/completions"@,
{
    endpoint.to_string().concat("/.api/llm/chat/completions")
}

/// The one message of a chat: a question by the user.
pub open spec fn question(query: Seq<char>) -> Tree {
    Tree::Object(
        Map::<Seq<char>, Tree>::empty().insert("role"@, Tree::Text("user"@)).insert(
            "content"@,
            Tree::Text(query),
        ),
    )
}

/// What a chat request sends: the model, the limit on tokens, the messages, and that the reply is
/// wanted in one piece.
pub open spec fn request(query: Seq<char>, model: Seq<char>, max_tokens: usize) -> Tree {
    Tree::Object(
        Map::<Seq<char>, Tree>::empty().insert("model"@, Tree::Text(model)).insert(
            "max_tokens"@,
            Tree::Integer(max_tokens as int),
        ).insert("messages"@, Tree::Array(seq![question(query)])).insert(
            "stream"@,
            Tree::Bool(false),
        ),
    )
}

/// What a chat request sends, as a JSON value.
pub fn chat_request(query: &str, model: &str, max_tokens: usize) -> (json: Json)
    ensures
        json@ == request(query@, model@, max_tokens),
{
    let message = Json::Object(
        Members::new().with("role", Json::Text("user".to_string())).with(
            "content",
            Json::Text(query.to_string()),
        ),
    );
    assert(message@ == question(query@));
    let mut messages: Vec<Json> = Vec::new();
    messages.push(message);
    let messages = Json::Array(messages);
    assert(messages@->Array_0 =~= seq![question(query@)]);
    Json::Object(
        Members::new().with("model", Json::Text(model.to_string())).with(
            "max_tokens",
            Json::Unsigned(max_tokens as u64),
        ).with("messages", messages).with("stream", Json::Bool(false)),
    )
}

/// A chat request is shallow and has no decimals.
proof fn lemma_request_readable(query: Seq<char>, model: Seq<char>, max_tokens: usize)
    ensures
        wire::readable(request(query, model, max_tokens), wire::DEPTH_LIMIT as nat),
        wire::reread(request(query, model, max_tokens)) == request(query, model, max_tokens),
{
    reveal_with_fuel(wire::nested, 4);
    reveal_with_fuel(wire::exact, 4);
    wire::exact_values_reread_as_themselves(request(query, model, max_tokens));
}

/// The body of a chat request. Read as JSON it is what the request is to send.
pub fn chat_body(query: &str, model: &str, max_tokens: usize) -> (body: String)
    ensures
        body@ == wire::compact(request(query@, model@, max_tokens)),
        wire::parsed(body@) == Reading::Read(request(query@, model@, max_tokens)),
{
    proof {
        lemma_request_readable(query@, model@, max_tokens);
    }
    wire::to_compact(&chat_request(query, model, max_tokens))
}

/// The content of the first choice in a reply.
pub open spec fn content(reply: Tree) -> Option<Seq<char>> {
    reply.member("choices"@).item(0).member("message"@).member("content"@).text()
}

/// Goes on where a request succeeded.
pub fn check_status(status: Status) -> (res: Result<(), Error>)
    ensures
        match res {
            Ok(()) => 200 <= status@ <= 299,
            Err(error) => error@ == ErrorView::ChatRefused(status@) && !(200 <= status@ <= 299),
        },
{
    if status.is_success() {
        Ok(())
    } else {
        Err(Error::ChatRefused(status))
    }
}

/// The content of the first choice in a reply, as a JSON value.
pub fn content_of(reply: &Json) -> (res: Result<String, Error>)
    ensures
        match res {
            Ok(text) => content(reply@) == Some(text@),
            Err(error) => error@ == ErrorView::ContentMissing && content(reply@) is None,
        },
{
    let message = match reply.member("choices") {
        Some(choices) => match choices.item(0) {
            Some(choice) => choice.member("message"),
            None => None,
        },
        None => None,
    };
    let text = match message {
        Some(message) => message.member_text("content"),
        None => None,
    };
    match text {
        Some(text) => Ok(text),
        None => Err(Error::ContentMissing),
    }
}

/// The content of the first choice in a reply.
pub fn completion(body: &str) -> (res: Result<String, Error>)
    ensures
        match wire::parsed(body@) {
            Reading::Refused(reason) => res matches Err(error) && error@
                == (ErrorView::ReplyMalformed { reason, body: body@ }),
            Reading::Read(reply) => match content(reply) {
                Some(text) => res matches Ok(answer) && answer@ == text,
                None => res matches Err(error) && error@ == ErrorView::ContentMissing,
            },
        },
{
    match wire::parse(body) {
        Ok(reply) => content_of(&reply),
        Err(reason) => Err(Error::ReplyMalformed { reason, body: body.to_string() }),
    }
}

/// What an attempt came to.
pub enum OutcomeView {
    Answer(Seq<char>),
    Failure(ErrorView),
}

/// The model of what an attempt came to.
pub open spec fn outcome(result: Result<String, Error>) -> OutcomeView {
    match result {
        Ok(answer) => OutcomeView::Answer(answer@),
        Err(error) => OutcomeView::Failure(error@),
    }
}

/// How many milliseconds pass after a failed attempt, counted from zero: the first time the
/// initial time, and each time twice as long as before.
pub open spec fn backoff(attempt: nat) -> nat
    decreases attempt,
{
    if attempt == 0 {
        INITIAL_BACKOFF as nat
    } else {
        2 * backoff((attempt - 1) as nat)
    }
}

/// What comes after an attempt.
pub enum NextView {
    Finished(OutcomeView),
    Again { attempt: nat, wait: nat },
}

/// What comes after an attempt, counted from zero: the end, if it brought an answer or was the
/// last, and else another attempt after a wait.
pub open spec fn next(attempt: nat, outcome: OutcomeView) -> NextView {
    if outcome is Answer || attempt + 1 >= MAX_RETRIES {
        NextView::Finished(outcome)
    } else {
        NextView::Again { attempt: attempt + 1, wait: backoff(attempt) }
    }
}

/// What attempts, one after the other, come to in the end, and how many milliseconds of waiting
/// that takes; `None` if more attempts would be made.
pub open spec fn run(attempt: nat, outcomes: Seq<OutcomeView>) -> Option<(OutcomeView, nat)>
    decreases outcomes.len(),
{
    if outcomes.len() == 0 {
        None
    } else {
        match next(attempt, outcomes.first()) {
            NextView::Finished(end) => Some((end, 0)),
            NextView::Again { attempt, wait } => match run(attempt, outcomes.drop_first()) {
                Some((end, waited)) => Some((end, wait + waited)),
                None => None,
            },
        }
    }
}

/// An attempt at a chat request.
#[derive(Debug)]
pub struct Attempt {
    number: u32,
}

/// What comes after an attempt.
#[derive(Debug)]
pub enum Next {
    /// This is the result.
    Finished(Result<String, Error>),
    /// Another attempt is to be made after so many milliseconds. The error is why.
    Again { attempt: Attempt, wait: u64, error: Error },
}

impl View for Attempt {
    type V = nat;

    closed spec fn view(&self) -> nat {
        self.number as nat
    }
}

impl View for Next {
    type V = NextView;

    open spec fn view(&self) -> NextView {
        match self {
            Next::Finished(result) => NextView::Finished(outcome(*result)),
            Next::Again { attempt, wait, .. } => NextView::Again {
                attempt: attempt@,
                wait: *wait as nat,
            },
        }
    }
}

impl Attempt {
    #[verifier::type_invariant]
    closed spec fn is_allowed(self) -> bool {
        self.number < MAX_RETRIES
    }

    /// The first attempt.
    pub fn first() -> (attempt: Attempt)
        ensures
            attempt@ == 0,
    {
        Attempt { number: 0 }
    }

    /// How many attempts were made, this one among them.
    pub fn count(&self) -> (count: u32)
        ensures
            count == self@ + 1,
            count <= MAX_RETRIES,
    {
        proof {
            use_type_invariant(self);
        }
        self.number + 1
    }

    /// Says what comes after this attempt, by what it came to.
    pub fn conclude(self, result: Result<String, Error>) -> (after: Next)
        ensures
            after@ == next(self@, outcome(result)),
            after matches Next::Finished(end) ==> end == result,
            after matches Next::Again { error, .. } ==> result == Err::<String, Error>(error),
            after is Finished <==> result is Ok || self@ >= 4,
            after matches Next::Again { attempt, wait, .. } ==> attempt@ == self@ + 1 && wait
                == 1000 * vstd::arithmetic::power2::pow2(self@),
    {
        proof {
            use_type_invariant(&self);
        }
        match result {
            Ok(answer) => Next::Finished(Ok(answer)),
            Err(error) => {
                if self.number + 1 >= MAX_RETRIES {
                    return Next::Finished(Err(error));
                }
                let mut wait: u64 = INITIAL_BACKOFF;
                for i in 0..self.number
                    invariant
                        self.number < 4,
                        wait == backoff(i as nat),
                        i == 0 ==> wait == 1000,
                        i == 1 ==> wait == 2000,
                        i == 2 ==> wait == 4000,
                        i == 3 ==> wait == 8000,
                {
                    wait = wait * 2;
                }
                proof {
                    waits_double(self@);
                }
                Next::Again { attempt: Attempt { number: self.number + 1 }, wait, error }
            },
        }
    }
}

/// The first answer among the attempts is the result, and the attempts before it cost their waits.
pub proof fn first_answer_is_the_result(outcomes: Seq<OutcomeView>, at: int)
    requires
        0 <= at < MAX_RETRIES,
        at < outcomes.len(),
        forall|i: int| 0 <= i < at ==> (#[trigger] outcomes[i]) is Failure,
        outcomes[at] is Answer,
    ensures
        run(0, outcomes) == Some((outcomes[at], waits(0, at as nat))),
{
    lemma_first_answer(0, outcomes, at);
}

/// If every attempt fails, the last failure is the result.
pub proof fn last_failure_is_the_result(outcomes: Seq<OutcomeView>)
    requires
        outcomes.len() >= MAX_RETRIES,
        forall|i: int| 0 <= i < MAX_RETRIES ==> (#[trigger] outcomes[i]) is Failure,
    ensures
        run(0, outcomes) == Some((outcomes[MAX_RETRIES - 1], waits(0, (MAX_RETRIES - 1) as nat))),
{
    lemma_last_failure(0, outcomes);
}

/// The waits after attempts, from one on, as many as counted.
pub open spec fn waits(attempt: nat, count: nat) -> nat
    decreases count,
{
    if count == 0 {
        0
    } else {
        backoff(attempt) + waits(attempt + 1, (count - 1) as nat)
    }
}

/// However often a request is sent, no more than fifteen seconds are spent waiting.
pub proof fn waits_are_bounded(attempts: nat)
    requires
        attempts < MAX_RETRIES,
    ensures
        waits(0, attempts) <= 15 * INITIAL_BACKOFF,
{
    reveal_with_fuel(waits, 5);
    reveal_with_fuel(backoff, 5);
}

proof fn lemma_first_answer(attempt: nat, outcomes: Seq<OutcomeView>, at: int)
    requires
        0 <= at < outcomes.len(),
        attempt + at < MAX_RETRIES,
        forall|i: int| 0 <= i < at ==> (#[trigger] outcomes[i]) is Failure,
        outcomes[at] is Answer,
    ensures
        run(attempt, outcomes) == Some((outcomes[at], waits(attempt, at as nat))),
    decreases at,
{
    if at > 0 {
        assert(outcomes[0] is Failure);
        lemma_first_answer(attempt + 1, outcomes.drop_first(), at - 1);
    }
}

proof fn lemma_last_failure(attempt: nat, outcomes: Seq<OutcomeView>)
    requires
        attempt < MAX_RETRIES,
        outcomes.len() >= MAX_RETRIES - attempt,
        forall|i: int| 0 <= i < MAX_RETRIES - attempt ==> (#[trigger] outcomes[i]) is Failure,
    ensures
        run(attempt, outcomes) == Some(
            (
                outcomes[MAX_RETRIES - 1 - attempt],
                waits(attempt, (MAX_RETRIES - 1 - attempt) as nat),
            ),
        ),
    decreases MAX_RETRIES - attempt,
{
    assert(outcomes[0] is Failure);
    if attempt + 1 < MAX_RETRIES {
        lemma_last_failure(attempt + 1, outcomes.drop_first());
    }
}

/// Where the choices of a reply are a list of at least one, and the first has a message with a
/// content that is a text, that text is the content of the reply, and nothing else is ever.
pub proof fn the_content_is_that_of_the_first_choice(
    reply: Tree,
    choices: Seq<Tree>,
    text: Seq<char>,
)
    ensures
        reply.member("choices"@) == Tree::Array(choices) && choices.len() > 0
            && choices[0].member("message"@).member("content"@) == Tree::Text(text) ==> content(reply)
            == Some(text),
        content(reply) == Some(text) ==> (reply.member("choices"@) matches Tree::Array(given)
            && given.len() > 0 && given[0].member("message"@).member("content"@) == Tree::Text(
            text,
        )),
{
}

/// Choices after the first do not matter: replies whose first choices are the same have the same
/// content.
pub proof fn other_choices_do_not_matter(
    reply: Tree,
    other: Tree,
    choices: Seq<Tree>,
    others: Seq<Tree>,
)
    requires
        reply.member("choices"@) == Tree::Array(choices),
        other.member("choices"@) == Tree::Array(others),
        choices.len() > 0,
        others.len() > 0,
        choices[0] == others[0],
    ensures
        content(reply) == content(other),
{
}

/// A request has the model, the limit on tokens, the wish for one piece and the messages, and
/// nothing else; the messages are one, by the user, with the question in full.
pub proof fn a_request_carries_what_it_is_given(
    query: Seq<char>,
    model: Seq<char>,
    max_tokens: usize,
    name: Seq<char>,
)
    ensures
        request(query, model, max_tokens).member("model"@) == Tree::Text(model),
        request(query, model, max_tokens).member("max_tokens"@) == Tree::Integer(max_tokens as int),
        request(query, model, max_tokens).member("stream"@) == Tree::Bool(false),
        request(query, model, max_tokens).has_member(name) ==> name == "model"@ || name
            == "max_tokens"@ || name == "stream"@ || name == "messages"@,
        request(query, model, max_tokens).member("messages"@) is Array,
        request(query, model, max_tokens).member("messages"@)->Array_0.len() == 1,
        request(query, model, max_tokens).member("messages"@).item(0).member("role"@) == Tree::Text(
            "user"@,
        ),
        request(query, model, max_tokens).member("messages"@).item(0).member("content"@)
            == Tree::Text(query),
        request(query, model, max_tokens).member("messages"@).item(0).has_member(name) ==> name
            == "role"@ || name == "content"@,
{
    reveal_strlit("model");
    reveal_strlit("max_tokens");
    reveal_strlit("messages");
    reveal_strlit("stream");
    reveal_strlit("role");
    reveal_strlit("content");
    assert("model"@.len() == 5 && "max_tokens"@.len() == 10 && "messages"@.len() == 8);
    assert("stream"@.len() == 6 && "role"@.len() == 4 && "content"@.len() == 7);
}

/// The wait after a failed attempt is a second, doubled once for every attempt before.
pub proof fn waits_double(attempt: nat)
    ensures
        backoff(attempt) == 1000 * vstd::arithmetic::power2::pow2(attempt),
    decreases attempt,
{
    vstd::arithmetic::power2::lemma2_to64();
    if attempt > 0 {
        waits_double((attempt - 1) as nat);
        vstd::arithmetic::power2::lemma_pow2_unfold(attempt);
    }
}

/// An answer ends the attempts, whichever attempt it is, and a failure does so at the fifth; after
/// any other failure the next attempt is made, after its wait.
pub proof fn only_failures_before_the_fifth_are_tried_again(attempt: nat, outcome: OutcomeView)
    ensures
        outcome is Answer || attempt >= 4 ==> next(attempt, outcome) == NextView::Finished(outcome),
        outcome is Failure && attempt < 4 ==> (next(attempt, outcome) matches NextView::Again {
            attempt: following,
            wait,
        } && following == attempt + 1 && wait == 1000 * vstd::arithmetic::power2::pow2(attempt)),
{
    waits_double(attempt);
}

} // verus!
