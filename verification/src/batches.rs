//! Splitting issues into batches that a chat request can hold, and asking about each.
use crate::error::Error;
use crate::json::{self, Json, Tree};
use crate::text;
use crate::wire::{self, Reading};
use vstd::prelude::*;

verus! {

/// How many bytes of issues a batch holds, unless it is a single issue.
pub const BATCH_SIZE: usize = 200_000;

/// How many batches are asked about at the same time.
pub const MAX_CONCURRENT_TASKS: usize = 50;

/// How many bytes the compact text of an issue has.
pub open spec fn size(issue: Tree) -> nat {
    vstd::utf8::encode_utf8(wire::compact(issue)).len()
}

/// The sizes of issues.
pub open spec fn sizes_of(issues: Seq<Tree>) -> Seq<nat> {
    Seq::new(issues.len(), |i: int| size(issues[i]))
}

/// What sizes come to together.
pub open spec fn total(sizes: Seq<nat>) -> nat
    decreases sizes.len(),
{
    if sizes.len() == 0 {
        0
    } else {
        total(sizes.drop_last()) + sizes.last()
    }
}

/// Whether things of these sizes may form a batch: a single one may, and several may that are not
/// too large together.
pub open spec fn fits(sizes: Seq<nat>) -> bool {
    sizes.len() <= 1 || total(sizes) <= BATCH_SIZE
}

/// How many things the longest batch has that starts at the first.
pub open spec fn longest(sizes: Seq<nat>) -> nat
    decreases sizes.len(),
{
    if fits(sizes) {
        sizes.len()
    } else {
        longest(sizes.drop_last())
    }
}

/// The batches of items of these sizes, in order, each as long as it may be.
pub open spec fn grouped<A>(items: Seq<A>, sizes: Seq<nat>) -> Seq<Seq<A>>
    decreases sizes.len(),
{
    if sizes.len() == 0 {
        Seq::empty()
    } else {
        proof {
            lemma_longest_bounds(sizes);
        }
        let n = longest(sizes) as int;
        seq![items.take(n)] + grouped(items.skip(n), sizes.skip(n))
    }
}

/// The batches of issues, in order, each as long as it may be.
pub open spec fn batched(issues: Seq<Tree>) -> Seq<Seq<Tree>> {
    grouped(issues, sizes_of(issues))
}

/// The longest batch has at least one thing, fits, and would not fit with one more.
pub proof fn lemma_longest_bounds(sizes: Seq<nat>)
    requires
        sizes.len() > 0,
    ensures
        1 <= longest(sizes) <= sizes.len(),
        fits(sizes.take(longest(sizes) as int)),
        longest(sizes) < sizes.len() ==> !fits(sizes.take(longest(sizes) as int + 1)),
    decreases sizes.len(),
{
    if fits(sizes) {
        assert(sizes.take(sizes.len() as int) =~= sizes);
    } else {
        let front = sizes.drop_last();
        lemma_longest_bounds(front);
        let n = longest(front) as int;
        assert(front.take(n) =~= sizes.take(n));
        if n < front.len() {
            assert(front.take(n + 1) =~= sizes.take(n + 1));
        } else {
            assert(sizes.take(n + 1) =~= sizes);
        }
    }
}

/// Some of the sizes come to no more than all.
proof fn lemma_total_of_front(sizes: Seq<nat>, n: int)
    requires
        0 <= n <= sizes.len(),
    ensures
        total(sizes.take(n)) <= total(sizes),
    decreases sizes.len(),
{
    if n < sizes.len() {
        lemma_total_of_front(sizes.drop_last(), n);
        assert(sizes.drop_last().take(n) =~= sizes.take(n));
    } else {
        assert(sizes.take(n) =~= sizes);
    }
}

/// A batch that fits, and would not with one more, is the longest.
proof fn lemma_longest(sizes: Seq<nat>, n: int)
    requires
        1 <= n <= sizes.len(),
        fits(sizes.take(n)),
        n < sizes.len() ==> !fits(sizes.take(n + 1)),
    ensures
        longest(sizes) == n,
    decreases sizes.len(),
{
    if n < sizes.len() {
        lemma_total_of_front(sizes, n + 1);
        let front = sizes.drop_last();
        assert(front.take(n) =~= sizes.take(n));
        if n < front.len() {
            assert(front.take(n + 1) =~= sizes.take(n + 1));
        }
        lemma_longest(front, n);
    } else {
        assert(sizes.take(n) =~= sizes);
    }
}

/// What batches hold, one batch after the other.
pub open spec fn flattened<A>(batches: Seq<Seq<A>>) -> Seq<A>
    decreases batches.len(),
{
    if batches.len() == 0 {
        Seq::empty()
    } else {
        batches.first() + flattened(batches.drop_first())
    }
}

/// Batches of sizes in which none is empty, each fits, and none would with the first of the next.
pub open spec fn tight(batches: Seq<Seq<nat>>) -> bool {
    &&& forall|i: int| 0 <= i < batches.len() ==> (#[trigger] batches[i]).len() > 0 && fits(
        batches[i],
    )
    &&& forall|i: int|
        0 <= i < batches.len() - 1 ==> !fits((#[trigger] batches[i]).push(batches[i + 1].first()))
}

/// The sizes of the issues in each batch.
pub open spec fn batch_sizes(batches: Seq<Seq<Tree>>) -> Seq<Seq<nat>> {
    Seq::new(batches.len(), |i: int| sizes_of(batches[i]))
}

/// No item is lost, repeated or moved by batching.
pub proof fn batching_keeps_items<A>(items: Seq<A>, sizes: Seq<nat>)
    requires
        items.len() == sizes.len(),
    ensures
        flattened(grouped(items, sizes)) == items,
    decreases sizes.len(),
{
    if sizes.len() > 0 {
        lemma_longest_bounds(sizes);
        let n = longest(sizes) as int;
        batching_keeps_items(items.skip(n), sizes.skip(n));
        assert(grouped(items, sizes).drop_first() =~= grouped(items.skip(n), sizes.skip(n)));
        assert(items.take(n) + items.skip(n) =~= items);
    } else {
        assert(items =~= Seq::empty());
    }
}

/// No batch of issues is empty, each holds at most the size of a batch or a single issue, and none
/// could hold the first issue of the next batch as well.
pub proof fn batching_is_tight(issues: Seq<Tree>)
    ensures
        tight(batch_sizes(batched(issues))),
    decreases issues.len(),
{
    let sizes = sizes_of(issues);
    let batches = batched(issues);
    if issues.len() > 0 {
        lemma_longest_bounds(sizes);
        let n = longest(sizes) as int;
        let rest = issues.skip(n);
        assert(sizes_of(rest) =~= sizes.skip(n));
        batching_is_tight(rest);
        let later = batch_sizes(batched(rest));
        let all = batch_sizes(batches);
        assert(all[0] =~= sizes.take(n));
        assert forall|i: int| 1 <= i < all.len() implies #[trigger] all[i] == later[i - 1] by {
            assert(batches[i] == batched(rest)[i - 1]);
        }
        assert forall|i: int| 0 <= i < all.len() - 1 implies !fits(
            (#[trigger] all[i]).push(all[i + 1].first()),
        ) by {
            if i > 0 {
                assert(all[i] == later[i - 1]);
                assert(all[i + 1] == later[i]);
            } else {
                lemma_longest_bounds(sizes.skip(n));
                assert(batches[1] == batched(rest)[0]);
                assert(all[0].push(all[1].first()) =~= sizes.take(n + 1));
            }
        }
    }
}

/// Batches that keep the issues and are tight are the batches: nothing else is both.
pub proof fn batching_is_unique(issues: Seq<Tree>, batches: Seq<Seq<Tree>>)
    requires
        flattened(batches) == issues,
        tight(batch_sizes(batches)),
    ensures
        batches == batched(issues),
    decreases batches.len(),
{
    if batches.len() == 0 {
        assert(batches =~= batched(issues));
    } else {
        let sizes = sizes_of(issues);
        let all = batch_sizes(batches);
        let first = batches.first();
        let others = batches.drop_first();
        let later = batch_sizes(others);
        let n = first.len() as int;
        assert(all[0] == sizes_of(first));
        assert(issues.take(n) =~= first);
        assert(issues.skip(n) =~= flattened(others));
        assert(sizes.take(n) =~= all[0]);
        assert(sizes_of(issues.skip(n)) =~= sizes.skip(n));
        assert forall|i: int| 0 <= i < later.len() implies #[trigger] later[i] == all[i + 1] by {
            assert(others[i] == batches[i + 1]);
        }
        assert forall|i: int| 0 <= i < later.len() - 1 implies !fits(
            (#[trigger] later[i]).push(later[i + 1].first()),
        ) by {
            assert(later[i + 1] == all[i + 2]);
        }
        if n < issues.len() {
            assert(others.len() > 0);
            assert(later[0] == all[1]);
            assert(flattened(others).first() == others[0].first());
            assert(sizes.take(n + 1) =~= all[0].push(all[1].first()));
        }
        lemma_longest(sizes, n);
        batching_is_unique(issues.skip(n), others);
        assert(batches =~= seq![first] + others);
    }
}

/// The models of batches of issues.
pub open spec fn batch_trees(batches: Seq<Vec<Json>>) -> Seq<Seq<Tree>> {
    Seq::new(batches.len(), |i: int| json::trees(batches[i]@))
}

/// Sizes as numbers without a limit.
pub open spec fn amounts(sizes: Seq<usize>) -> Seq<nat> {
    Seq::new(sizes.len(), |i: int| sizes[i] as nat)
}

/// Splits issues of given sizes into batches.
pub fn group(issues: Vec<Json>, sizes: &Vec<usize>) -> (batches: Vec<Vec<Json>>)
    requires
        issues@.len() == sizes@.len(),
    ensures
        batch_trees(batches@) == grouped(json::trees(issues@), amounts(sizes@)),
{
    let ghost all = json::trees(issues@);
    let ghost amount = amounts(sizes@);
    let ghost given = issues@;
    let mut batches: Vec<Vec<Json>> = Vec::new();
    let mut current: Vec<Json> = Vec::new();
    let mut current_size: usize = 0;
    let mut next: usize = 0;
    let ghost mut start: int = 0;
    assert(all.skip(0) =~= all);
    assert(amount.skip(0) =~= amount);
    assert(batch_trees(batches@) + grouped(all, amount) =~= grouped(all, amount));
    for issue in it: issues
        invariant
            it.seq() == given,
            given.len() == sizes@.len(),
            all == json::trees(given),
            amount == amounts(sizes@),
            next == it.index(),
            0 <= start <= next,
            start == next ==> next == 0,
            json::trees(current@) == all.subrange(start, next as int),
            fits(amount.subrange(start, next as int)),
            current_size == total(amount.subrange(start, next as int)),
            batch_trees(batches@) + grouped(all.skip(start), amount.skip(start)) == grouped(
                all,
                amount,
            ),
    {
        let ghost i = next as int;
        assert(next < sizes.len());
        let issue_size: usize = sizes[next];
        let ghost cur = json::trees(current@);
        let ghost held = amount.subrange(start, i);
        let room: bool = current_size <= BATCH_SIZE && issue_size <= BATCH_SIZE - current_size;
        proof {
            assert(held.push(amount[i]).drop_last() =~= held);
            assert(room == (total(held.push(amount[i])) <= BATCH_SIZE));
        }
        if !room && current.len() > 0 {
            let ghost before = batches@;
            proof {
                let rest = amount.skip(start);
                let n = i - start;
                assert(cur.len() == n);
                assert(rest.take(n) =~= held);
                assert(rest.take(n + 1) =~= held.push(amount[i]));
                lemma_longest(rest, n);
                assert(rest.skip(n) =~= amount.skip(i));
                assert(all.skip(start).skip(n) =~= all.skip(i));
                assert(all.skip(start).take(n) =~= cur);
                assert(grouped(all.skip(start), rest) == seq![cur] + grouped(
                    all.skip(i),
                    amount.skip(i),
                ));
            }
            batches.push(current);
            assert(batch_trees(batches@) =~= batch_trees(before).push(cur));
            assert(batch_trees(batches@) + grouped(all.skip(i), amount.skip(i)) =~= batch_trees(
                before,
            ) + (seq![cur] + grouped(all.skip(i), amount.skip(i))));
            current = Vec::new();
            current_size = 0;
            proof {
                start = i;
            }
            assert(json::trees(current@) =~= all.subrange(start, i));
            assert(amount.subrange(start, i) =~= Seq::empty());
        }
        let ghost kept = json::trees(current@);
        let ghost filled = amount.subrange(start, i);
        assert(current_size == total(filled));
        assert(filled.push(amount[i]).drop_last() =~= filled);
        assert(filled.push(amount[i]) =~= amount.subrange(start, i + 1));
        current.push(issue);
        current_size = current_size + issue_size;
        next = next + 1;
        assert(json::trees(current@) =~= kept.push(all[i]));
        assert(json::trees(current@) =~= all.subrange(start, i + 1));
    }
    if current.len() > 0 {
        let ghost before = batches@;
        let ghost cur = json::trees(current@);
        proof {
            let rest = amount.skip(start);
            let n = rest.len() as int;
            assert(rest =~= amount.subrange(start, amount.len() as int));
            assert(rest.take(n) =~= rest);
            lemma_longest(rest, n);
            assert(all.skip(start).take(n) =~= cur);
            assert(grouped(all.skip(start).skip(n), rest.skip(n)) =~= Seq::empty());
            assert(grouped(all.skip(start), rest) =~= seq![cur]);
        }
        batches.push(current);
        assert(batch_trees(batches@) =~= batch_trees(before) + seq![cur]);
    } else {
        assert(amount =~= Seq::empty());
        assert(batch_trees(batches@) =~= grouped(all, amount));
    }
    batches
}

/// The size of each issue.
fn measure(issues: &Vec<Json>) -> (sizes: Vec<usize>)
    ensures
        amounts(sizes@) == sizes_of(json::trees(issues@)),
{
    let mut sizes: Vec<usize> = Vec::new();
    for i in 0..issues.len()
        invariant
            sizes@.len() == i,
            forall|j: int| 0 <= j < i ==> #[trigger] sizes@[j] == size(issues@[j]@),
    {
        let written = wire::to_compact(&issues[i]);
        sizes.push(written.as_str().as_bytes().len());
    }
    assert(amounts(sizes@) =~= sizes_of(json::trees(issues@)));
    sizes
}

/// Splits issues into batches.
pub fn split(issues: Vec<Json>) -> (batches: Vec<Vec<Json>>)
    ensures
        batch_trees(batches@) == batched(json::trees(issues@)),
{
    let sizes = measure(&issues);
    assert(amounts(sizes@).len() == sizes_of(json::trees(issues@)).len());
    group(issues, &sizes)
}

/// What is asked about data.
pub open spec fn query_text(message: Seq<char>, data: Seq<char>) -> Seq<char> {
    "Question(s):\n"@ + message + "\n\nJira data:\n"@ + data
        + "\n\nBased on Jira data, please provide a comprehensive answer for the question(s)."@
}

/// What is asked about a batch: the data is the compact text of its issues.
pub open spec fn batch_text(message: Seq<char>, batch: Seq<Tree>) -> Seq<char> {
    query_text(message, wire::compact(Tree::Array(batch)))
}

/// What is asked about each batch.
pub open spec fn query_texts(message: Seq<char>, issues: Seq<Tree>) -> Seq<Seq<char>> {
    Seq::new(batched(issues).len(), |i: int| batch_text(message, batched(issues)[i]))
}

/// What is asked about data.
pub fn data_query(message: &str, data: &str) -> (query: String)
    ensures
        query@ == query_text(message@, data@),
{
    "Question(s):\n".to_string().concat(message).concat("\n\nJira data:\n").concat(data).concat(
        "\n\nBased on Jira data, please provide a comprehensive answer for the question(s).",
    )
}

/// What is asked about a batch.
pub fn batch_query(message: &str, batch: Vec<Json>) -> (query: String)
    ensures
        query@ == batch_text(message@, json::trees(batch@)),
{
    proof {
        json::lemma_array_trees(batch);
    }
    data_query(message, wire::to_compact(&Json::Array(batch)).as_str())
}

/// Splits issues into batches, and says what is asked about each.
pub fn batch_queries(message: &str, issues: Vec<Json>) -> (queries: Vec<String>)
    ensures
        text::views(queries@) == query_texts(message@, json::trees(issues@)),
        queries@.len() == batched(json::trees(issues@)).len(),
        forall|i: int|
            0 <= i < queries@.len() ==> (#[trigger] queries@[i])@ == batch_text(
                message@,
                batched(json::trees(issues@))[i],
            ),
{
    let ghost all = json::trees(issues@);
    let batches = split(issues);
    let ghost made = batches@;
    let mut queries: Vec<String> = Vec::new();
    for batch in it: batches
        invariant
            it.seq() == made,
            batch_trees(made) == batched(all),
            queries@.len() == it.index(),
            forall|j: int|
                0 <= j < it.index() ==> (#[trigger] queries@[j])@ == batch_text(
                    message@,
                    batched(all)[j],
                ),
    {
        assert(batch_trees(made)[it.index() as int] == json::trees(batch@));
        queries.push(batch_query(message, batch));
    }
    assert(text::views(queries@) =~= query_texts(message@, all));
    queries
}

/// Reads fetched data, and says what is asked about it. There is no answer for data that is JSON
/// but no array.
pub fn plan(message: &str, jira_data: &str) -> (res: Result<Option<Vec<String>>, Error>)
    ensures
        match wire::parsed(jira_data@) {
            Reading::Refused(reason) => res matches Err(Error::JsonMalformed(text)) && text@
                == reason,
            Reading::Read(data) => match data.items() {
                Some(issues) => res matches Ok(Some(queries)) && text::views(queries@)
                    == query_texts(message@, issues),
                None => res matches Ok(None),
            },
        },
{
    match wire::parse(jira_data) {
        Err(reason) => Err(Error::JsonMalformed(reason)),
        Ok(Json::Array(issues)) => {
            proof {
                json::lemma_array_trees(issues);
            }
            Ok(Some(batch_queries(message, issues)))
        },
        Ok(_) => Ok(None),
    }
}

/// What was fetched is what is asked about: the text that a fetch ends with is read as the issues
/// that the fetch kept, as many, in the same order and with the same keys, and each of them stands
/// in one of the batches. They are the issues kept but for decimals, each of which is as its own
/// text is read, and so the same where decimals are read back.
pub proof fn fetched_issues_are_asked_about(fetched: Seq<char>, kept: Seq<Tree>, asked: Seq<Tree>)
    requires
        crate::fetch::reads_back(fetched, kept),
        wire::readable(Tree::Array(kept), wire::DEPTH_LIMIT as nat),
        asked == wire::reread_all(kept),
    ensures
        wire::parsed(fetched) == Reading::Read(Tree::Array(asked)),
        asked.len() == kept.len(),
        forall|i: int|
            0 <= i < kept.len() && (#[trigger] kept[i]).member("key"@).text() is Some
                ==> asked[i].member("key"@) == kept[i].member("key"@),
        wire::exact(Tree::Array(kept)) ==> asked == kept,
        flattened(batched(asked)) == asked,
        tight(batch_sizes(batched(asked))),
{
    batching_keeps_items(asked, sizes_of(asked));
    batching_is_tight(asked);
    assert forall|i: int|
        0 <= i < kept.len() && (#[trigger] kept[i]).member("key"@).text() is Some implies asked[i].member(
        "key"@,
    ) == kept[i].member("key"@) by {
        wire::rereading_keeps_the_rest(kept[i], "key"@, 0);
    }
    if wire::exact(Tree::Array(kept)) {
        wire::exact_values_reread_as_themselves(Tree::Array(kept));
        wire::rereading_keeps_the_rest(Tree::Array(kept), "key"@, 0);
    }
}

/// Puts the summaries of batches together. If any failed, the first failure is the result.
pub fn collect_summaries(results: Vec<Result<String, Error>>) -> (res: Result<Vec<String>, Error>)
    ensures
        match res {
            Ok(summaries) => summaries@.len() == results@.len() && forall|i: int|
                0 <= i < results@.len() ==> #[trigger] results@[i] == Ok::<String, Error>(
                    summaries@[i],
                ),
            Err(error) => exists|i: int|
                0 <= i < results@.len() && #[trigger] results@[i] == Err::<String, Error>(error)
                    && forall|j: int| 0 <= j < i ==> (#[trigger] results@[j]) is Ok,
        },
{
    let ghost all = results@;
    let mut summaries: Vec<String> = Vec::new();
    for result in it: results
        invariant
            it.seq() == all,
            summaries@.len() == it.index(),
            forall|j: int|
                0 <= j < it.index() ==> #[trigger] all[j] == Ok::<String, Error>(summaries@[j]),
    {
        match result {
            Ok(summary) => summaries.push(summary),
            Err(error) => {
                assert(all[it.index() as int] == Err::<String, Error>(error));
                return Err(error);
            },
        }
    }
    Ok(summaries)
}

/// Put one after the other, batches are what they hold.
proof fn lemma_flattened<A>(batches: Seq<Seq<A>>)
    ensures
        flattened(batches) == batches.flatten(),
    decreases batches.len(),
{
    if batches.len() > 0 {
        lemma_flattened(batches.drop_first());
    }
}

/// Sizes come to what they come to when added up one by one.
proof fn lemma_total(sizes: Seq<nat>, sum: spec_fn(int, nat) -> int)
    requires
        forall|before: int, n: nat| #[trigger] sum(before, n) == before + n,
    ensures
        sizes.fold_left(0int, sum) == total(sizes),
    decreases sizes.len(),
{
    if sizes.len() > 0 {
        lemma_total(sizes.drop_last(), sum);
    }
}

/// Issues have as many bytes as their compact texts when added up one by one.
proof fn lemma_bytes(issues: Seq<Tree>, bytes: spec_fn(int, Tree) -> int)
    requires
        forall|before: int, issue: Tree| #[trigger]
            bytes(before, issue) == before + vstd::utf8::encode_utf8(wire::compact(issue)).len(),
    ensures
        issues.fold_left(0int, bytes) == total(sizes_of(issues)),
    decreases issues.len(),
{
    if issues.len() > 0 {
        lemma_bytes(issues.drop_last(), bytes);
        assert(sizes_of(issues).drop_last() =~= sizes_of(issues.drop_last()));
    }
}

/// Put one after the other, the batches of issues are the issues. None is empty, each of more than
/// one issue has at most 200000 bytes of compact text, and with the first issue of the next it
/// would have more.
pub proof fn batches_are_full_and_no_fuller(issues: Seq<Tree>, bytes: spec_fn(int, Tree) -> int, i: int)
    requires
        forall|before: int, issue: Tree| #[trigger]
            bytes(before, issue) == before + vstd::utf8::encode_utf8(wire::compact(issue)).len(),
        0 <= i < batched(issues).len(),
    ensures
        batched(issues).flatten() == issues,
        batched(issues)[i].len() > 0,
        batched(issues)[i].len() > 1 ==> batched(issues)[i].fold_left(0int, bytes) <= 200_000,
        i + 1 < batched(issues).len() ==> batched(issues)[i + 1].len() > 0 && batched(
            issues,
        )[i].push(batched(issues)[i + 1][0]).fold_left(0int, bytes) > 200_000,
{
    let batches = batched(issues);
    let all = batch_sizes(batches);
    batching_keeps_items(issues, sizes_of(issues));
    lemma_flattened(batches);
    batching_is_tight(issues);
    assert(all[i] == sizes_of(batches[i]));
    lemma_bytes(batches[i], bytes);
    if i + 1 < batches.len() {
        assert(all[i + 1] == sizes_of(batches[i + 1]));
        let more = batches[i].push(batches[i + 1][0]);
        lemma_bytes(more, bytes);
        assert(sizes_of(more) =~= all[i].push(all[i + 1].first()));
        assert(!fits(all[i].push(all[i + 1].first())));
    }
}

/// Whatever is batched by sizes, put one after the other the batches are what was batched, each is
/// as long as the batch of its sizes, and the batches of the sizes are these: none is empty, each
/// of more than one size comes to at most 200000, and with the first of the next to more.
pub proof fn groups_are_full_and_no_fuller<A>(
    items: Seq<A>,
    sizes: Seq<nat>,
    sum: spec_fn(int, nat) -> int,
    i: int,
)
    requires
        items.len() == sizes.len(),
        forall|before: int, n: nat| #[trigger] sum(before, n) == before + n,
        0 <= i < grouped(items, sizes).len(),
    ensures
        grouped(items, sizes).flatten() == items,
        grouped(sizes, sizes).flatten() == sizes,
        grouped(items, sizes).len() == grouped(sizes, sizes).len(),
        grouped(items, sizes)[i].len() == grouped(sizes, sizes)[i].len(),
        grouped(sizes, sizes)[i].len() > 0,
        grouped(sizes, sizes)[i].len() > 1 ==> grouped(sizes, sizes)[i].fold_left(0int, sum)
            <= 200_000,
        i + 1 < grouped(sizes, sizes).len() ==> grouped(sizes, sizes)[i + 1].len() > 0 && grouped(
            sizes,
            sizes,
        )[i].push(grouped(sizes, sizes)[i + 1][0]).fold_left(0int, sum) > 200_000,
{
    let groups = grouped(sizes, sizes);
    batching_keeps_items(items, sizes);
    batching_keeps_items(sizes, sizes);
    lemma_flattened(grouped(items, sizes));
    lemma_flattened(groups);
    lemma_groups(items, sizes);
    lemma_total(groups[i], sum);
    if i + 1 < groups.len() {
        lemma_total(groups[i].push(groups[i + 1][0]), sum);
        assert(groups[i + 1].len() > 0);
        assert(!fits(groups[i].push(groups[i + 1].first())));
    }
}

/// Batches are as long as those of their sizes, which are tight.
proof fn lemma_groups<A>(items: Seq<A>, sizes: Seq<nat>)
    requires
        items.len() == sizes.len(),
    ensures
        grouped(items, sizes).len() == grouped(sizes, sizes).len(),
        forall|i: int|
            0 <= i < grouped(items, sizes).len() ==> (#[trigger] grouped(items, sizes)[i]).len()
                == grouped(sizes, sizes)[i].len(),
        tight(grouped(sizes, sizes)),
    decreases sizes.len(),
{
    if sizes.len() > 0 {
        lemma_longest_bounds(sizes);
        let n = longest(sizes) as int;
        let rest = sizes.skip(n);
        lemma_groups(items.skip(n), rest);
        let all = grouped(sizes, sizes);
        let later = grouped(rest, rest);
        assert forall|i: int| 0 <= i < grouped(items, sizes).len() implies (#[trigger] grouped(
            items,
            sizes,
        )[i]).len() == all[i].len() by {
            if i > 0 {
                assert(grouped(items, sizes)[i] == grouped(items.skip(n), rest)[i - 1]);
                assert(all[i] == later[i - 1]);
            }
        }
        assert forall|i: int| 1 <= i < all.len() implies #[trigger] all[i] == later[i - 1] by {}
        assert forall|i: int| 0 <= i < all.len() - 1 implies !fits(
            (#[trigger] all[i]).push(all[i + 1].first()),
        ) by {
            if i > 0 {
                assert(all[i] == later[i - 1]);
                assert(all[i + 1] == later[i]);
            } else {
                lemma_longest_bounds(rest);
                assert(all[1] == later[0]);
                assert(all[0].push(all[1].first()) =~= sizes.take(n + 1));
            }
        }
    }
}

/// There is one question for each batch, and the batches, put one after the other, are all the
/// issues. The question about a batch starts with the message, ends with what is to be done, and
/// has in between the compact text of that batch and of no other.
pub proof fn each_batch_is_asked_about(message: Seq<char>, issues: Seq<Tree>, i: int)
    requires
        0 <= i < query_texts(message, issues).len(),
    ensures
        query_texts(message, issues).len() == batched(issues).len(),
        batched(issues).flatten() == issues,
        ("Question(s):\n"@ + message + "\n\nJira data:\n"@ + wire::compact(
            Tree::Array(batched(issues)[i]),
        )).is_prefix_of(query_texts(message, issues)[i]),
        ("\n\nBased on Jira data, please provide a comprehensive answer for the question(s)."@).is_suffix_of(
            query_texts(message, issues)[i],
        ),
        query_texts(message, issues)[i].len() == ("Question(s):\n"@ + message
            + "\n\nJira data:\n"@).len() + wire::compact(Tree::Array(batched(issues)[i])).len()
            + "\n\nBased on Jira data, please provide a comprehensive answer for the question(s)."@.len(),
{
    batching_keeps_items(issues, sizes_of(issues));
    lemma_flattened(batched(issues));
    a_question_has_message_and_data(message, wire::compact(Tree::Array(batched(issues)[i])));
}

/// There are questions exactly where there are issues.
pub proof fn issues_are_asked_about_if_there_are_any(message: Seq<char>, issues: Seq<Tree>)
    ensures
        query_texts(message, issues).len() == batched(issues).len(),
        query_texts(message, issues).len() == 0 <==> issues.len() == 0,
        batched(issues).flatten() == issues,
{
    batching_keeps_items(issues, sizes_of(issues));
    lemma_flattened(batched(issues));
}

/// A question starts with the message, ends with what is to be done, and has the data in between,
/// in full.
pub proof fn a_question_has_message_and_data(message: Seq<char>, data: Seq<char>)
    ensures
        ("Question(s):\n"@ + message + "\n\nJira data:\n"@ + data).is_prefix_of(
            query_text(message, data),
        ),
        ("\n\nBased on Jira data, please provide a comprehensive answer for the question(s)."@).is_suffix_of(
            query_text(message, data),
        ),
        query_text(message, data).len() == ("Question(s):\n"@ + message + "\n\nJira data:\n"@).len()
            + data.len()
            + "\n\nBased on Jira data, please provide a comprehensive answer for the question(s)."@.len(),
{
}

/// The question about a batch is that about its compact text.
pub proof fn a_batch_is_asked_about_in_full(message: Seq<char>, batch: Seq<Tree>)
    ensures
        ("Question(s):\n"@ + message + "\n\nJira data:\n"@ + wire::compact(
            Tree::Array(batch),
        )).is_prefix_of(batch_text(message, batch)),
        batch_text(message, batch).len() == query_text(message, wire::compact(Tree::Array(batch))).len(),
        ("\n\nBased on Jira data, please provide a comprehensive answer for the question(s)."@).is_suffix_of(
            batch_text(message, batch),
        ),
{
    a_question_has_message_and_data(message, wire::compact(Tree::Array(batch)));
}

/// Batches and sizes are taken one by one.
pub proof fn batches_are_taken_one_by_one(batches: Seq<Vec<Json>>, sizes: Seq<usize>, i: int, j: int)
    ensures
        batch_trees(batches).len() == batches.len(),
        0 <= i < batches.len() ==> batch_trees(batches)[i].len() == batches[i]@.len(),
        0 <= i < batches.len() && 0 <= j < batches[i]@.len() ==> batch_trees(batches)[i][j]
            == batches[i]@[j]@,
        amounts(sizes).len() == sizes.len(),
        0 <= i < sizes.len() ==> amounts(sizes)[i] == sizes[i],
{
}

} // verus!
