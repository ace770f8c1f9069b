//! Whole fetches from a server whose replies depend on the requests alone.
use crate::fetch::{self, GatherStepView, GatherView, SearchStepView, SearchView};
use crate::json::Tree;
use crate::wire::{self, Reading};
use vstd::prelude::*;

verus! {

/// A server whose replies depend on the requests alone: the status and the body of a page, by the
/// query, the position at which the page starts and the number of issues asked for, and the body
/// of the comments of an issue, by its key.
pub struct Server {
    pub search: spec_fn(Seq<char>, nat, nat) -> (u16, Seq<char>),
    pub comments: spec_fn(Seq<char>) -> Seq<char>,
}

/// The key of an issue; empty where it has none.
pub open spec fn key_of(issue: Tree) -> Seq<char> {
    match issue.member("key"@).text() {
        Some(key) => key,
        None => Seq::empty(),
    }
}

impl Server {
    /// Whether an issue has a key, and the comments for it are JSON.
    pub open spec fn answers(self, issue: Tree) -> bool {
        issue.member("key"@).text() is Some && wire::parsed((self.comments)(key_of(issue))) is Read
    }

    /// The reply that has the comments of an issue.
    pub open spec fn reply(self, issue: Tree) -> Tree {
        match wire::parsed((self.comments)(key_of(issue))) {
            Reading::Read(reply) => reply,
            Reading::Refused(_) => Tree::Null,
        }
    }

    /// What is kept of issues, each with its comments.
    pub open spec fn kept(self, issues: Seq<Tree>) -> Seq<Tree> {
        Seq::new(issues.len(), |i: int| fetch::issue_data(issues[i], self.reply(issues[i])))
    }

    /// Whether the query is answered from one list of issues, page after page: a page starts where
    /// it is asked to, has as many issues as are asked for, unless that is more than `cap` or than
    /// are left, and says how many issues the list has.
    pub open spec fn pages(self, jql: Seq<char>, max_results: nat, list: Seq<Tree>, cap: nat) -> bool {
        forall|start: nat|
            start <= list.len() ==> {
                let (status, body) = #[trigger] (self.search)(jql, start, max_results);
                200 <= status <= 299 && (wire::parsed(body) matches Reading::Read(page)
                    && page.member("issues"@) == Tree::Array(
                    first(list.skip(start as int), if cap < max_results {
                        cap
                    } else {
                        max_results
                    }),
                ) && page.member("total"@) == Tree::Integer(list.len() as int))
            }
    }
}

/// The first `n` of things, or all where there are fewer.
pub open spec fn first<A>(things: Seq<A>, n: nat) -> Seq<A> {
    if n < things.len() {
        things.take(n as int)
    } else {
        things
    }
}

impl GatherView {
    /// What the server's reply to the request for comments leads to.
    pub open spec fn ask(self, comments: spec_fn(Seq<char>) -> Seq<char>) -> GatherStepView {
        self.receive(comments(key_of(self.issues[self.done.len() as int])))
    }

    /// What the server's replies lead to in the end.
    pub open spec fn drive(self, comments: spec_fn(Seq<char>) -> Seq<char>) -> GatherStepView
        decreases self.issues.len() - self.done.len(),
    {
        if self.settle() is Comments {
            match self.ask(comments) {
                GatherStepView::Comments(next) => next.drive(comments),
                other => other,
            }
        } else {
            self.settle()
        }
    }
}

impl SearchView {
    /// What the server's reply to the request for the next page leads to.
    pub open spec fn ask(self, server: Server) -> SearchStepView {
        let (status, body) = (server.search)(
            self.jql,
            self.issues.len(),
            self.max_results as nat,
        );
        self.receive(status, body)
    }

    /// What the server's replies to at most so many requests for a page lead to.
    pub open spec fn drive(self, server: Server, requests: nat) -> SearchStepView
        decreases requests,
    {
        if requests == 0 {
            SearchStepView::More(self)
        } else {
            match self.ask(server) {
                SearchStepView::More(next) => next.drive(server, (requests - 1) as nat),
                other => other,
            }
        }
    }

    /// What a fetch comes to, pages and comments, with at most so many requests for a page; `None`
    /// if more pages would be asked for.
    pub open spec fn fetch(self, server: Server, requests: nat) -> Option<GatherStepView> {
        match self.drive(server, requests) {
            SearchStepView::More(_) => None,
            SearchStepView::Enough { gather, .. } => Some(
                match gather {
                    GatherStepView::Comments(pending) => pending.drive(server.comments),
                    other => other,
                },
            ),
            SearchStepView::Failed(error) => Some(GatherStepView::Failed(error)),
        }
    }

    /// The search as it stands at its end, where it succeeds with at most so many requests.
    pub open spec fn found(self, server: Server, requests: nat) -> Option<SearchView>
        decreases requests,
    {
        if requests == 0 {
            None
        } else {
            let (status, body) = (server.search)(
                self.jql,
                self.issues.len(),
                self.max_results as nat,
            );
            match wire::parsed(body) {
                Reading::Read(page) => match page.member("issues"@).items() {
                    Some(items) => if !(200 <= status <= 299) {
                        None
                    } else if self.with_page(items).complete(page) {
                        Some(self.with_page(items))
                    } else {
                        self.with_page(items).found(server, (requests - 1) as nat)
                    },
                    None => None,
                },
                Reading::Refused(_) => None,
            }
        }
    }

    /// The same search with another limit on issues.
    pub open spec fn limited_to(self, max_issues: usize) -> SearchView {
        SearchView { max_issues, ..self }
    }
}

/// The end of a search that succeeds is that of the search as it stands at its end.
proof fn lemma_drive_is_found(search: SearchView, server: Server, requests: nat)
    ensures
        match search.found(server, requests) {
            Some(end) => search.drive(server, requests) == end.end(),
            None => !(search.drive(server, requests) is Enough),
        },
    decreases requests,
{
    if requests > 0 {
        match search.ask(server) {
            SearchStepView::More(next) => lemma_drive_is_found(
                next,
                server,
                (requests - 1) as nat,
            ),
            _ => {},
        }
    }
}

/// A search at its end has the issues that it had before, and perhaps more, and is otherwise as it
/// was.
proof fn lemma_found_extends(search: SearchView, server: Server, requests: nat)
    ensures
        search.found(server, requests) matches Some(end) ==> {
            &&& end == SearchView { issues: end.issues, ..search }
            &&& search.issues.len() <= end.issues.len()
            &&& end.issues.take(search.issues.len() as int) == search.issues
        },
    decreases requests,
{
    if requests > 0 {
        if let Some(end) = search.found(server, requests) {
            let (status, body) = (server.search)(
                search.jql,
                search.issues.len(),
                search.max_results as nat,
            );
            let page = wire::parsed(body)->Read_0;
            let next = search.with_page(page.member("issues"@).items()->0);
            assert(next.issues.take(search.issues.len() as int) =~= search.issues);
            if !next.complete(page) {
                lemma_found_extends(next, server, (requests - 1) as nat);
                assert(end.issues.take(search.issues.len() as int) =~= end.issues.take(
                    next.issues.len() as int,
                ).take(search.issues.len() as int));
            }
        }
    }
}

/// A gathering ends with all that is kept exactly where every issue that is left has a key and
/// its comments are JSON.
proof fn lemma_gather_ends(gather: GatherView, server: Server)
    requires
        gather.done.len() <= gather.issues.len(),
    ensures
        gather.drive(server.comments) is Done <==> forall|i: int|
            gather.done.len() <= i < gather.issues.len() ==> server.answers(
                #[trigger] gather.issues[i],
            ),
        gather.drive(server.comments) is Done ==> gather.drive(server.comments)
            == GatherStepView::Done(
            wire::pretty(
                Tree::Array(
                    gather.done + server.kept(gather.issues.skip(gather.done.len() as int)),
                ),
            ),
        ),
    decreases gather.issues.len() - gather.done.len(),
{
    let at = gather.done.len() as int;
    let left = gather.issues.skip(at);
    if at < gather.issues.len() {
        let issue = gather.issues[at];
        if server.answers(issue) {
            let next = gather.with_reply(server.reply(issue));
            lemma_gather_ends(next, server);
            assert(next.drive(server.comments) == gather.drive(server.comments)) by {
                assert(gather.ask(server.comments) == next.settle());
            }
            assert(next.done + server.kept(next.issues.skip(at + 1)) =~= gather.done + server.kept(
                left,
            ));
        }
    } else {
        assert(gather.done + server.kept(left) =~= gather.done);
    }
}

/// A fetch ends with the text of what is kept exactly where its search succeeds, and every issue
/// up to the limit has a key and comments that are JSON.
proof fn lemma_fetch_ends(search: SearchView, server: Server, requests: nat)
    ensures
        match search.found(server, requests) {
            Some(end) => {
                &&& search.fetch(server, requests) == Some(
                    (GatherView {
                        host: end.host,
                        issues: end.limited(),
                        done: Seq::empty(),
                    }).drive(server.comments),
                )
                &&& search.fetch(server, requests)->0 is Done <==> forall|i: int|
                    0 <= i < end.limited().len() ==> server.answers(#[trigger] end.limited()[i])
                &&& search.fetch(server, requests)->0 is Done ==> search.fetch(server, requests)
                    == Some(
                    GatherStepView::Done(wire::pretty(Tree::Array(server.kept(end.limited())))),
                )
            },
            None => !(search.fetch(server, requests) matches Some(step) && step is Done),
        },
{
    lemma_drive_is_found(search, server, requests);
    if let Some(end) = search.found(server, requests) {
        let start = GatherView { host: end.host, issues: end.limited(), done: Seq::empty() };
        lemma_gather_ends(start, server);
        assert(start.issues.skip(0) =~= start.issues);
        assert(start.done + server.kept(start.issues) =~= server.kept(start.issues));
    }
}

/// However many requests for a page are allowed, a fetch that ends with them ends the same way.
pub proof fn a_fetch_ends_one_way(search: SearchView, server: Server, some: nat, others: nat)
    requires
        search.fetch(server, some) is Some,
        search.fetch(server, others) is Some,
    ensures
        search.fetch(server, some) == search.fetch(server, others),
    decreases some,
{
    match search.ask(server) {
        SearchStepView::More(next) => {
            assert(search.fetch(server, some) == next.fetch(server, (some - 1) as nat));
            assert(search.fetch(server, others) == next.fetch(server, (others - 1) as nat));
            a_fetch_ends_one_way(next, server, (some - 1) as nat, (others - 1) as nat);
        },
        _ => {},
    }
}

/// A search with a smaller limit ends no later, and what it goes through is the first part of what
/// one with a larger limit goes through.
proof fn lemma_smaller_limit(search: SearchView, limit: usize, server: Server, requests: nat)
    requires
        limit <= search.max_issues,
        search.found(server, requests) is Some,
    ensures
        search.limited_to(limit).found(server, requests) matches Some(end) && end.limited()
            == first(search.found(server, requests)->0.limited(), limit as nat),
    decreases requests,
{
    let small = search.limited_to(limit);
    let end = search.found(server, requests)->0;
    let (status, body) = (server.search)(
        search.jql,
        search.issues.len(),
        search.max_results as nat,
    );
    let page = wire::parsed(body)->Read_0;
    let items = page.member("issues"@).items()->0;
    let next = search.with_page(items);
    assert(small.with_page(items) == next.limited_to(limit));
    lemma_found_extends(search, server, requests);
    if next.complete(page) {
        assert(next.limited_to(limit).limited() =~= first(next.limited(), limit as nat));
    } else {
        lemma_found_extends(next, server, (requests - 1) as nat);
        if next.limited_to(limit).complete(page) {
            assert(end.issues.take(next.issues.len() as int) == next.issues);
            assert(next.issues.take(limit as int) =~= end.issues.take(limit as int));
            assert(next.limited_to(limit).limited() =~= end.issues.take(limit as int));
            assert(first(end.limited(), limit as nat) =~= end.issues.take(limit as int));
        } else {
            lemma_smaller_limit(next, limit, server, (requests - 1) as nat);
        }
    }
}

/// With all else equal, a smaller limit on issues keeps the first part of what a larger one keeps:
/// where a fetch with the larger limit ends with a text, one with the smaller limit ends too, and
/// with the text of the first issues, at most as many as the smaller limit. Read, the one text is
/// the first part of the other.
pub proof fn a_smaller_limit_keeps_a_prefix(
    search: SearchView,
    limit: usize,
    server: Server,
    requests: nat,
    kept: Seq<Tree>,
    text: Seq<char>,
    shorter: Seq<char>,
)
    requires
        limit <= search.max_issues,
        search.fetch(server, requests) == Some(GatherStepView::Done(text)),
        kept == server.kept(search.found(server, requests)->0.limited()),
        shorter == wire::pretty(Tree::Array(first(kept, limit as nat))),
    ensures
        text == wire::pretty(Tree::Array(kept)),
        search.limited_to(limit).fetch(server, requests) == Some(GatherStepView::Done(shorter)),
        first(kept, limit as nat).len() <= limit,
        wire::readable(Tree::Array(kept), wire::DEPTH_LIMIT as nat) && fetch::reads_back(
            text,
            kept,
        ) && fetch::reads_back(shorter, first(kept, limit as nat)) ==> wire::parsed(text)
            == Reading::Read(Tree::Array(wire::reread_all(kept))) && wire::parsed(shorter)
            == Reading::Read(Tree::Array(first(wire::reread_all(kept), limit as nat))),
{
    let small = search.limited_to(limit);
    lemma_fetch_ends(search, server, requests);
    lemma_smaller_limit(search, limit, server, requests);
    lemma_fetch_ends(small, server, requests);
    let all = search.found(server, requests)->0.limited();
    let some = small.found(server, requests)->0.limited();
    assert forall|i: int| 0 <= i < some.len() implies server.answers(#[trigger] some[i]) by {
        assert(some[i] == all[i]);
    }
    assert(server.kept(some) =~= first(kept, limit as nat));
    if wire::readable(Tree::Array(kept), wire::DEPTH_LIMIT as nat) {
        lemma_first_readable(kept, limit as nat, wire::DEPTH_LIMIT as nat);
        assert(wire::reread_all(first(kept, limit as nat)) =~= first(
            wire::reread_all(kept),
            limit as nat,
        ));
    }
}

/// The first of readable things are readable.
proof fn lemma_first_readable(things: Seq<Tree>, n: nat, depth: nat)
    requires
        wire::readable(Tree::Array(things), depth),
    ensures
        wire::readable(Tree::Array(first(things, n)), depth),
{
    let some = first(things, n);
    let all = Tree::Array(things)->Array_0;
    assert forall|i: int| 0 <= i < some.len() implies wire::readable(
        #[trigger] some[i],
        (depth - 1) as nat,
    ) by {
        assert(all == things);
        assert(some[i] == all[i]);
        assert(wire::nested(all[i], (depth - 1) as nat));
        assert(wire::legible(all[i]));
    }
}

/// A search that has the first issues of a list, which the server pages, ends with enough of them.
proof fn lemma_paged(
    search: SearchView,
    server: Server,
    list: Seq<Tree>,
    cap: nat,
    requests: nat,
)
    requires
        list.len() <= usize::MAX,
        search.max_results >= 1,
        cap >= 1,
        server.pages(search.jql, search.max_results as nat, list, cap),
        search.issues.len() <= list.len(),
        search.issues == list.take(search.issues.len() as int),
        requests > list.len() - search.issues.len(),
    ensures
        search.found(server, requests) matches Some(end) && end.host == search.host
            && end.limited() == first(list, search.max_issues as nat),
    decreases requests,
{
    let start = search.issues.len();
    let (status, body) = (server.search)(search.jql, start, search.max_results as nat);
    let page = wire::parsed(body)->Read_0;
    let items = page.member("issues"@).items()->0;
    let next = search.with_page(items);
    assert(next.issues =~= list.take(next.issues.len() as int));
    assert(fetch::total_of(page) == list.len());
    if next.complete(page) {
        assert(next.limited() =~= first(list, search.max_issues as nat));
    } else {
        lemma_paged(next, server, list, cap, (requests - 1) as nat);
    }
}

/// From a server that pages one list of issues, a fetch ends with what is kept of the first issues
/// of the list, as many as the limit, or all where there are fewer: none is dropped, repeated or
/// moved, whatever the number of issues on a page and the server's own cap on it.
pub proof fn a_paged_list_is_fetched_in_order(
    search: SearchView,
    server: Server,
    list: Seq<Tree>,
    cap: nat,
    kept: Seq<Tree>,
    text: Seq<char>,
)
    requires
        search.issues.len() == 0,
        list.len() <= usize::MAX,
        search.max_results >= 1,
        cap >= 1,
        server.pages(search.jql, search.max_results as nat, list, cap),
        forall|i: int|
            0 <= i < first(list, search.max_issues as nat).len() ==> server.answers(
                #[trigger] list[i],
            ),
        kept == server.kept(first(list, search.max_issues as nat)),
        text == wire::pretty(Tree::Array(kept)),
    ensures
        search.fetch(server, list.len() + 1) == Some(GatherStepView::Done(text)),
        kept.len() == vstd::math::min(search.max_issues as int, list.len() as int),
        forall|i: int|
            0 <= i < kept.len() ==> (#[trigger] kept[i]).member("key"@) == list[i].member("key"@)
                && kept[i].member("fields"@) == list[i].member("fields"@).without_nulls() && (
            list[i].member("key"@) matches Tree::Text(key) && (wire::parsed(
                (server.comments)(key),
            ) matches Reading::Read(reply) && kept[i].member("comments"@) == reply.member(
                "comments"@,
            ).without_nulls())),
        wire::readable(Tree::Array(kept), wire::DEPTH_LIMIT as nat) && fetch::reads_back(
            text,
            kept,
        ) ==> wire::parsed(text) == Reading::Read(Tree::Array(wire::reread_all(kept))),
        forall|i: int|
            0 <= i < kept.len() ==> (#[trigger] wire::reread_all(kept)[i]).member("key"@)
                == list[i].member("key"@),
{
    let some = first(list, search.max_issues as nat);
    assert(search.issues =~= list.take(0));
    lemma_paged(search, server, list, cap, list.len() + 1);
    lemma_fetch_ends(search, server, list.len() + 1);
    assert forall|i: int| 0 <= i < some.len() implies server.answers(#[trigger] some[i]) by {
        assert(some[i] == list[i]);
    }
    assert forall|i: int| 0 <= i < kept.len() implies (#[trigger] kept[i]).member("key"@)
        == list[i].member("key"@) && kept[i].member("fields"@) == list[i].member(
        "fields"@,
    ).without_nulls() && (list[i].member("key"@) matches Tree::Text(key) && (wire::parsed(
        (server.comments)(key),
    ) matches Reading::Read(reply) && kept[i].member("comments"@) == reply.member(
        "comments"@,
    ).without_nulls())) by {
        assert(server.answers(list[i]));
        assert(some[i] == list[i]);
        fetch::issue_data_keeps_what_is_there(some[i], server.reply(some[i]));
    }
    assert forall|i: int| 0 <= i < kept.len() implies (#[trigger] wire::reread_all(kept)[i]).member(
        "key"@,
    ) == list[i].member("key"@) by {
        assert(kept[i].member("key"@) == list[i].member("key"@));
        assert(server.answers(list[i]));
        wire::rereading_keeps_the_rest(kept[i], "key"@, 0);
    }
}

/// From servers that page the same list of issues and have the same comments, fetches that differ
/// only in the number of issues on a page end the same way, whatever the servers' caps on it.
pub proof fn page_size_does_not_matter(
    search: SearchView,
    max_results: usize,
    server: Server,
    other: Server,
    list: Seq<Tree>,
    cap: nat,
    other_cap: nat,
)
    requires
        search.issues.len() == 0,
        list.len() <= usize::MAX,
        search.max_results >= 1,
        max_results >= 1,
        cap >= 1,
        other_cap >= 1,
        server.pages(search.jql, search.max_results as nat, list, cap),
        other.pages(search.jql, max_results as nat, list, other_cap),
        server.comments == other.comments,
    ensures
        search.fetch(server, list.len() + 1) is Some,
        search.fetch(server, list.len() + 1) == (SearchView { max_results, ..search }).fetch(
            other,
            list.len() + 1,
        ),
{
    let changed = SearchView { max_results, ..search };
    assert(search.issues =~= list.take(0));
    lemma_paged(search, server, list, cap, list.len() + 1);
    lemma_paged(changed, other, list, other_cap, list.len() + 1);
    lemma_fetch_ends(search, server, list.len() + 1);
    lemma_fetch_ends(changed, other, list.len() + 1);
}

/// The first of things are those at the start, as many as asked for, or all.
pub proof fn the_first_stand_at_the_start<A>(things: Seq<A>, n: nat)
    ensures
        first(things, n).is_prefix_of(things),
        first(things, n).len() == vstd::math::min(n as int, things.len() as int),
{
}

} // verus!
