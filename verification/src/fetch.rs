//! Fetching issues: page after page of a search, and then the comments of each issue.
//!
//! Both run as machines. A machine says which request to send, takes the reply, and says what
//! comes next; the requests themselves are sent elsewhere.
use crate::error::{Error, ErrorView};
use crate::http::Status;
use crate::json::{self, Json, Members, Tree};
use crate::text;
use crate::wire::{self, Reading};
use vstd::prelude::*;

verus! {

/// The number of issues that a page says the search has in all; zero where it does not say.
pub open spec fn total_of(page: Tree) -> usize {
    match page.member("total"@).unsigned() {
        Some(n) => n as usize,
        None => 0,
    }
}

/// What is kept of an issue: its key, its fields and its comments, without anything null.
pub open spec fn issue_data(issue: Tree, reply: Tree) -> Tree {
    Tree::Object(
        Map::<Seq<char>, Tree>::empty().insert("key"@, issue.member("key"@)).insert(
            "fields"@,
            issue.member("fields"@),
        ).insert("comments"@, reply.member("comments"@)),
    ).without_nulls()
}

/// What is said when a search ends at the limit on issues.
pub open spec fn limit_notice(max_issues: usize) -> Seq<char> {
    "Note: Reached max_issues limit ("@ + text::numeral(max_issues as nat)
        + "). Not all Jira data was fetched."@
}

/// The model of a gathering of comments: the issues to go through, and what is kept of those that
/// were gone through.
pub struct GatherView {
    pub host: Seq<char>,
    pub issues: Seq<Tree>,
    pub done: Seq<Tree>,
}

/// What a gathering comes to next.
pub enum GatherStepView {
    Comments(GatherView),
    Done(Seq<char>),
    Failed(ErrorView),
}

impl GatherView {
    /// What comes next: the comments of the next issue, which must have a key, or the end, with
    /// all that was kept written out.
    pub open spec fn settle(self) -> GatherStepView {
        if self.done.len() >= self.issues.len() {
            GatherStepView::Done(wire::pretty(Tree::Array(self.done)))
        } else if self.issues[self.done.len() as int].member("key"@).text() is None {
            GatherStepView::Failed(ErrorView::KeyMissing)
        } else {
            GatherStepView::Comments(self)
        }
    }

    /// The gathering once the comments of the next issue came.
    pub open spec fn with_reply(self, reply: Tree) -> GatherView {
        GatherView {
            done: self.done.push(issue_data(self.issues[self.done.len() as int], reply)),
            ..self
        }
    }

    /// What the reply to the request for comments leads to.
    pub open spec fn receive(self, body: Seq<char>) -> GatherStepView {
        match wire::parsed(body) {
            Reading::Refused(reason) => GatherStepView::Failed(ErrorView::JsonMalformed(reason)),
            Reading::Read(reply) => self.with_reply(reply).settle(),
        }
    }

    /// What the replies, one after the other, lead to.
    pub open spec fn run(self, replies: Seq<Tree>) -> GatherStepView
        decreases replies.len(),
    {
        match self.settle() {
            GatherStepView::Comments(gather) => if replies.len() == 0 {
                GatherStepView::Comments(gather)
            } else {
                gather.with_reply(replies.first()).run(replies.drop_first())
            },
            other => other,
        }
    }
}

/// The model of a search: what it asks for, and the issues that it found so far.
pub struct SearchView {
    pub host: Seq<char>,
    pub jql: Seq<char>,
    pub max_issues: usize,
    pub max_results: usize,
    pub issues: Seq<Tree>,
}

/// What a search comes to next.
pub enum SearchStepView {
    More(SearchView),
    Enough { notice: Option<Seq<char>>, gather: GatherStepView },
    Failed(ErrorView),
}

impl SearchView {
    /// The issues whose comments are gathered: those found, up to the limit.
    pub open spec fn limited(self) -> Seq<Tree> {
        if self.issues.len() > self.max_issues {
            self.issues.take(self.max_issues as int)
        } else {
            self.issues
        }
    }

    /// The end of the search.
    pub open spec fn end(self) -> SearchStepView {
        SearchStepView::Enough {
            notice: if self.issues.len() >= self.max_issues {
                Some(limit_notice(self.max_issues))
            } else {
                None
            },
            gather: (GatherView {
                host: self.host,
                issues: self.limited(),
                done: Seq::empty(),
            }).settle(),
        }
    }

    /// The search once a page of issues came.
    pub open spec fn with_page(self, items: Seq<Tree>) -> SearchView {
        SearchView { issues: self.issues + items, ..self }
    }

    /// Whether nothing more is to be asked for, by a page that says how many issues there are.
    pub open spec fn complete(self, page: Tree) -> bool {
        self.issues.len() >= total_of(page) || self.issues.len() >= self.max_issues
    }

    /// What a page leads to.
    pub open spec fn receive_page(self, page: Tree) -> SearchStepView {
        match page.member("issues"@).items() {
            None => SearchStepView::Failed(ErrorView::IssuesMissing),
            Some(items) => {
                let next = self.with_page(items);
                if next.complete(page) {
                    next.end()
                } else {
                    SearchStepView::More(next)
                }
            },
        }
    }

    /// What the reply to a search request leads to.
    pub open spec fn receive(self, status: u16, body: Seq<char>) -> SearchStepView {
        if !(200 <= status <= 299) {
            SearchStepView::Failed(ErrorView::SearchRefused { status, body })
        } else {
            match wire::parsed(body) {
                Reading::Refused(reason) => SearchStepView::Failed(
                    ErrorView::JsonMalformed(reason),
                ),
                Reading::Read(page) => self.receive_page(page),
            }
        }
    }

    /// What pages, one after the other, lead to.
    pub open spec fn run(self, pages: Seq<Tree>) -> SearchStepView
        decreases pages.len(),
    {
        if pages.len() == 0 {
            SearchStepView::More(self)
        } else {
            match self.receive_page(pages.first()) {
                SearchStepView::More(next) => next.run(pages.drop_first()),
                other => other,
            }
        }
    }
}

/// A gathering of comments that waits for those of one issue.
#[derive(Debug)]
pub struct Gather {
    host: String,
    issues: Vec<Json>,
    done: Vec<Json>,
}

/// What a gathering comes to next.
#[derive(Debug)]
pub enum GatherStep {
    /// The comments of an issue are to be requested.
    Comments(Gather),
    /// All is gathered, and this is its text.
    Done(String),
    /// The gathering failed.
    Failed(Error),
}

impl View for Gather {
    type V = GatherView;

    closed spec fn view(&self) -> GatherView {
        GatherView {
            host: self.host@,
            issues: json::trees(self.issues@),
            done: json::trees(self.done@),
        }
    }
}

impl View for GatherStep {
    type V = GatherStepView;

    open spec fn view(&self) -> GatherStepView {
        match self {
            GatherStep::Comments(gather) => GatherStepView::Comments(gather@),
            GatherStep::Done(text) => GatherStepView::Done(text@),
            GatherStep::Failed(error) => GatherStepView::Failed(error@),
        }
    }
}

/// The text of what was gathered is read as what was gathered, with each decimal as its own text
/// is read.
pub open spec fn reads_back(text: Seq<char>, done: Seq<Tree>) -> bool {
    wire::readable(Tree::Array(done), wire::DEPTH_LIMIT as nat) ==> wire::parsed(text)
        == Reading::Read(Tree::Array(wire::reread_all(done)))
}

impl Gather {
    #[verifier::type_invariant]
    closed spec fn is_pending(self) -> bool {
        self@.settle() == GatherStepView::Comments(self@)
    }

    /// Goes on to the next issue, or ends.
    fn settle(host: String, issues: Vec<Json>, done: Vec<Json>) -> (step: GatherStep)
        ensures
            step@ == (GatherView {
                host: host@,
                issues: json::trees(issues@),
                done: json::trees(done@),
            }).settle(),
            step matches GatherStep::Done(text) ==> reads_back(text@, json::trees(done@)),
    {
        if done.len() >= issues.len() {
            let all = Json::Array(done);
            proof {
                json::lemma_array_trees(done);
                wire::rereading_keeps_the_rest(all@, Seq::empty(), 0);
            }
            return GatherStep::Done(wire::to_pretty(&all));
        }
        let keyed = issues[done.len()].member_text("key").is_some();
        assert(json::trees(issues@)[done@.len() as int] == issues@[done@.len() as int]@);
        if keyed {
            GatherStep::Comments(Gather { host, issues, done })
        } else {
            GatherStep::Failed(Error::KeyMissing)
        }
    }

    /// Where the comments of the next issue are requested.
    pub fn url(&self) -> (url: String)
        ensures
            self@.done.len() < self@.issues.len(),
            self@.issues[self@.done.len() as int].member("key"@).text() matches Some(key)
                && url@ == self@.host + "/rest/api/2/issue/"@ + key + "/comment"@,
    {
        proof {
            use_type_invariant(self);
            assert(self@.issues[self@.done.len() as int] == self.issues@[self.done@.len() as int]@);
        }
        match self.issues[self.done.len()].member_text("key") {
            Some(key) => self.host.clone().concat("/rest/api/2/issue/").concat(
                key.as_str(),
            ).concat("/comment"),
            None => String::new(),
        }
    }

    /// Takes the comments of the next issue, as a JSON value.
    pub fn receive_reply(self, reply: &Json) -> (step: GatherStep)
        ensures
            step@ == self@.with_reply(reply@).settle(),
            step matches GatherStep::Done(text) ==> reads_back(
                text@,
                self@.with_reply(reply@).done,
            ),
    {
        proof {
            use_type_invariant(&self);
        }
        let ghost before = self@;
        let Gather { host, issues, mut done } = self;
        let next: usize = done.len();
        assert(before.issues[next as int] == issues@[next as int]@);
        let mut data = Json::Object(
            Members::new().with("key", issues[next].member_or_null("key")).with(
                "fields",
                issues[next].member_or_null("fields"),
            ).with("comments", reply.member_or_null("comments")),
        );
        json::remove_null_values(&mut data);
        assert(data@ == issue_data(before.issues[next as int], reply@));
        done.push(data);
        assert(json::trees(done@) =~= before.with_reply(reply@).done);
        Gather::settle(host, issues, done)
    }

    /// Takes the reply to the request for the comments of the next issue.
    pub fn receive(self, body: &str) -> (step: GatherStep)
        ensures
            step@ == self@.receive(body@),
            wire::parsed(body@) matches Reading::Read(reply) ==> (
            step matches GatherStep::Done(text) ==> reads_back(
                text@,
                self@.with_reply(reply).done,
            )),
    {
        match wire::parse(body) {
            Ok(reply) => self.receive_reply(&reply),
            Err(reason) => GatherStep::Failed(Error::JsonMalformed(reason)),
        }
    }
}

/// A search that waits for its next page.
#[derive(Debug)]
pub struct Search {
    host: String,
    jql: String,
    max_issues: usize,
    max_results: usize,
    issues: Vec<Json>,
}

/// What a search comes to next.
#[derive(Debug)]
pub enum SearchStep {
    /// Another page is to be requested.
    More(Search),
    /// All issues are found. The notice is to be shown, and the gathering goes on.
    Enough { notice: Option<String>, gather: GatherStep },
    /// The search failed.
    Failed(Error),
}

impl View for Search {
    type V = SearchView;

    closed spec fn view(&self) -> SearchView {
        SearchView {
            host: self.host@,
            jql: self.jql@,
            max_issues: self.max_issues,
            max_results: self.max_results,
            issues: json::trees(self.issues@),
        }
    }
}

impl View for SearchStep {
    type V = SearchStepView;

    open spec fn view(&self) -> SearchStepView {
        match self {
            SearchStep::More(search) => SearchStepView::More(search@),
            SearchStep::Enough { notice, gather } => SearchStepView::Enough {
                notice: match notice {
                    Some(text) => Some(text@),
                    None => None,
                },
                gather: gather@,
            },
            SearchStep::Failed(error) => SearchStepView::Failed(error@),
        }
    }
}

impl Search {
    /// A search that starts at the first issue.
    pub fn new(host: &str, jql: &str, max_issues: usize, max_results: usize) -> (search: Search)
        ensures
            search@ == (SearchView {
                host: host@,
                jql: jql@,
                max_issues,
                max_results,
                issues: Seq::empty(),
            }),
    {
        let search = Search {
            host: host.to_string(),
            jql: jql.to_string(),
            max_issues,
            max_results,
            issues: Vec::new(),
        };
        assert(search@.issues =~= Seq::empty());
        search
    }

    /// Where pages are requested.
    pub fn url(&self) -> (url: String)
        ensures
            url@ == self@.host + "/rest/api/2/search"@,
    {
        self.host.clone().concat("/rest/api/2/search")
    }

    /// What the next page is requested by: the query, the number of issues found so far, where
    /// the page starts, and the number of issues on a page.
    pub fn query(&self) -> (query: Vec<(String, String)>)
        ensures
            query@.len() == 3,
            query@[0].0@ == "jql"@,
            query@[0].1@ == self@.jql,
            query@[1].0@ == "startAt"@,
            query@[1].1@ == text::numeral(self@.issues.len()),
            query@[2].0@ == "maxResults"@,
            query@[2].1@ == text::numeral(self@.max_results as nat),
    {
        let start: usize = self.issues.len();
        let mut query: Vec<(String, String)> = Vec::new();
        query.push(("jql".to_string(), self.jql.clone()));
        query.push(("startAt".to_string(), text::decimal(start as u64)));
        query.push(("maxResults".to_string(), text::decimal(self.max_results as u64)));
        query
    }

    /// Takes a page, as a JSON value.
    pub fn receive_page(self, page: &Json) -> (step: SearchStep)
        ensures
            step@ == self@.receive_page(page@),
            step matches SearchStep::Enough { gather, .. } ==> (
            gather matches GatherStep::Done(text) ==> reads_back(text@, Seq::empty())),
    {
        let ghost before = self@;
        let Search { host, jql, max_issues, max_results, mut issues } = self;
        let items = match page.member("issues") {
            Some(value) => value.items(),
            None => None,
        };
        let items: &Vec<Json> = match items {
            Some(items) => items,
            None => {
                return SearchStep::Failed(Error::IssuesMissing);
            },
        };
        for i in 0..items.len()
            invariant
                json::trees(issues@) == before.issues + json::trees(items@).take(i as int),
        {
            let ghost found = issues@;
            issues.push(items[i].clone());
            assert(json::trees(issues@) =~= json::trees(found).push(json::trees(items@)[i as int]));
            assert(json::trees(items@).take(i + 1) =~= json::trees(items@).take(i as int).push(
                json::trees(items@)[i as int],
            ));
        }
        assert(json::trees(items@).take(items@.len() as int) =~= json::trees(items@));
        let ghost next = before.with_page(json::trees(items@));
        assert(json::trees(issues@) == next.issues);
        let total: usize = match page.member("total") {
            Some(value) => match value.unsigned() {
                Some(n) => n as usize,
                None => 0,
            },
            None => 0,
        };
        assert(total == total_of(page@));
        if issues.len() < total && issues.len() < max_issues {
            return SearchStep::More(Search { host, jql, max_issues, max_results, issues });
        }
        let notice = if issues.len() >= max_issues {
            Some(
                "Note: Reached max_issues limit (".to_string().concat(
                    text::decimal(max_issues as u64).as_str(),
                ).concat("). Not all Jira data was fetched."),
            )
        } else {
            None
        };
        issues.truncate(max_issues);
        assert(json::trees(issues@) =~= next.limited());
        let done: Vec<Json> = Vec::new();
        assert(json::trees(done@) =~= Seq::empty());
        SearchStep::Enough { notice, gather: Gather::settle(host, issues, done) }
    }

    /// Takes the reply to a search request.
    pub fn receive(self, status: Status, body: &str) -> (step: SearchStep)
        ensures
            step@ == self@.receive(status@, body@),
            step matches SearchStep::Enough { gather, .. } ==> (
            gather matches GatherStep::Done(text) ==> reads_back(text@, Seq::empty())),
    {
        if !status.is_success() {
            return SearchStep::Failed(Error::SearchRefused { status, body: body.to_string() });
        }
        match wire::parse(body) {
            Ok(page) => self.receive_page(&page),
            Err(reason) => SearchStep::Failed(Error::JsonMalformed(reason)),
        }
    }
}

/// The issues that pages list, in the order of the pages.
pub open spec fn issues_on(pages: Seq<Tree>) -> Seq<Tree>
    decreases pages.len(),
{
    if pages.len() == 0 {
        Seq::empty()
    } else {
        page_items(pages.first()) + issues_on(pages.drop_first())
    }
}

/// The issues that a page lists.
pub open spec fn page_items(page: Tree) -> Seq<Tree> {
    match page.member("issues"@).items() {
        Some(items) => items,
        None => Seq::empty(),
    }
}

/// A search that goes on has every issue of every page so far, in the order in which they came,
/// and is otherwise as it was. So its next page starts where the last one ended.
pub proof fn search_keeps_every_page(search: SearchView, pages: Seq<Tree>)
    ensures
        search.run(pages) matches SearchStepView::More(next) ==> next == search.with_page(
            issues_on(pages),
        ),
    decreases pages.len(),
{
    if pages.len() == 0 {
        assert(search.issues + issues_on(pages) =~= search.issues);
    } else {
        let items = page_items(pages.first());
        let next = search.with_page(items);
        search_keeps_every_page(next, pages.drop_first());
        assert(next.issues + issues_on(pages.drop_first()) =~= search.issues + issues_on(pages));
    }
}

/// A search ends with the first page at which it has as many issues as the page says there are,
/// or as many as the limit, and with no page before.
pub proof fn search_ends_when_complete(search: SearchView, pages: Seq<Tree>)
    requires
        pages.len() > 0,
        forall|i: int|
            0 <= i < pages.len() ==> (#[trigger] pages[i]).member("issues"@).items() is Some,
        forall|i: int|
            0 <= i < pages.len() - 1 ==> !search.with_page(issues_on(pages.take(i + 1))).complete(
                #[trigger] pages[i],
            ),
        search.with_page(issues_on(pages)).complete(pages.last()),
    ensures
        search.run(pages) == search.with_page(issues_on(pages)).end(),
    decreases pages.len(),
{
    let rest = pages.drop_first();
    let next = search.with_page(page_items(pages.first()));
    assert(pages[0].member("issues"@).items() is Some);
    assert(issues_on(pages.take(1)) =~= page_items(pages.first())) by {
        assert(pages.take(1).first() == pages.first());
        assert(issues_on(pages.take(1).drop_first()) =~= Seq::empty());
    }
    if pages.len() == 1 {
        assert(pages.take(1) =~= pages);
    } else {
        assert(!search.with_page(issues_on(pages.take(0int + 1))).complete(pages[0]));
        assert forall|i: int| 0 <= i < rest.len() implies (#[trigger] rest[i]).member(
            "issues"@,
        ).items() is Some by {
            assert(rest[i] == pages[i + 1]);
        }
        assert forall|i: int| 0 <= i < rest.len() - 1 implies !next.with_page(
            issues_on(rest.take(i + 1)),
        ).complete(#[trigger] rest[i]) by {
            assert(rest[i] == pages[i + 1]);
            let front = pages.take(i + 2);
            assert(front.first() == pages.first());
            assert(front.drop_first() =~= rest.take(i + 1));
            assert(next.issues + issues_on(rest.take(i + 1)) =~= search.issues + issues_on(front));
        }
        assert(next.issues + issues_on(rest) =~= search.issues + issues_on(pages));
        search_ends_when_complete(next, rest);
    }
}

/// A page that lists an issue brings the search forward.
pub proof fn search_advances(search: SearchView, page: Tree)
    requires
        page_items(page).len() > 0,
    ensures
        search.receive_page(page) matches SearchStepView::More(next) ==> next.issues.len()
            > search.issues.len(),
{
}

/// At most as many issues as the limit are gone through, those found first, and it is noticed
/// exactly when the limit is reached.
pub proof fn search_respects_limit(search: SearchView)
    ensures
        search.limited().len() <= search.max_issues,
        search.limited().len() == search.issues.len() || search.limited().len()
            == search.max_issues,
        search.limited() == search.issues.take(search.limited().len() as int),
        search.end() matches SearchStepView::Enough { notice, .. } && (notice is Some
            <==> search.issues.len() >= search.max_issues),
{
    assert(search.limited() =~= search.issues.take(search.limited().len() as int));
}

/// What is kept of the issues, each with the reply that brought its comments.
pub open spec fn collected(issues: Seq<Tree>, replies: Seq<Tree>) -> Seq<Tree> {
    Seq::new(replies.len(), |i: int| issue_data(issues[i], replies[i]))
}

/// Given the comments of every issue that is left, each of which has a key, a gathering ends with
/// all that is kept of them, in order, one entry for each issue.
pub proof fn gather_keeps_every_issue(gather: GatherView, replies: Seq<Tree>)
    requires
        gather.done.len() + replies.len() == gather.issues.len(),
        forall|i: int|
            gather.done.len() <= i < gather.issues.len() ==> (#[trigger] gather.issues[i]).member(
                "key"@,
            ).text() is Some,
    ensures
        gather.run(replies) == GatherStepView::Done(
            wire::pretty(
                Tree::Array(
                    gather.done + collected(gather.issues.skip(gather.done.len() as int), replies),
                ),
            ),
        ),
    decreases replies.len(),
{
    let left = gather.issues.skip(gather.done.len() as int);
    if replies.len() == 0 {
        assert(gather.done + collected(left, replies) =~= gather.done);
    } else {
        let next = gather.with_reply(replies.first());
        let rest = replies.drop_first();
        gather_keeps_every_issue(next, rest);
        assert(next.done + collected(next.issues.skip(next.done.len() as int), rest)
            =~= gather.done + collected(left, replies));
    }
}

/// A gathering that comes to an issue without a key fails, whatever follows.
pub proof fn gather_stops_at_missing_key(gather: GatherView, replies: Seq<Tree>, at: int)
    requires
        gather.done.len() <= at < gather.issues.len(),
        at - gather.done.len() <= replies.len(),
        forall|i: int|
            gather.done.len() <= i < at ==> (#[trigger] gather.issues[i]).member(
                "key"@,
            ).text() is Some,
        gather.issues[at].member("key"@).text() is None,
    ensures
        gather.run(replies) == GatherStepView::Failed(ErrorView::KeyMissing),
    decreases replies.len(),
{
    if at > gather.done.len() {
        gather_stops_at_missing_key(
            gather.with_reply(replies.first()),
            replies.drop_first(),
            at,
        );
    }
}

/// What is kept of an issue has the issue's key, its fields and its comments without anything
/// null, no other member, and no null member at any depth.
pub proof fn issue_data_keeps_what_is_there(issue: Tree, reply: Tree)
    requires
        issue.member("key"@).text() is Some,
    ensures
        issue_data(issue, reply).null_free(),
        issue_data(issue, reply).member("key"@) == issue.member("key"@),
        issue_data(issue, reply).member("fields"@) == issue.member("fields"@).without_nulls(),
        issue_data(issue, reply).member("comments"@) == reply.member("comments"@).without_nulls(),
        forall|name: Seq<char>| #[trigger]
            issue_data(issue, reply).has_member(name) ==> name == "key"@ || name == "fields"@
                || name == "comments"@,
{
    reveal_strlit("key");
    reveal_strlit("fields");
    reveal_strlit("comments");
    let whole = Tree::Object(
        Map::<Seq<char>, Tree>::empty().insert("key"@, issue.member("key"@)).insert(
            "fields"@,
            issue.member("fields"@),
        ).insert("comments"@, reply.member("comments"@)),
    );
    assert("key"@.len() != "fields"@.len());
    assert("key"@.len() != "comments"@.len());
    assert("fields"@.len() != "comments"@.len());
    json::removal_leaves_no_null_member(whole);
    json::removal_keeps_the_rest(whole, "key"@, 0);
    json::removal_keeps_the_rest(whole, "fields"@, 0);
    json::removal_keeps_the_rest(whole, "comments"@, 0);
}

/// Issues and replies that nest less deep than the limit, and whose decimals are read, leave data
/// that is read; where their decimals are read back, so are those of the data.
pub proof fn kept_issues_are_readable(issues: Seq<Tree>, replies: Seq<Tree>)
    requires
        replies.len() <= issues.len(),
        forall|i: int|
            0 <= i < issues.len() ==> wire::readable(
                #[trigger] issues[i],
                (wire::DEPTH_LIMIT - 1) as nat,
            ),
        forall|i: int|
            0 <= i < replies.len() ==> wire::readable(
                #[trigger] replies[i],
                (wire::DEPTH_LIMIT - 1) as nat,
            ),
    ensures
        wire::readable(Tree::Array(collected(issues, replies)), wire::DEPTH_LIMIT as nat),
        wire::exact(Tree::Array(issues)) && wire::exact(Tree::Array(replies)) ==> wire::exact(
            Tree::Array(collected(issues, replies)),
        ),
{
    let kept = collected(issues, replies);
    let all = Tree::Array(issues)->Array_0;
    let brought = Tree::Array(replies)->Array_0;
    assert forall|i: int| 0 <= i < kept.len() implies wire::readable(
        #[trigger] kept[i],
        (wire::DEPTH_LIMIT - 1) as nat,
    ) && (wire::exact(Tree::Array(issues)) && wire::exact(Tree::Array(replies)) ==> wire::exact(
        kept[i],
    )) by {
        assert(all[i] == issues[i] && brought[i] == replies[i]);
        lemma_issue_data_readable(issues[i], replies[i], (wire::DEPTH_LIMIT - 1) as nat);
    }
}

/// What is kept of an issue nests no deeper than the issue and the reply, and has no other
/// decimals.
proof fn lemma_issue_data_readable(issue: Tree, reply: Tree, depth: nat)
    requires
        depth > 0,
        wire::readable(issue, depth),
        wire::readable(reply, depth),
    ensures
        wire::readable(issue_data(issue, reply), depth),
        wire::exact(issue) && wire::exact(reply) ==> wire::exact(issue_data(issue, reply)),
{
    let inner = (depth - 1) as nat;
    assert(wire::readable(issue.member("key"@), inner));
    assert(wire::readable(issue.member("fields"@), inner));
    assert(wire::readable(reply.member("comments"@), inner));
    let whole = Tree::Object(
        Map::<Seq<char>, Tree>::empty().insert("key"@, issue.member("key"@)).insert(
            "fields"@,
            issue.member("fields"@),
        ).insert("comments"@, reply.member("comments"@)),
    );
    assert(wire::readable(whole, depth));
    if wire::exact(issue) && wire::exact(reply) {
        assert(wire::exact(issue.member("key"@)));
        assert(wire::exact(issue.member("fields"@)));
        assert(wire::exact(reply.member("comments"@)));
        assert(wire::exact(whole));
    }
    wire::removal_keeps_readable(whole, depth);
}

/// As long as every page lists an issue, a search asks for fewer pages than the limit on issues
/// before the one that it ends with.
pub proof fn search_is_bounded(search: SearchView, pages: Seq<Tree>)
    requires
        pages.len() > 0,
        forall|i: int| 0 <= i < pages.len() ==> page_items(#[trigger] pages[i]).len() > 0,
        search.run(pages) is More,
    ensures
        search.issues.len() + pages.len() < search.max_issues,
    decreases pages.len(),
{
    let next = search.with_page(page_items(pages.first()));
    let rest = pages.drop_first();
    assert(page_items(pages[0]).len() > 0);
    if rest.len() > 0 {
        assert forall|i: int| 0 <= i < rest.len() implies page_items(#[trigger] rest[i]).len()
            > 0 by {
            assert(rest[i] == pages[i + 1]);
        }
        search_is_bounded(next, rest);
    }
}

impl GatherStepView {
    /// What replies, one after the other, lead to from here.
    pub open spec fn run(self, replies: Seq<Tree>) -> GatherStepView {
        match self {
            GatherStepView::Comments(gather) => gather.run(replies),
            other => other,
        }
    }
}

/// A fetch that gets its pages, the last of which completes the search, and then the comments of
/// each issue up to the limit, every one of which has a key, ends with the text of what is kept
/// of these issues: those found first, in order, at most as many as the limit.
pub proof fn fetch_keeps_the_first_issues(
    search: SearchView,
    pages: Seq<Tree>,
    replies: Seq<Tree>,
)
    requires
        pages.len() > 0,
        forall|i: int|
            0 <= i < pages.len() ==> (#[trigger] pages[i]).member("issues"@).items() is Some,
        forall|i: int|
            0 <= i < pages.len() - 1 ==> !search.with_page(issues_on(pages.take(i + 1))).complete(
                #[trigger] pages[i],
            ),
        search.with_page(issues_on(pages)).complete(pages.last()),
        replies.len() == search.with_page(issues_on(pages)).limited().len(),
        forall|i: int|
            0 <= i < replies.len() ==> (#[trigger] search.with_page(
                issues_on(pages),
            ).limited()[i]).member("key"@).text() is Some,
    ensures
        search.run(pages) matches SearchStepView::Enough { gather, .. } && gather.run(replies)
            == GatherStepView::Done(
            wire::pretty(
                Tree::Array(collected(search.with_page(issues_on(pages)).limited(), replies)),
            ),
        ),
        replies.len() <= search.max_issues,
{
    let found = search.with_page(issues_on(pages));
    search_ends_when_complete(search, pages);
    search_respects_limit(found);
    let start = GatherView { host: search.host, issues: found.limited(), done: Seq::empty() };
    gather_keeps_every_issue(start, replies);
    assert(start.issues.skip(0) =~= start.issues);
    assert(start.done + collected(start.issues, replies) =~= collected(start.issues, replies));
}

/// The number of issues in all is the one that the page gives, and zero where it gives none.
pub proof fn the_total_is_that_of_the_page(page: Tree, n: u64)
    ensures
        page.member("total"@) == Tree::Integer(n as int) ==> total_of(page) == n as usize,
        !(page.member("total"@) matches Tree::Integer(k) && 0 <= k <= u64::MAX) ==> total_of(page)
            == 0,
{
}

/// The notice names the limit, between the same words for every limit, and so differs for
/// different limits.
pub proof fn the_notice_names_the_limit(max_issues: usize, other: usize)
    ensures
        ("Note: Reached max_issues limit ("@ + text::numeral(max_issues as nat)).is_prefix_of(
            limit_notice(max_issues),
        ),
        "). Not all Jira data was fetched."@.is_suffix_of(limit_notice(max_issues)),
        limit_notice(max_issues).len() == "Note: Reached max_issues limit ("@.len() + text::numeral(
            max_issues as nat,
        ).len() + "). Not all Jira data was fetched."@.len(),
        limit_notice(max_issues) == limit_notice(other) ==> max_issues == other,
{
    let start = "Note: Reached max_issues limit ("@.len() as int;
    let length = text::numeral(max_issues as nat).len() as int;
    if limit_notice(max_issues) == limit_notice(other) {
        assert(limit_notice(max_issues).subrange(start, start + length) =~= text::numeral(
            max_issues as nat,
        ));
        assert(limit_notice(other).subrange(start, start + length) =~= text::numeral(other as nat));
        text::numerals_tell_numbers_apart(max_issues as nat, other as nat);
    }
}

/// A page adds its issues, after those found before. The search goes on as long as there are fewer
/// than the page says there are in all and fewer than the limit; otherwise it ends, notices the
/// limit exactly where it is reached, and the comments of the issues found, from the first up to
/// the limit, are gathered.
pub proof fn a_page_leads_on(search: SearchView, page: Tree, items: Seq<Tree>)
    requires
        page.member("issues"@) == Tree::Array(items),
    ensures
        search.issues.len() + items.len() < total_of(page) && search.issues.len() + items.len()
            < search.max_issues ==> (search.receive_page(page) matches SearchStepView::More(next)
            && next.issues == search.issues + items && next.host == search.host && next.jql
            == search.jql && next.max_issues == search.max_issues && next.max_results
            == search.max_results),
        search.issues.len() + items.len() >= total_of(page) || search.issues.len() + items.len()
            >= search.max_issues ==> (search.receive_page(page) matches SearchStepView::Enough {
            notice,
            gather,
        } && (notice is Some <==> search.issues.len() + items.len() >= search.max_issues) && (
        notice matches Some(text) ==> text == limit_notice(search.max_issues)) && (search.max_issues
            == 0 || search.issues.len() + items.len() == 0 ==> gather == GatherStepView::Done(
            wire::pretty(Tree::Array(Seq::empty())),
        )) && (search.max_issues > 0 && search.issues.len() + items.len() > 0 ==> if (search.issues
            + items)[0].member("key"@) is Text {
            gather matches GatherStepView::Comments(pending) && pending.host == search.host
                && pending.done.len() == 0 && pending.issues.is_prefix_of(search.issues + items)
                && pending.issues.len() == vstd::math::min(
                search.max_issues as int,
                (search.issues.len() + items.len()) as int,
            )
        } else {
            gather == GatherStepView::Failed(ErrorView::KeyMissing)
        })),
{
}

/// A page that lists no issues fails the search.
pub proof fn a_page_without_issues_fails(search: SearchView, page: Tree)
    requires
        !(page.member("issues"@) is Array),
    ensures
        search.receive_page(page) == SearchStepView::Failed(ErrorView::IssuesMissing),
{
}

/// A reply to a search that did not succeed fails the search with its status and its body, whatever
/// the body is; otherwise a body that is no JSON fails it, and one that is leads on as its page.
pub proof fn a_reply_to_a_search_is_judged_by_its_status_first(
    search: SearchView,
    status: u16,
    body: Seq<char>,
)
    ensures
        status < 200 || status > 299 ==> search.receive(status, body) == SearchStepView::Failed(
            ErrorView::SearchRefused { status, body },
        ),
        200 <= status <= 299 ==> match wire::parsed(body) {
            Reading::Refused(reason) => search.receive(status, body) == SearchStepView::Failed(
                ErrorView::JsonMalformed(reason),
            ),
            Reading::Read(page) => search.receive(status, body) == search.receive_page(page),
        },
{
}

/// A reply with comments adds one entry, after those that there are: the key and the fields of the
/// issue whose turn it is, and the comments of the reply, without anything null.
pub proof fn a_reply_adds_one_entry(gather: GatherView, reply: Tree)
    requires
        gather.done.len() < gather.issues.len(),
        gather.issues[gather.done.len() as int].member("key"@) is Text,
    ensures
        gather.with_reply(reply).host == gather.host,
        gather.with_reply(reply).issues == gather.issues,
        gather.with_reply(reply).done.len() == gather.done.len() + 1,
        gather.done.is_prefix_of(gather.with_reply(reply).done),
        gather.with_reply(reply).done.last().null_free(),
        gather.with_reply(reply).done.last().member("key"@) == gather.issues[gather.done.len() as int].member("key"@),
        gather.with_reply(reply).done.last().member("fields"@)
            == gather.issues[gather.done.len() as int].member("fields"@).without_nulls(),
        gather.with_reply(reply).done.last().member("comments"@) == reply.member(
            "comments"@,
        ).without_nulls(),
        forall|name: Seq<char>| #[trigger]
            gather.with_reply(reply).done.last().has_member(name) ==> name == "key"@ || name
                == "fields"@ || name == "comments"@,
{
    issue_data_keeps_what_is_there(gather.issues[gather.done.len() as int], reply);
}

/// A gathering with an entry for every issue is written out; otherwise it waits for the comments of
/// the next issue, where that has a key, and fails where it has none.
pub proof fn a_gathering_goes_on_until_every_issue_has_its_entry(gather: GatherView)
    ensures
        gather.done.len() >= gather.issues.len() ==> gather.settle() == GatherStepView::Done(
            wire::pretty(Tree::Array(gather.done)),
        ),
        gather.done.len() < gather.issues.len() ==> gather.settle() == if gather.issues[gather.done.len() as int].member(
            "key"@,
        ) is Text {
            GatherStepView::Comments(gather)
        } else {
            GatherStepView::Failed(ErrorView::KeyMissing)
        },
{
}

/// A reply with comments that is no JSON fails the gathering, and one that is adds its entry.
pub proof fn a_reply_with_comments_is_read(gather: GatherView, body: Seq<char>)
    ensures
        match wire::parsed(body) {
            Reading::Refused(reason) => gather.receive(body) == GatherStepView::Failed(
                ErrorView::JsonMalformed(reason),
            ),
            Reading::Read(reply) => gather.receive(body) == gather.with_reply(reply).settle(),
        },
{
}

/// There is an entry for each reply, with the key and the fields of the issue at the same position
/// and the comments of the reply, without anything null.
pub proof fn entries_are_of_their_issues_and_replies(issues: Seq<Tree>, replies: Seq<Tree>, i: int)
    requires
        0 <= i < replies.len(),
        replies.len() <= issues.len(),
        issues[i].member("key"@) is Text,
    ensures
        collected(issues, replies).len() == replies.len(),
        collected(issues, replies)[i].member("key"@) == issues[i].member("key"@),
        collected(issues, replies)[i].member("fields"@) == issues[i].member("fields"@).without_nulls(),
        collected(issues, replies)[i].member("comments"@) == replies[i].member(
            "comments"@,
        ).without_nulls(),
{
    issue_data_keeps_what_is_there(issues[i], replies[i]);
}

/// The issues on pages, one after the other, are those on the first pages and then those on the
/// others, and the issues on one page are those that it lists.
pub proof fn pages_list_their_issues_in_order(pages: Seq<Tree>, more: Seq<Tree>, page: Tree)
    ensures
        issues_on(pages + more) == issues_on(pages) + issues_on(more),
        issues_on(seq![page]) == page_items(page),
        page.member("issues"@) matches Tree::Array(items) ==> page_items(page) == items,
        !(page.member("issues"@) is Array) ==> page_items(page).len() == 0,
    decreases pages.len(),
{
    assert(seq![page].drop_first() =~= Seq::empty());
    assert(issues_on(Seq::empty()) =~= Seq::empty());
    assert(issues_on(seq![page]) =~= page_items(page));
    if pages.len() == 0 {
        assert(pages + more =~= more);
        assert(issues_on(pages) + issues_on(more) =~= issues_on(more));
    } else {
        pages_list_their_issues_in_order(pages.drop_first(), more, page);
        assert((pages + more).drop_first() =~= pages.drop_first() + more);
        assert(issues_on(pages + more) =~= issues_on(pages) + issues_on(more));
    }
}

/// A step is told by its kind and by what it holds.
pub proof fn steps_are_told_by_what_they_hold(step: SearchStep, gather_step: GatherStep)
    ensures
        step matches SearchStep::More(search) ==> step@ == SearchStepView::More(search@),
        step matches SearchStep::Failed(error) ==> step@ == SearchStepView::Failed(error@),
        step matches SearchStep::Enough { notice, gather } ==> (
        step@ matches SearchStepView::Enough { notice: said, gather: next } && next == gather@ && (
        said is Some <==> notice is Some) && (notice matches Some(text) ==> said == Some(text@))),
        gather_step matches GatherStep::Comments(gather) ==> gather_step@
            == GatherStepView::Comments(gather@),
        gather_step matches GatherStep::Done(text) ==> gather_step@ == GatherStepView::Done(text@),
        gather_step matches GatherStep::Failed(error) ==> gather_step@ == GatherStepView::Failed(
            error@,
        ),
{
}

} // verus!
