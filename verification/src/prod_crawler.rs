//! The crawls in progress on the server.
use vstd::prelude::*;

use crate::crawl_laws::{
    has_history, is_digested, law_crawls_keep_to_histories, lemma_begin_has_history,
};
use crate::crawl_model::{
    CrawlView, PageResultView, has_page, leads_on, lemma_add_links_valid, lemma_begin_valid,
};
use crate::crawler::{
    Crawl, CrawlAction, CrawlResult, CrawlStatus, CrawlStatusView, PageResult, digest, digested,
    is_digestible, response_view, status_of,
};
use crate::html::html_tokenized;
use crate::http_client::HttpResponse;
use crate::link_extractor::{IncompletePage, links_of_tokens};
use crate::robots::is_readable;
use crate::text::optional_text;
use crate::urls::{WebUrl, url_domain};

verus! {

/// Summary of all crawls in progress on the server
#[derive(Debug, PartialEq, Eq)]
pub struct CrawlerStatus {
    pub crawls: Vec<CrawlStatus>,
}

/// The progress of crawls, by its texts and numbers.
pub open spec fn status_views(crawls: Seq<CrawlStatus>) -> Seq<CrawlStatusView> {
    crawls.map_values(|status: CrawlStatus| status@)
}

impl View for CrawlerStatus {
    type V = Seq<CrawlStatusView>;

    open spec fn view(&self) -> Seq<CrawlStatusView> {
        status_views(self.crawls@)
    }
}

/// A crawl and the URL that it started at.
#[derive(Debug)]
struct Run {
    seed: WebUrl,
    crawl: Crawl,
}

impl View for Run {
    type V = (Seq<char>, CrawlView);

    closed spec fn view(&self) -> (Seq<char>, CrawlView) {
        (self.seed@, self.crawl@)
    }
}

/// The crawls that have begun and not ended.
pub struct ProdCrawlerView {
    /// The crawls, each with the URL that it started at, at the place by which it is
    /// known; a place that no crawl has is free.
    pub runs: Seq<Option<(Seq<char>, CrawlView)>>,
}

/// The progress of the crawls in progress, in the order of their places.
pub open spec fn statuses(runs: Seq<Option<(Seq<char>, CrawlView)>>) -> Seq<CrawlStatusView>
    decreases runs.len(),
{
    if runs.len() == 0 {
        Seq::empty()
    } else {
        let before = statuses(runs.drop_last());
        match runs.last() {
            Some(run) => before.push(status_of(run.0, run.1)),
            None => before,
        }
    }
}

/// How many places have a crawl in progress.
pub open spec fn running_count(runs: Seq<Option<(Seq<char>, CrawlView)>>) -> nat {
    runs.filter(|run: Option<(Seq<char>, CrawlView)>| run is Some).len()
}

/// The first free place.
pub open spec fn free_place(runs: Seq<Option<(Seq<char>, CrawlView)>>) -> nat
    decreases runs.len(),
{
    if runs.len() == 0 || runs[0] is None {
        0
    } else {
        1 + free_place(runs.drop_first())
    }
}

impl ProdCrawlerView {
    /// Nothing in progress.
    pub open spec fn empty() -> ProdCrawlerView {
        ProdCrawlerView { runs: Seq::empty() }
    }

    /// Whether a crawl is in progress at a place.
    pub open spec fn is_running(self, id: nat) -> bool {
        id < self.runs.len() && self.runs[id as int] is Some
    }

    /// The crawl in progress at a place.
    pub open spec fn crawl(self, id: nat) -> CrawlView {
        match self.runs[id as int] {
            Some(run) => run.1,
            None => arbitrary(),
        }
    }

    /// The URL that the crawl in progress at a place started at.
    pub open spec fn seed(self, id: nat) -> Seq<char> {
        match self.runs[id as int] {
            Some(run) => run.0,
            None => arbitrary(),
        }
    }

    /// What is in progress once a crawl has begun at the first free place.
    pub open spec fn begin(self, seed: Seq<char>, robots: Option<Seq<char>>) -> ProdCrawlerView {
        let id = free_place(self.runs);
        let run = Some((seed, CrawlView::begin(seed, robots)));
        ProdCrawlerView {
            runs: if id < self.runs.len() {
                self.runs.update(id as int, run)
            } else {
                self.runs.push(run)
            },
        }
    }

    /// What is in progress once the crawl at a place has moved on.
    pub open spec fn with_crawl(self, id: nat, crawl: CrawlView) -> ProdCrawlerView {
        ProdCrawlerView { runs: self.runs.update(id as int, Some((self.seed(id), crawl))) }
    }

    /// What is in progress once the crawl at a place has ended.
    pub open spec fn end(self, id: nat) -> ProdCrawlerView {
        ProdCrawlerView { runs: self.runs.update(id as int, None) }
    }

    /// Every crawl is valid, in a state that a crawl from the URL that it started at gets
    /// into, and on the domain of that URL.
    pub open spec fn is_valid(self) -> bool {
        forall|id: nat| #[trigger]
            self.is_running(id) ==> {
                &&& self.crawl(id).is_valid()
                &&& self.crawl(id).robots matches Some(robots) ==> is_readable(robots)
                &&& self.crawl(id).on_domain(url_domain(self.seed(id)))
                &&& has_history(self.seed(id), self.crawl(id))
            }
    }
}

proof fn lemma_free_place(runs: Seq<Option<(Seq<char>, CrawlView)>>, at: int)
    requires
        0 <= at <= runs.len(),
        forall|i: int| 0 <= i < at ==> #[trigger] runs[i] is Some,
        at < runs.len() ==> runs[at] is None,
    ensures
        free_place(runs) == at,
    decreases runs.len(),
{
    if at > 0 {
        assert(runs[0] is Some);
        assert forall|i: int| 0 <= i < at - 1 implies #[trigger] runs.drop_first()[i] is Some by {
            assert(runs.drop_first()[i] == runs[i + 1]);
        }
        lemma_free_place(runs.drop_first(), at - 1);
    }
}

proof fn lemma_is_free_place(runs: Seq<Option<(Seq<char>, CrawlView)>>)
    ensures
        free_place(runs) <= runs.len(),
        free_place(runs) < runs.len() ==> runs[free_place(runs) as int] is None,
    decreases runs.len(),
{
    if runs.len() > 0 && runs[0] is Some {
        lemma_is_free_place(runs.drop_first());
    }
}

/// What is in progress stays valid when a crawl begins.
pub proof fn lemma_begin_keeps_valid(
    crawler: ProdCrawlerView,
    seed: Seq<char>,
    robots: Option<Seq<char>>,
)
    requires
        crawler.is_valid(),
        robots matches Some(robots) ==> is_readable(robots),
    ensures
        crawler.begin(seed, robots).is_valid(),
{
    let next = crawler.begin(seed, robots);
    let id = free_place(crawler.runs);
    lemma_is_free_place(crawler.runs);
    lemma_begin_valid(seed, robots);
    lemma_begin_has_history(seed, robots);
    assert(next.runs[id as int] == Some((seed, CrawlView::begin(seed, robots))));
    assert(CrawlView::begin(seed, robots).robots == robots);
    assert forall|other: nat| #[trigger] next.is_running(other) implies {
        &&& next.crawl(other).is_valid()
        &&& next.crawl(other).robots matches Some(robots) ==> is_readable(robots)
        &&& next.crawl(other).on_domain(url_domain(next.seed(other)))
        &&& has_history(next.seed(other), next.crawl(other))
    } by {
        if other != id {
            assert(crawler.is_running(other));
            assert(next.runs[other as int] == crawler.runs[other as int]);
        }
    }
}

/// What is in progress stays valid when the crawl at a place moves on.
pub proof fn lemma_with_crawl_keeps_valid(crawler: ProdCrawlerView, id: nat, crawl: CrawlView)
    requires
        crawler.is_valid(),
        crawler.is_running(id),
        crawl.is_valid(),
        crawl.robots == crawler.crawl(id).robots,
        crawl.on_domain(url_domain(crawler.seed(id))),
        has_history(crawler.seed(id), crawl),
    ensures
        crawler.with_crawl(id, crawl).is_valid(),
{
    let next = crawler.with_crawl(id, crawl);
    assert forall|other: nat| #[trigger] next.is_running(other) implies {
        &&& next.crawl(other).is_valid()
        &&& next.crawl(other).robots matches Some(robots) ==> is_readable(robots)
        &&& next.crawl(other).on_domain(url_domain(next.seed(other)))
        &&& has_history(next.seed(other), next.crawl(other))
    } by {
        assert(crawler.is_running(other));
    }
}

/// What is in progress stays valid when the crawl at a place ends.
pub proof fn lemma_end_keeps_valid(crawler: ProdCrawlerView, id: nat)
    requires
        crawler.is_valid(),
        crawler.is_running(id),
    ensures
        crawler.end(id).is_valid(),
{
    let next = crawler.end(id);
    assert forall|other: nat| #[trigger] next.is_running(other) implies {
        &&& next.crawl(other).is_valid()
        &&& next.crawl(other).robots matches Some(robots) ==> is_readable(robots)
        &&& next.crawl(other).on_domain(url_domain(next.seed(other)))
        &&& has_history(next.seed(other), next.crawl(other))
    } by {
        assert(crawler.is_running(other));
    }
}

proof fn lemma_status_of_place(runs: Seq<Option<(Seq<char>, CrawlView)>>, at: int)
    requires
        0 <= at < runs.len(),
    ensures
        runs[at] matches Some(run) ==> statuses(runs).contains(status_of(run.0, run.1)),
    decreases runs.len(),
{
    if let Some(run) = runs[at] {
        let status = status_of(run.0, run.1);
        if at == runs.len() - 1 {
            assert(statuses(runs)[statuses(runs).len() - 1] == status);
        } else {
            lemma_status_of_place(runs.drop_last(), at);
            let i = statuses(runs.drop_last()).index_of(status);
            assert(statuses(runs)[i] == status);
        }
    }
}

proof fn lemma_as_many_statuses(runs: Seq<Option<(Seq<char>, CrawlView)>>)
    ensures
        statuses(runs).len() == running_count(runs),
    decreases runs.len(),
{
    reveal(Seq::filter);
    if runs.len() > 0 {
        lemma_as_many_statuses(runs.drop_last());
    }
}

/// The progress of all crawls has exactly one entry for each crawl in progress, with
/// the URL that it started at, also where several started at the same.
pub proof fn law_status_shows_every_crawl(crawler: ProdCrawlerView)
    ensures
        statuses(crawler.runs).len() == running_count(crawler.runs),
        forall|id: nat| #[trigger]
            crawler.is_running(id) ==> statuses(crawler.runs).contains(
                status_of(crawler.seed(id), crawler.crawl(id)),
            ),
{
    lemma_as_many_statuses(crawler.runs);
    assert forall|id: nat| #[trigger] crawler.is_running(id) implies statuses(
        crawler.runs,
    ).contains(status_of(crawler.seed(id), crawler.crawl(id))) by {
        lemma_status_of_place(crawler.runs, id as int);
    }
}

proof fn lemma_statuses_push(
    runs: Seq<Option<(Seq<char>, CrawlView)>>,
    seed: Seq<char>,
    crawl: CrawlView,
)
    ensures
        statuses(runs.push(Some((seed, crawl)))) == statuses(runs).push(status_of(seed, crawl)),
{
    assert(runs.push(Some((seed, crawl))).drop_last() =~= runs);
}

/// A crawl at a place counts for one entry of the progress of all crawls.
proof fn lemma_statuses_without(
    runs: Seq<Option<(Seq<char>, CrawlView)>>,
    at: int,
    seed: Seq<char>,
    crawl: CrawlView,
)
    requires
        0 <= at < runs.len(),
        runs[at] == Some((seed, crawl)),
    ensures
        statuses(runs).to_multiset() == statuses(runs.update(at, None)).to_multiset().insert(
            status_of(seed, crawl),
        ),
    decreases runs.len(),
{
    broadcast use vstd::seq_lib::group_to_multiset_ensures;

    let rest = runs.drop_last();
    let without = runs.update(at, None);
    let status = status_of(seed, crawl);
    if at == runs.len() - 1 {
        assert(without.drop_last() =~= rest);
        assert(statuses(runs) == statuses(rest).push(status));
    } else {
        lemma_statuses_without(rest, at, seed, crawl);
        assert(without.drop_last() =~= rest.update(at, None));
        match runs.last() {
            Some(run) => {
                let last = status_of(run.0, run.1);
                assert(statuses(runs) == statuses(rest).push(last));
                assert(statuses(without) == statuses(rest.update(at, None)).push(last));
                assert(statuses(runs).to_multiset() =~= statuses(without).to_multiset().insert(
                    status,
                ));
            },
            None => {},
        }
    }
}

/// A crawl that begins takes a place that no crawl has, adds one entry to the progress
/// of all crawls, and leaves the crawls that are in progress as they are.
pub proof fn law_begin_adds_to_status(
    crawler: ProdCrawlerView,
    seed: Seq<char>,
    robots: Option<Seq<char>>,
)
    ensures
        !crawler.is_running(free_place(crawler.runs)),
        crawler.begin(seed, robots).is_running(free_place(crawler.runs)),
        crawler.begin(seed, robots).seed(free_place(crawler.runs)) == seed,
        crawler.begin(seed, robots).crawl(free_place(crawler.runs)) == CrawlView::begin(
            seed,
            robots,
        ),
        statuses(crawler.begin(seed, robots).runs).to_multiset() == statuses(
            crawler.runs,
        ).to_multiset().insert(status_of(seed, CrawlView::begin(seed, robots))),
        forall|id: nat| #[trigger]
            crawler.is_running(id) ==> {
                &&& crawler.begin(seed, robots).is_running(id)
                &&& crawler.begin(seed, robots).crawl(id) == crawler.crawl(id)
                &&& crawler.begin(seed, robots).seed(id) == crawler.seed(id)
            },
{
    broadcast use vstd::seq_lib::group_to_multiset_ensures;

    let next = crawler.begin(seed, robots);
    let id = free_place(crawler.runs);
    let crawl = CrawlView::begin(seed, robots);
    lemma_is_free_place(crawler.runs);
    assert(next.runs[id as int] == Some((seed, crawl)));
    if id < crawler.runs.len() {
        lemma_statuses_without(next.runs, id as int, seed, crawl);
        assert(next.runs.update(id as int, None) =~= crawler.runs);
    } else {
        lemma_statuses_push(crawler.runs, seed, crawl);
    }
}

/// A crawl that moves on leaves the others as they are.
pub proof fn law_crawls_do_not_disturb_each_other(
    crawler: ProdCrawlerView,
    id: nat,
    crawl: CrawlView,
    other: nat,
)
    requires
        crawler.is_running(id),
        crawler.is_running(other),
        other != id,
    ensures
        crawler.with_crawl(id, crawl).is_running(id),
        crawler.with_crawl(id, crawl).crawl(id) == crawl,
        crawler.with_crawl(id, crawl).seed(id) == crawler.seed(id),
        crawler.with_crawl(id, crawl).is_running(other),
        crawler.with_crawl(id, crawl).crawl(other) == crawler.crawl(other),
        crawler.with_crawl(id, crawl).seed(other) == crawler.seed(other),
{
}

/// A crawl that ends takes its own entry, and no other, out of the progress of all
/// crawls, and leaves the others as they are.
pub proof fn law_end_removes_from_status(crawler: ProdCrawlerView, id: nat)
    requires
        crawler.is_running(id),
    ensures
        !crawler.end(id).is_running(id),
        statuses(crawler.runs).to_multiset() == statuses(
            crawler.end(id).runs,
        ).to_multiset().insert(status_of(crawler.seed(id), crawler.crawl(id))),
        forall|other: nat| #[trigger]
            crawler.is_running(other) && other != id ==> {
                &&& crawler.end(id).is_running(other)
                &&& crawler.end(id).crawl(other) == crawler.crawl(other)
                &&& crawler.end(id).seed(other) == crawler.seed(other)
            },
{
    lemma_statuses_without(crawler.runs, id as int, crawler.seed(id), crawler.crawl(id));
}

/// The progress of all crawls has, in the order of their places, the URL that each crawl
/// in progress started at, how many URLs it is done with, and how many it has found and
/// is not done with. A free place has no entry.
pub proof fn law_status_goes_by_places(
    runs: Seq<Option<(Seq<char>, CrawlView)>>,
    seed: Seq<char>,
    crawl: CrawlView,
)
    requires
        crawl.pages.len() <= crawl.seen.len(),
    ensures
        statuses(Seq::empty()).len() == 0,
        statuses(runs.push(None)) == statuses(runs),
        statuses(runs.push(Some((seed, crawl)))).len() == statuses(runs).len() + 1,
        statuses(runs.push(Some((seed, crawl)))).drop_last() == statuses(runs),
        statuses(runs.push(Some((seed, crawl)))).last().seed == seed,
        statuses(runs.push(Some((seed, crawl)))).last().done == crawl.pages.len(),
        statuses(runs.push(Some((seed, crawl)))).last().todo == crawl.seen.len()
            - crawl.pages.len(),
{
    assert(runs.push(None).drop_last() =~= runs);
    lemma_statuses_push(runs, seed, crawl);
    assert(statuses(runs.push(Some((seed, crawl)))).drop_last() =~= statuses(runs));
}

/// A crawl begins at the first place that is free, or behind all places where none is;
/// every other place keeps what it has.
pub proof fn law_a_crawl_takes_the_first_free_place(
    crawler: ProdCrawlerView,
    seed: Seq<char>,
    robots: Option<Seq<char>>,
    place: int,
)
    requires
        0 <= place <= crawler.runs.len(),
        forall|i: int| 0 <= i < place ==> #[trigger] crawler.runs[i] is Some,
        place < crawler.runs.len() ==> crawler.runs[place] is None,
    ensures
        free_place(crawler.runs) == place,
        crawler.begin(seed, robots).runs.len() == (if place < crawler.runs.len() {
            crawler.runs.len()
        } else {
            crawler.runs.len() + 1
        }),
        crawler.begin(seed, robots).runs[place] == Some((seed, CrawlView::begin(seed, robots))),
        forall|i: int|
            0 <= i < crawler.runs.len() && i != place ==> #[trigger] crawler.begin(
                seed,
                robots,
            ).runs[i] == crawler.runs[i],
{
    lemma_free_place(crawler.runs, place);
}

/// A crawl that moves on keeps its place and the URL that it started at, and one that ends
/// leaves its place free; every other place keeps what it has.
pub proof fn law_a_crawl_keeps_to_its_place(
    crawler: ProdCrawlerView,
    id: nat,
    seed: Seq<char>,
    before: CrawlView,
    after: CrawlView,
)
    requires
        id < crawler.runs.len(),
        crawler.runs[id as int] == Some((seed, before)),
    ensures
        crawler.is_running(id),
        crawler.seed(id) == seed,
        crawler.crawl(id) == before,
        crawler.with_crawl(id, after).runs.len() == crawler.runs.len(),
        crawler.with_crawl(id, after).runs[id as int] == Some((seed, after)),
        crawler.end(id).runs.len() == crawler.runs.len(),
        crawler.end(id).runs[id as int] is None,
        forall|i: int|
            0 <= i < crawler.runs.len() && i != id ==> #[trigger] crawler.with_crawl(
                id,
                after,
            ).runs[i] == crawler.runs[i],
        forall|i: int|
            0 <= i < crawler.runs.len() && i != id ==> #[trigger] crawler.end(id).runs[i]
                == crawler.runs[i],
{
}

/// The crawls in progress on the server.
#[derive(Debug)]
pub struct ProdCrawler {
    runs: Vec<Option<Run>>,
}

/// The crawl, if any, at a place.
spec fn run_view(run: Option<Run>) -> Option<(Seq<char>, CrawlView)> {
    match run {
        Some(run) => Some(run@),
        None => None,
    }
}

impl View for ProdCrawler {
    type V = ProdCrawlerView;

    closed spec fn view(&self) -> ProdCrawlerView {
        ProdCrawlerView { runs: self.runs@.map_values(|run: Option<Run>| run_view(run)) }
    }
}

impl ProdCrawler {
    /// A server without crawls.
    pub fn new() -> (crawler: ProdCrawler)
        ensures
            crawler@ == ProdCrawlerView::empty(),
            crawler@.is_valid(),
            crawler@.runs.len() == 0,
    {
        let crawler = ProdCrawler { runs: Vec::new() };
        assert(crawler@.runs =~= ProdCrawlerView::empty().runs);
        crawler
    }

    fn first_free(&self) -> (place: usize)
        ensures
            place == free_place(self@.runs),
            place <= self.runs.len(),
    {
        let mut i: usize = 0;
        while i < self.runs.len()
            invariant
                i <= self.runs.len(),
                forall|j: int| 0 <= j < i ==> #[trigger] self@.runs[j] is Some,
            decreases self.runs.len() - i,
        {
            assert(self@.runs[i as int] == run_view(self.runs@[i as int]));
            if self.runs[i].is_none() {
                proof {
                    lemma_free_place(self@.runs, i as int);
                }
                return i;
            }
            i = i + 1;
        }
        proof {
            lemma_free_place(self@.runs, i as int);
        }
        i
    }

    /// Begins a crawl at a URL, of a site with or without a robots.txt. It is known
    /// from now on by the place that is given back.
    pub fn begin(&mut self, seed: WebUrl, robots: Option<String>) -> (id: usize)
        requires
            old(self)@.is_valid(),
            robots matches Some(robots) ==> is_readable(robots@),
        ensures
            final(self)@.is_valid(),
            id == free_place(old(self)@.runs),
            !old(self)@.is_running(id as nat),
            final(self)@ == old(self)@.begin(seed@, optional_text(robots)),
            final(self)@.is_running(id as nat),
            final(self)@.seed(id as nat) == seed@,
            final(self)@.crawl(id as nat) == CrawlView::begin(seed@, optional_text(robots)),
            id < final(self)@.runs.len(),
            final(self)@.runs[id as int] == Some(
                (seed@, CrawlView::begin(seed@, optional_text(robots))),
            ),
            id < old(self)@.runs.len() ==> old(self)@.runs[id as int] is None,
            forall|i: int|
                0 <= i < old(self)@.runs.len() && i != id ==> #[trigger] final(self)@.runs[i]
                    == old(self)@.runs[i],
    {
        let ghost before = self@;
        proof {
            lemma_begin_keeps_valid(before, seed@, optional_text(robots));
            law_begin_adds_to_status(before, seed@, optional_text(robots));
        }
        let id: usize = self.first_free();
        let mut crawl: Crawl = Crawl::new(robots);
        crawl.add_link(&seed);
        let run = Some(Run { seed, crawl });
        let ghost begun = run_view(run);
        if id < self.runs.len() {
            self.runs.set(id, run);
            assert(self@.runs =~= before.runs.update(id as int, begun));
        } else {
            self.runs.push(run);
            assert(self@.runs =~= before.runs.push(begun));
        }
        id
    }

    /// Whether a crawl is in progress at a place.
    pub fn is_running(&self, id: usize) -> (running: bool)
        ensures
            running == self@.is_running(id as nat),
            running <==> id < self@.runs.len() && self@.runs[id as int] is Some,
    {
        id < self.runs.len() && self.runs[id].is_some()
    }

    fn take_run(&mut self, id: usize) -> (run: Run)
        requires
            old(self)@.is_valid(),
            old(self)@.is_running(id as nat),
        ensures
            run.crawl.is_valid(),
            run.seed@ == old(self)@.seed(id as nat),
            run.crawl@ == old(self)@.crawl(id as nat),
            run.crawl@.on_domain(url_domain(run.seed@)),
            has_history(run.seed@, run.crawl@),
            final(self)@.runs == old(self)@.runs.update(id as int, None),
    {
        let ghost before = self@;
        assert(before.runs[id as int] == run_view(self.runs@[id as int]));
        let mut slot: Option<Run> = None;
        std::mem::swap(&mut slot, &mut self.runs[id]);
        assert(self@.runs =~= before.runs.update(id as int, None));
        assert(before.is_running(id as nat));
        slot.unwrap()
    }

    fn put_run(&mut self, id: usize, run: Run)
        requires
            id < old(self)@.runs.len(),
        ensures
            final(self)@.runs == old(self)@.runs.update(id as int, Some(run@)),
    {
        let ghost before = self@;
        let ghost view = run@;
        self.runs.set(id, Some(run));
        assert(self@.runs =~= before.runs.update(id as int, Some(view)));
    }

    /// Says what the crawl at a place asks for next.
    pub fn next_action(&mut self, id: usize) -> (action: CrawlAction)
        requires
            old(self)@.is_valid(),
            old(self)@.is_running(id as nat),
        ensures
            final(self)@.is_valid(),
            match action {
                CrawlAction::Fetch(url) => {
                    &&& old(self)@.crawl(id as nat).can_fetch()
                    &&& url@ == old(self)@.crawl(id as nat).todo[0]
                    &&& final(self)@ == old(self)@.with_crawl(
                        id as nat,
                        old(self)@.crawl(id as nat).fetch(),
                    )
                },
                CrawlAction::Wait => {
                    &&& !old(self)@.crawl(id as nat).is_done()
                    &&& !old(self)@.crawl(id as nat).can_fetch()
                    &&& old(self)@.crawl(id as nat).in_flight.len() > 0
                    &&& final(self)@ == old(self)@
                },
                CrawlAction::Finish => {
                    &&& old(self)@.crawl(id as nat).is_done()
                    &&& final(self)@ == old(self)@
                },
            },
    {
        let ghost before = self@;
        let mut run: Run = self.take_run(id);
        proof {
            law_crawls_keep_to_histories(
                run.seed@,
                run.crawl@,
                Seq::empty(),
                PageResultView::ExcludedByRobotsTxt,
            );
        }
        let action: CrawlAction = run.crawl.next_action();
        proof {
            lemma_with_crawl_keeps_valid(before, id as nat, run.crawl@);
        }
        let ghost crawl = run.crawl@;
        self.put_run(id, run);
        assert(self@.runs =~= before.with_crawl(id as nat, crawl).runs);
        assert(before.with_crawl(id as nat, before.crawl(id as nat)).runs =~= before.runs);
        action
    }

    /// Takes note of what came of a URL that the crawl at a place was fetching.
    pub fn record(&mut self, id: usize, url: WebUrl, result: PageResult)
        requires
            old(self)@.is_valid(),
            old(self)@.is_running(id as nat),
            old(self)@.crawl(id as nat).in_flight.contains(url@),
            is_digested(url@, result@),
        ensures
            final(self)@.is_valid(),
            final(self)@ == old(self)@.with_crawl(
                id as nat,
                old(self)@.crawl(id as nat).record(url@, result@),
            ),
            final(self)@.runs.len() == old(self)@.runs.len(),
            final(self)@.crawl(id as nat).pages.contains((url@, result@)),
            forall|i: int|
                0 <= i < old(self)@.runs.len() && i != id ==> #[trigger] final(self)@.runs[i]
                    == old(self)@.runs[i],
    {
        let ghost before = self@;
        let mut run: Run = self.take_run(id);
        proof {
            law_crawls_keep_to_histories(run.seed@, run.crawl@, url@, result@);
            lemma_add_links_valid(run.crawl@, leads_on(url@, result@));
        }
        run.crawl.record(url, result);
        proof {
            lemma_with_crawl_keeps_valid(before, id as nat, run.crawl@);
        }
        let ghost crawl = run.crawl@;
        self.put_run(id, run);
        assert(self@.runs =~= before.with_crawl(id as nat, crawl).runs);
    }

    /// Takes note of the response to the request for a URL that the crawl at a place was
    /// fetching, or of the message of what went wrong.
    pub fn step(
        &mut self,
        id: usize,
        url: WebUrl,
        response: Result<HttpResponse, String>,
    ) -> (stepped: Result<(), IncompletePage>)
        requires
            old(self)@.is_valid(),
            old(self)@.is_running(id as nat),
            old(self)@.crawl(id as nat).in_flight.contains(url@),
            is_digestible(response_view(response)),
        ensures
            final(self)@.is_valid(),
            stepped is Ok,
            digested(url@, response_view(response)) matches Ok(result) && final(self)@ == old(
                self,
            )@.with_crawl(id as nat, old(self)@.crawl(id as nat).record(url@, result)),
            match response {
                Ok(HttpResponse::Html(body)) => final(self)@.crawl(id as nat).pages.contains(
                    (
                        url@,
                        PageResultView::Crawled(links_of_tokens(url@, html_tokenized(body@).2)),
                    ),
                ),
                Ok(HttpResponse::ServerFailure(status, message)) => final(self)@.crawl(
                    id as nat,
                ).pages.contains((url@, PageResultView::ServerFailure(status.code, message@))),
                Ok(HttpResponse::Redirect(status, target)) => final(self)@.crawl(
                    id as nat,
                ).pages.contains((url@, PageResultView::Redirect(status.code, target@))),
                Ok(HttpResponse::OtherContent(content_type)) => final(self)@.crawl(
                    id as nat,
                ).pages.contains((url@, PageResultView::OtherContent(content_type@))),
                Err(message) => final(self)@.crawl(id as nat).pages.contains(
                    (url@, PageResultView::Error(message@)),
                ),
            },
            forall|i: int|
                0 <= i < old(self)@.runs.len() && i != id ==> #[trigger] final(self)@.runs[i]
                    == old(self)@.runs[i],
    {
        match digest(&url, response) {
            Ok(result) => {
                self.record(id, url, result);
                Ok(())
            },
            Err(error) => Err(error),
        }
    }

    /// Ends the crawl at a place. It is not in progress any more, whether or not it went
    /// well; what came of its URLs is given back where it did, as it is in a state that a
    /// crawl from its URL gets into, all of them of the domain that it started on, and what
    /// went wrong where it did not.
    pub fn end<E>(&mut self, id: usize, outcome: Result<(), E>) -> (result: Result<CrawlResult, E>)
        requires
            old(self)@.is_valid(),
            old(self)@.is_running(id as nat),
        ensures
            final(self)@.is_valid(),
            final(self)@ == old(self)@.end(id as nat),
            !final(self)@.is_running(id as nat),
            final(self)@.runs == old(self)@.runs.update(id as int, None),
            match outcome {
                Ok(_) => {
                    &&& result matches Ok(pages)
                    &&& pages.is_valid()
                    &&& has_history(old(self)@.seed(id as nat), old(self)@.crawl(id as nat))
                    &&& pages@ == old(self)@.crawl(id as nat).pages
                    &&& forall|i: int|
                        0 <= i < pages@.len() ==> url_domain((#[trigger] pages@[i]).0)
                            == url_domain(old(self)@.seed(id as nat))
                },
                Err(error) => result == Err::<CrawlResult, E>(error),
            },
    {
        let ghost before = self@;
        proof {
            lemma_end_keeps_valid(before, id as nat);
        }
        let run: Run = self.take_run(id);
        proof {
            let crawl = run.crawl@;
            assert forall|i: int| 0 <= i < crawl.pages.len() implies url_domain(
                (#[trigger] crawl.pages[i]).0,
            ) == url_domain(run.seed@) by {
                assert(has_page(crawl.pages, crawl.pages[i].0));
                assert(crawl.seen.contains(crawl.pages[i].0));
            }
        }
        match outcome {
            Ok(_) => Ok(run.crawl.into_result()),
            Err(error) => Err(error),
        }
    }

    /// The progress of all crawls in progress.
    pub fn status(&self) -> (status: CrawlerStatus)
        requires
            self@.is_valid(),
        ensures
            status@ == statuses(self@.runs),
            status.crawls.len() == statuses(self@.runs).len(),
            forall|i: int|
                0 <= i < status.crawls.len() ==> (#[trigger] status.crawls@[i]).seed@ == statuses(
                    self@.runs,
                )[i].seed && status.crawls@[i].done == statuses(self@.runs)[i].done
                    && status.crawls@[i].todo == statuses(self@.runs)[i].todo,
    {
        let mut crawls: Vec<CrawlStatus> = Vec::new();
        let mut i: usize = 0;
        let ghost runs = self@.runs;
        proof {
            assert(runs.take(0) =~= Seq::empty());
            assert(status_views(crawls@) =~= statuses(runs.take(0)));
        }
        while i < self.runs.len()
            invariant
                i <= self.runs.len(),
                self@.is_valid(),
                runs == self@.runs,
                status_views(crawls@) == statuses(runs.take(i as int)),
            decreases self.runs.len() - i,
        {
            proof {
                assert(runs[i as int] == run_view(self.runs@[i as int]));
                assert(runs.take(i + 1).drop_last() =~= runs.take(i as int));
            }
            if let Some(run) = &self.runs[i] {
                assert(self@.is_running(i as nat));
                let status: CrawlStatus = run.crawl.status(&run.seed);
                proof {
                    assert(status_views(crawls@.push(status)) =~= status_views(crawls@).push(
                        status@,
                    ));
                }
                crawls.push(status);
            }
            i = i + 1;
        }
        assert(runs.take(runs.len() as int) =~= runs);
        assert forall|i: int| 0 <= i < crawls.len() implies (#[trigger] crawls@[i]).seed@
            == statuses(runs)[i].seed && crawls@[i].done == statuses(runs)[i].done
            && crawls@[i].todo == statuses(runs)[i].todo by {
            assert(status_views(crawls@)[i] == crawls@[i]@);
        }
        CrawlerStatus { crawls }
    }
}

} // verus!
