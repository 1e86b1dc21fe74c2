//! A crawl as a state machine: its states, the events that move it on, and what
//! every state keeps.
use vstd::prelude::*;

use crate::link_extractor::{PageInfoView, is_internal};
use crate::robots::is_allowed;
use crate::urls::{url_defragmented, url_domain};

verus! {

/// How many URLs of a crawl are fetched at the same time, at most.
pub const MAX_IN_FLIGHT: usize = 20;

/// What came of a URL, by its texts.
pub enum PageResultView {
    ServerFailure(u16, Seq<char>),
    Error(Seq<char>),
    Redirect(u16, Seq<char>),
    Crawled(PageInfoView),
    OtherContent(Seq<char>),
    ExcludedByRobotsTxt,
}

/// Whether something is recorded of a URL.
pub open spec fn has_page(pages: Seq<(Seq<char>, PageResultView)>, url: Seq<char>) -> bool {
    exists|i: int| 0 <= i < pages.len() && (#[trigger] pages[i]).0 == url
}

/// Whether at most one thing is recorded of each URL.
pub open spec fn distinct_pages(pages: Seq<(Seq<char>, PageResultView)>) -> bool {
    forall|i: int, j: int|
        0 <= i < j < pages.len() ==> (#[trigger] pages[i]).0 != (#[trigger] pages[j]).0
}

/// The URLs that lead on from a URL, given what came of it: the internal links of
/// a page without their fragments, and the target of a redirection that stays on
/// the domain.
pub open spec fn leads_on(url: Seq<char>, result: PageResultView) -> Seq<Seq<char>> {
    match result {
        PageResultView::Crawled(info) => info.internal_links.map_values(
            |link: Seq<char>| url_defragmented(link),
        ),
        PageResultView::Redirect(_, target) => if is_internal(url, target) {
            seq![target]
        } else {
            Seq::empty()
        },
        _ => Seq::empty(),
    }
}

/// Whether a URL leads to another, given what came of it: an internal link of its page
/// is the other once its fragment is taken away, or it is redirected to the other on
/// the same domain.
pub open spec fn leads_to(url: Seq<char>, result: PageResultView, to: Seq<char>) -> bool {
    match result {
        PageResultView::Crawled(info) => exists|i: int|
            0 <= i < info.internal_links.len() && to == url_defragmented(
                #[trigger] info.internal_links[i],
            ),
        PageResultView::Redirect(_, target) => to == target && url_domain(target) == url_domain(
            url,
        ),
        _ => false,
    }
}

/// The URLs that lead on from a URL are those that it leads to.
pub proof fn lemma_leads_to(url: Seq<char>, result: PageResultView, to: Seq<char>)
    ensures
        leads_on(url, result).contains(to) <==> leads_to(url, result, to),
{
    if leads_on(url, result).contains(to) {
        let i = leads_on(url, result).index_of(to);
        if let PageResultView::Crawled(info) = result {
            assert(to == url_defragmented(info.internal_links[i]));
        }
    }
    if leads_to(url, result, to) {
        match result {
            PageResultView::Crawled(info) => {
                let i = choose|i: int|
                    0 <= i < info.internal_links.len() && to == url_defragmented(
                        #[trigger] info.internal_links[i],
                    );
                assert(leads_on(url, result)[i] == to);
            },
            _ => {
                assert(leads_on(url, result)[0] == to);
            },
        }
    }
}

/// Whether the internal links of a page stay on the domain of its URL.
pub open spec fn is_sound(url: Seq<char>, result: PageResultView) -> bool {
    result matches PageResultView::Crawled(info) ==> forall|i: int|
        0 <= i < info.internal_links.len() ==> is_internal(url, #[trigger] info.internal_links[i])
}

/// A list without one of its items, where it has it.
pub open spec fn without(urls: Seq<Seq<char>>, url: Seq<char>) -> Seq<Seq<char>> {
    if urls.contains(url) {
        urls.remove(urls.index_of_first(url)->0)
    } else {
        urls
    }
}

/// The same pages, with what came of one URL put in place of what was recorded of
/// it, or at the end where nothing was.
pub open spec fn with_page(
    pages: Seq<(Seq<char>, PageResultView)>,
    url: Seq<char>,
    result: PageResultView,
) -> Seq<(Seq<char>, PageResultView)> {
    if has_page(pages, url) {
        pages.map_values(
            |page: (Seq<char>, PageResultView)|
                if page.0 == url {
                    (url, result)
                } else {
                    page
                },
        )
    } else {
        pages.push((url, result))
    }
}

/// The state of a crawl.
pub struct CrawlView {
    /// The robots.txt of the site, where it has one.
    pub robots: Option<Seq<char>>,
    /// Every URL that was found, in the order in which they were found.
    pub seen: Seq<Seq<char>>,
    /// The URLs that wait to be fetched, in order.
    pub todo: Seq<Seq<char>>,
    /// The URLs that are being fetched.
    pub in_flight: Seq<Seq<char>>,
    /// What came of the URLs that are done with.
    pub pages: Seq<(Seq<char>, PageResultView)>,
}

impl CrawlView {
    /// A crawl that has found nothing.
    pub open spec fn empty(robots: Option<Seq<char>>) -> CrawlView {
        CrawlView {
            robots,
            seen: Seq::empty(),
            todo: Seq::empty(),
            in_flight: Seq::empty(),
            pages: Seq::empty(),
        }
    }

    /// The crawl once a URL is found: a new one waits to be fetched, or is done
    /// with at once where the robots.txt excludes it.
    pub open spec fn add_link(self, url: Seq<char>) -> CrawlView {
        if self.seen.contains(url) {
            self
        } else if is_allowed(self.robots, url) {
            CrawlView { seen: self.seen.push(url), todo: self.todo.push(url), ..self }
        } else {
            CrawlView {
                seen: self.seen.push(url),
                pages: self.pages.push((url, PageResultView::ExcludedByRobotsTxt)),
                ..self
            }
        }
    }

    /// The crawl once URLs are found, one after the other.
    pub open spec fn add_links(self, urls: Seq<Seq<char>>) -> CrawlView
        decreases urls.len(),
    {
        if urls.len() == 0 {
            self
        } else {
            self.add_links(urls.drop_last()).add_link(urls.last())
        }
    }

    /// A crawl that starts at a URL.
    pub open spec fn begin(seed: Seq<char>, robots: Option<Seq<char>>) -> CrawlView {
        CrawlView::empty(robots).add_link(seed)
    }

    /// Whether a URL is to be fetched now.
    pub open spec fn can_fetch(self) -> bool {
        self.todo.len() > 0 && self.in_flight.len() < MAX_IN_FLIGHT
    }

    /// The crawl once the fetching of the first waiting URL has begun.
    pub open spec fn fetch(self) -> CrawlView {
        CrawlView {
            todo: self.todo.drop_first(),
            in_flight: self.in_flight.push(self.todo[0]),
            ..self
        }
    }

    /// Whether something that came of a URL can be recorded.
    pub open spec fn can_record(self, url: Seq<char>, result: PageResultView) -> bool {
        &&& self.in_flight.contains(url)
        &&& !(result is ExcludedByRobotsTxt)
        &&& is_sound(url, result)
    }

    /// The crawl once the fetching of a URL has ended: what leads on from it is
    /// found, and what came of it is recorded.
    pub open spec fn record(self, url: Seq<char>, result: PageResultView) -> CrawlView {
        let next = self.add_links(leads_on(url, result));
        CrawlView {
            in_flight: without(next.in_flight, url),
            pages: with_page(next.pages, url, result),
            ..next
        }
    }

    /// Whether everything that was found is done with.
    pub open spec fn is_done(self) -> bool {
        self.pages.len() == self.seen.len()
    }

    /// Whether a URL that is done with leads to another.
    pub open spec fn links(self, from: Seq<char>, to: Seq<char>) -> bool {
        exists|i: int|
            0 <= i < self.pages.len() && (#[trigger] self.pages[i]).0 == from && leads_to(
                    self.pages[i].0,
                    self.pages[i].1,
                    to,
                )
    }

    /// Every URL that was found waits, is being fetched or is done with, and only
    /// one of these; nothing else does.
    pub open spec fn is_sorted_out(self) -> bool {
        &&& self.seen.no_duplicates()
        &&& self.todo.no_duplicates()
        &&& self.in_flight.no_duplicates()
        &&& distinct_pages(self.pages)
        &&& self.seen.len() == self.todo.len() + self.in_flight.len() + self.pages.len()
        &&& forall|url: Seq<char>| #[trigger]
            self.todo.contains(url) ==> self.seen.contains(url) && !self.in_flight.contains(url)
                && !has_page(self.pages, url)
        &&& forall|url: Seq<char>| #[trigger]
            self.in_flight.contains(url) ==> self.seen.contains(url) && !self.todo.contains(url)
                && !has_page(self.pages, url)
        &&& forall|url: Seq<char>| #[trigger]
            has_page(self.pages, url) ==> self.seen.contains(url) && !self.todo.contains(url)
                && !self.in_flight.contains(url)
        &&& forall|url: Seq<char>| #[trigger]
            self.seen.contains(url) ==> self.todo.contains(url) || self.in_flight.contains(url)
                || has_page(self.pages, url)
    }

    /// Only URLs that were found are done with, and at most one thing is recorded of each.
    pub open spec fn records_what_was_seen(self) -> bool {
        &&& distinct_pages(self.pages)
        &&& forall|url: Seq<char>| #[trigger]
            has_page(self.pages, url) ==> self.seen.contains(url)
    }

    /// Only URLs that the robots.txt allows wait or are being fetched, and of the
    /// URLs that are done with those count as excluded that it does not allow.
    pub open spec fn respects_robots(self) -> bool {
        &&& forall|url: Seq<char>| #[trigger]
            self.todo.contains(url) ==> is_allowed(self.robots, url)
        &&& forall|url: Seq<char>| #[trigger]
            self.in_flight.contains(url) ==> is_allowed(self.robots, url)
        &&& forall|i: int|
            0 <= i < self.pages.len() ==> ((#[trigger] self.pages[i]).1 is ExcludedByRobotsTxt
                <==> !is_allowed(self.robots, self.pages[i].0))
    }

    /// Whatever leads on from a URL that is done with was found.
    pub open spec fn follows_links(self) -> bool {
        forall|from: Seq<char>, to: Seq<char>| #[trigger]
            self.links(from, to) ==> self.seen.contains(to)
    }

    /// Whether every URL that was found has a domain, or none has one.
    pub open spec fn on_domain(self, domain: Option<Seq<char>>) -> bool {
        forall|url: Seq<char>| #[trigger] self.seen.contains(url) ==> url_domain(url) == domain
    }

    /// What holds in every state of a crawl.
    pub open spec fn is_valid(self) -> bool {
        &&& self.is_sorted_out()
        &&& self.respects_robots()
        &&& self.follows_links()
        &&& self.in_flight.len() <= MAX_IN_FLIGHT
    }
}

pub proof fn lemma_contains_push(urls: Seq<Seq<char>>, url: Seq<char>)
    ensures
        forall|other: Seq<char>| #[trigger]
            urls.push(url).contains(other) <==> urls.contains(other) || other == url,
{
    assert forall|other: Seq<char>| #[trigger]
        urls.push(url).contains(other) <==> urls.contains(other) || other == url by {
        if urls.contains(other) {
            let i = urls.index_of(other);
            assert(urls.push(url)[i] == other);
        }
        if other == url {
            assert(urls.push(url)[urls.len() as int] == other);
        }
        if urls.push(url).contains(other) && other != url {
            let i = urls.push(url).index_of(other);
            assert(urls[i] == other);
        }
    }
}

pub proof fn lemma_contains_remove(urls: Seq<Seq<char>>, at: int)
    requires
        0 <= at < urls.len(),
        urls.no_duplicates(),
    ensures
        urls.remove(at).no_duplicates(),
        forall|other: Seq<char>| #[trigger]
            urls.remove(at).contains(other) <==> urls.contains(other) && other != urls[at],
{
    assert forall|other: Seq<char>| #[trigger]
        urls.remove(at).contains(other) <==> urls.contains(other) && other != urls[at] by {
        if urls.contains(other) && other != urls[at] {
            let i = urls.index_of(other);
            if i < at {
                assert(urls.remove(at)[i] == other);
            } else {
                assert(urls.remove(at)[i - 1] == other);
            }
        }
        if urls.remove(at).contains(other) {
            let i = urls.remove(at).index_of(other);
            if i < at {
                assert(urls[i] == other);
            } else {
                assert(urls[i + 1] == other);
            }
        }
    }
}

proof fn lemma_has_page_push(
    pages: Seq<(Seq<char>, PageResultView)>,
    url: Seq<char>,
    result: PageResultView,
)
    ensures
        forall|other: Seq<char>| #[trigger]
            has_page(pages.push((url, result)), other) <==> has_page(pages, other) || other == url,
{
    let pushed = pages.push((url, result));
    assert forall|other: Seq<char>| #[trigger]
        has_page(pushed, other) <==> has_page(pages, other) || other == url by {
        if has_page(pages, other) {
            let i = choose|i: int| 0 <= i < pages.len() && (#[trigger] pages[i]).0 == other;
            assert(pushed[i].0 == other);
        }
        if other == url {
            assert(pushed[pages.len() as int].0 == other);
        }
        if has_page(pushed, other) && other != url {
            let i = choose|i: int| 0 <= i < pushed.len() && (#[trigger] pushed[i]).0 == other;
            assert(pages[i].0 == other);
        }
    }
}

/// Only URLs that were found are done with, also once a URL is found.
pub proof fn lemma_add_link_well_formed(crawl: CrawlView, url: Seq<char>)
    requires
        crawl.records_what_was_seen(),
    ensures
        crawl.add_link(url).records_what_was_seen(),
        crawl.add_link(url).robots == crawl.robots,
        forall|other: Seq<char>| #[trigger]
            crawl.seen.contains(other) ==> crawl.add_link(url).seen.contains(other),
{
    lemma_contains_push(crawl.seen, url);
    lemma_has_page_push(crawl.pages, url, PageResultView::ExcludedByRobotsTxt);
    if !crawl.seen.contains(url) {
        assert(!has_page(crawl.pages, url));
        assert(distinct_pages(crawl.add_link(url).pages));
    }
}

/// Only URLs that were found are done with, also once URLs are found.
pub proof fn lemma_add_links_well_formed(crawl: CrawlView, urls: Seq<Seq<char>>)
    requires
        crawl.records_what_was_seen(),
    ensures
        crawl.add_links(urls).records_what_was_seen(),
        crawl.add_links(urls).robots == crawl.robots,
        forall|other: Seq<char>| #[trigger]
            crawl.seen.contains(other) ==> crawl.add_links(urls).seen.contains(other),
    decreases urls.len(),
{
    if urls.len() > 0 {
        lemma_add_links_well_formed(crawl, urls.drop_last());
        lemma_add_link_well_formed(crawl.add_links(urls.drop_last()), urls.last());
    }
}

/// What has a page once what came of a URL is put among the pages.
pub proof fn lemma_has_page_with(
    pages: Seq<(Seq<char>, PageResultView)>,
    url: Seq<char>,
    result: PageResultView,
)
    requires
        distinct_pages(pages),
    ensures
        distinct_pages(with_page(pages, url, result)),
        forall|other: Seq<char>| #[trigger]
            has_page(with_page(pages, url, result), other) <==> has_page(pages, other) || other
                == url,
        with_page(pages, url, result).contains((url, result)),
{
    let next = with_page(pages, url, result);
    lemma_has_page_push(pages, url, result);
    if has_page(pages, url) {
        assert forall|i: int, j: int| 0 <= i < j < next.len() implies (#[trigger] next[i]).0 != (
        #[trigger] next[j]).0 by {
            assert(pages[i].0 != pages[j].0);
        }
        assert forall|other: Seq<char>| #[trigger]
            has_page(next, other) <==> has_page(pages, other) || other == url by {
            if has_page(pages, other) {
                let i = choose|i: int| 0 <= i < pages.len() && (#[trigger] pages[i]).0 == other;
                assert(next[i].0 == other);
            }
            if has_page(next, other) {
                let i = choose|i: int| 0 <= i < next.len() && (#[trigger] next[i]).0 == other;
                assert(pages[i].0 == other);
            }
        }
        let i = choose|i: int| 0 <= i < pages.len() && (#[trigger] pages[i]).0 == url;
        assert(next[i] == (url, result));
    } else {
        assert(next[pages.len() as int] == (url, result));
    }
}

/// Only URLs that were found are done with, also once what came of one is recorded.
pub proof fn lemma_with_page_well_formed(crawl: CrawlView, url: Seq<char>, result: PageResultView)
    requires
        crawl.records_what_was_seen(),
        crawl.seen.contains(url),
    ensures
        (CrawlView {
            in_flight: without(crawl.in_flight, url),
            pages: with_page(crawl.pages, url, result),
            ..crawl
        }).records_what_was_seen(),
{
    lemma_has_page_with(crawl.pages, url, result);
}

/// What holds in every state of a crawl still holds once a URL is found.
pub proof fn lemma_add_link_valid(crawl: CrawlView, url: Seq<char>)
    requires
        crawl.is_valid(),
    ensures
        crawl.add_link(url).is_valid(),
        crawl.add_link(url).seen.contains(url),
        crawl.add_link(url).in_flight == crawl.in_flight,
        crawl.add_link(url).robots == crawl.robots,
        forall|other: Seq<char>| #[trigger]
            crawl.seen.contains(other) ==> crawl.add_link(url).seen.contains(other),
{
    let next = crawl.add_link(url);
    lemma_contains_push(crawl.seen, url);
    lemma_contains_push(crawl.todo, url);
    lemma_has_page_push(crawl.pages, url, PageResultView::ExcludedByRobotsTxt);
    if !crawl.seen.contains(url) {
        assert(!has_page(crawl.pages, url));
        assert(!crawl.todo.contains(url));
        assert(!crawl.in_flight.contains(url));
        assert(next.seen.no_duplicates());
        assert(next.todo.no_duplicates());
        assert(distinct_pages(next.pages));
        assert forall|from: Seq<char>, to: Seq<char>| #[trigger]
            next.links(from, to) implies next.seen.contains(to) by {
            let i = choose|i: int|
                0 <= i < next.pages.len() && (#[trigger] next.pages[i]).0 == from && leads_to(
                    next.pages[i].0,
                    next.pages[i].1,
                    to,
                );
            assert(crawl.pages[i].0 == from);
            assert(crawl.links(from, to));
        }
        assert(next.is_sorted_out());
        assert(next.respects_robots());
    }
}

/// What holds in every state of a crawl still holds once URLs are found.
pub proof fn lemma_add_links_valid(crawl: CrawlView, urls: Seq<Seq<char>>)
    requires
        crawl.is_valid(),
    ensures
        crawl.add_links(urls).is_valid(),
        crawl.add_links(urls).in_flight == crawl.in_flight,
        crawl.add_links(urls).robots == crawl.robots,
        forall|url: Seq<char>| #[trigger]
            urls.contains(url) ==> crawl.add_links(urls).seen.contains(url),
        forall|other: Seq<char>| #[trigger]
            crawl.seen.contains(other) ==> crawl.add_links(urls).seen.contains(other),
    decreases urls.len(),
{
    if urls.len() > 0 {
        let rest = urls.drop_last();
        lemma_add_links_valid(crawl, rest);
        lemma_add_link_valid(crawl.add_links(rest), urls.last());
        assert(urls =~= rest.push(urls.last()));
        lemma_contains_push(rest, urls.last());
    }
}

/// A crawl that finds URLs of its domain stays on it.
pub proof fn lemma_add_links_on_domain(
    crawl: CrawlView,
    urls: Seq<Seq<char>>,
    domain: Option<Seq<char>>,
)
    requires
        crawl.on_domain(domain),
        forall|i: int| 0 <= i < urls.len() ==> url_domain(#[trigger] urls[i]) == domain,
    ensures
        crawl.add_links(urls).on_domain(domain),
    decreases urls.len(),
{
    if urls.len() > 0 {
        let rest = urls.drop_last();
        assert forall|i: int| 0 <= i < rest.len() implies url_domain(#[trigger] rest[i])
            == domain by {
            assert(rest[i] == urls[i]);
        }
        lemma_add_links_on_domain(crawl, rest, domain);
        lemma_contains_push(crawl.add_links(rest).seen, urls.last());
        assert(url_domain(urls[urls.len() - 1]) == domain);
    }
}

/// An empty crawl, and one that starts at a URL, are valid.
pub proof fn lemma_begin_valid(seed: Seq<char>, robots: Option<Seq<char>>)
    ensures
        CrawlView::empty(robots).is_valid(),
        CrawlView::begin(seed, robots).is_valid(),
        CrawlView::begin(seed, robots).seen == seq![seed],
        CrawlView::begin(seed, robots).on_domain(url_domain(seed)),
{
    let empty = CrawlView::empty(robots);
    assert(empty.is_valid());
    lemma_add_link_valid(empty, seed);
    assert(empty.seen.push(seed) =~= seq![seed]);
}

/// What holds in every state of a crawl still holds once the fetching of a URL has
/// begun.
pub proof fn lemma_fetch_valid(crawl: CrawlView)
    requires
        crawl.is_valid(),
        crawl.can_fetch(),
    ensures
        crawl.fetch().is_valid(),
{
    let next = crawl.fetch();
    let url = crawl.todo[0];
    assert(crawl.todo.contains(url));
    assert(crawl.todo.drop_first() =~= crawl.todo.remove(0));
    lemma_contains_remove(crawl.todo, 0);
    lemma_contains_push(crawl.in_flight, url);
    assert(next.in_flight.no_duplicates());
    assert forall|from: Seq<char>, to: Seq<char>| #[trigger]
        next.links(from, to) implies next.seen.contains(to) by {
        assert(crawl.links(from, to));
    }
}

proof fn lemma_without(urls: Seq<Seq<char>>, url: Seq<char>)
    requires
        urls.no_duplicates(),
        urls.contains(url),
    ensures
        without(urls, url).no_duplicates(),
        without(urls, url).len() == urls.len() - 1,
        forall|other: Seq<char>| #[trigger]
            without(urls, url).contains(other) <==> urls.contains(other) && other != url,
{
    urls.index_of_first_ensures(url);
    lemma_contains_remove(urls, urls.index_of_first(url)->0);
}

/// When the fetching of a URL has ended, it is no longer in flight, and what came of it
/// is the last record.
pub proof fn lemma_record_moves(crawl: CrawlView, url: Seq<char>, result: PageResultView)
    requires
        crawl.is_valid(),
        crawl.can_record(url, result),
    ensures
        ({
            let found = crawl.add_links(leads_on(url, result));
            let next = crawl.record(url, result);
            &&& !has_page(found.pages, url)
            &&& next.pages == found.pages.push((url, result))
            &&& next.seen == found.seen
            &&& next.todo == found.todo
            &&& next.in_flight.no_duplicates()
            &&& next.in_flight.len() == crawl.in_flight.len() - 1
            &&& forall|other: Seq<char>| #[trigger]
                next.in_flight.contains(other) <==> crawl.in_flight.contains(other) && other != url
        }),
{
    lemma_add_links_valid(crawl, leads_on(url, result));
    lemma_without(crawl.in_flight, url);
}

/// What holds in every state of a crawl still holds once the fetching of a URL has
/// ended.
pub proof fn lemma_record_valid(crawl: CrawlView, url: Seq<char>, result: PageResultView)
    requires
        crawl.is_valid(),
        crawl.can_record(url, result),
    ensures
        crawl.record(url, result).is_valid(),
{
    let urls = leads_on(url, result);
    lemma_add_links_valid(crawl, urls);
    let found = crawl.add_links(urls);
    let next = crawl.record(url, result);
    lemma_record_moves(crawl, url, result);
    lemma_has_page_push(found.pages, url, result);
    assert(distinct_pages(next.pages));
    assert forall|from: Seq<char>, to: Seq<char>| #[trigger]
        next.links(from, to) implies next.seen.contains(to) by {
        let i = choose|i: int|
            0 <= i < next.pages.len() && (#[trigger] next.pages[i]).0 == from && leads_to(
                    next.pages[i].0,
                    next.pages[i].1,
                    to,
                );
        if i < found.pages.len() {
            assert(found.pages[i].0 == from);
            assert(found.links(from, to));
        } else {
            lemma_leads_to(url, result, to);
        }
    }
}

} // verus!
