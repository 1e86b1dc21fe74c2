//! What holds of every crawl, from its start to its end and in whatever order the
//! responses come in.
use vstd::prelude::*;

use crate::crawl_model::{
    CrawlView, MAX_IN_FLIGHT, PageResultView, distinct_pages, has_page, is_sound, leads_on,
    leads_to, lemma_add_links_valid, lemma_add_links_well_formed, lemma_begin_valid,
    lemma_contains_push, lemma_fetch_valid, lemma_has_page_with, lemma_leads_to,
    lemma_record_moves, lemma_record_valid, lemma_with_page_well_formed, with_page,
};
use crate::crawler::{digested, same_pages, status_of};
use crate::html::html_tokenized;
use crate::http_client::HttpResponseView;
use crate::link_extractor::{
    IncompletePage, PageInfoView, is_internal, law_links_are_sorted, token_links,
};
use crate::robots::is_allowed;
use crate::urls::url_defragmented;

verus! {

/// Something that happens in a crawl.
pub enum CrawlEvent {
    /// The fetching of the first waiting URL begins.
    Fetch,
    /// The fetching of a URL ends, with a response or the message of what went wrong.
    Respond(Seq<char>, Result<HttpResponseView, Seq<char>>),
}

impl CrawlEvent {
    /// Whether this can happen in a crawl.
    pub open spec fn can_happen(self, crawl: CrawlView) -> bool {
        match self {
            CrawlEvent::Fetch => crawl.can_fetch(),
            CrawlEvent::Respond(url, response) => {
                &&& crawl.in_flight.contains(url)
                &&& digested(url, response) is Ok
            },
        }
    }

    /// The crawl once this has happened.
    pub open spec fn after(self, crawl: CrawlView) -> CrawlView {
        match self {
            CrawlEvent::Fetch => crawl.fetch(),
            CrawlEvent::Respond(url, response) => match digested(url, response) {
                Ok(result) => crawl.record(url, result),
                Err(_) => crawl,
            },
        }
    }
}

/// The crawl that started at a URL, once events have happened in order.
pub open spec fn crawl_after(
    seed: Seq<char>,
    robots: Option<Seq<char>>,
    events: Seq<CrawlEvent>,
) -> CrawlView
    decreases events.len(),
{
    if events.len() == 0 {
        CrawlView::begin(seed, robots)
    } else {
        events.last().after(crawl_after(seed, robots, events.drop_last()))
    }
}

/// Whether events can happen, in order, in a crawl that starts at a URL.
pub open spec fn is_history(
    seed: Seq<char>,
    robots: Option<Seq<char>>,
    events: Seq<CrawlEvent>,
) -> bool
    decreases events.len(),
{
    events.len() > 0 ==> {
        &&& is_history(seed, robots, events.drop_last())
        &&& events.last().can_happen(crawl_after(seed, robots, events.drop_last()))
    }
}

/// The URLs whose fetching began, in order.
pub open spec fn fetched(
    seed: Seq<char>,
    robots: Option<Seq<char>>,
    events: Seq<CrawlEvent>,
) -> Seq<Seq<char>>
    decreases events.len(),
{
    if events.len() == 0 {
        Seq::empty()
    } else {
        let before = fetched(seed, robots, events.drop_last());
        match events.last() {
            CrawlEvent::Fetch => before.push(crawl_after(seed, robots, events.drop_last()).todo[0]),
            CrawlEvent::Respond(_, _) => before,
        }
    }
}

/// What came of a URL can be recorded, whatever the response was.
proof fn lemma_digested_is_sound(url: Seq<char>, response: Result<HttpResponseView, Seq<char>>)
    requires
        digested(url, response) is Ok,
    ensures
        is_sound(url, digested(url, response)->Ok_0),
        !(digested(url, response)->Ok_0 is ExcludedByRobotsTxt),
{
    if let Ok(HttpResponseView::Html(body)) = response {
        law_links_are_sorted(url, token_links(url, html_tokenized(body).2));
    }
}

proof fn lemma_event_keeps_valid(crawl: CrawlView, event: CrawlEvent)
    requires
        crawl.is_valid(),
        event.can_happen(crawl),
    ensures
        event.after(crawl).is_valid(),
        event.after(crawl).robots == crawl.robots,
        forall|url: Seq<char>| #[trigger]
            crawl.seen.contains(url) ==> event.after(crawl).seen.contains(url),
{
    match event {
        CrawlEvent::Fetch => {
            lemma_fetch_valid(crawl);
        },
        CrawlEvent::Respond(url, response) => {
            let result = digested(url, response)->Ok_0;
            lemma_digested_is_sound(url, response);
            lemma_record_valid(crawl, url, result);
            lemma_add_links_valid(crawl, leads_on(url, result));
        },
    }
}

/// Every state of a crawl is valid: each URL that was found waits, is being
/// fetched or is done with; the robots.txt is respected; what leads on is found;
/// and not too many URLs are fetched at the same time.
pub proof fn law_every_state_is_valid(
    seed: Seq<char>,
    robots: Option<Seq<char>>,
    events: Seq<CrawlEvent>,
)
    requires
        is_history(seed, robots, events),
    ensures
        crawl_after(seed, robots, events).is_valid(),
        crawl_after(seed, robots, events).robots == robots,
        crawl_after(seed, robots, events).seen.contains(seed),
        crawl_after(seed, robots, events).in_flight.len() <= MAX_IN_FLIGHT,
    decreases events.len(),
{
    if events.len() == 0 {
        lemma_begin_valid(seed, robots);
        assert(seq![seed][0] == seed);
    } else {
        law_every_state_is_valid(seed, robots, events.drop_last());
        lemma_event_keeps_valid(crawl_after(seed, robots, events.drop_last()), events.last());
    }
}

/// A crawl that begins has a history without events, and each event that can happen
/// goes on with it: the fetching of the next URL begins, or what came of one is recorded.
pub proof fn law_history_goes_on(
    seed: Seq<char>,
    robots: Option<Seq<char>>,
    events: Seq<CrawlEvent>,
    event: CrawlEvent,
)
    requires
        is_history(seed, robots, events),
        event.can_happen(crawl_after(seed, robots, events)),
    ensures
        is_history(seed, robots, Seq::empty()),
        crawl_after(seed, robots, Seq::empty()) == CrawlView::begin(seed, robots),
        is_history(seed, robots, events.push(event)),
        crawl_after(seed, robots, events.push(event)) == event.after(
            crawl_after(seed, robots, events),
        ),
{
    assert(events.push(event).drop_last() =~= events);
}

/// Whether a crawl is in a state that a crawl that starts at a URL gets into.
pub open spec fn has_history(seed: Seq<char>, crawl: CrawlView) -> bool {
    exists|events: Seq<CrawlEvent>| #[trigger]
        is_history(seed, crawl.robots, events) && crawl == crawl_after(seed, crawl.robots, events)
}

/// Whether something can come of a URL, by some response to the request for it.
pub open spec fn is_digested(url: Seq<char>, result: PageResultView) -> bool {
    exists|response: Result<HttpResponseView, Seq<char>>| #[trigger]
        digested(url, response) == Ok::<PageResultView, IncompletePage>(result)
}

/// Beginning a crawl, beginning to fetch the next URL, and recording what came of one
/// that is being fetched lead from states that crawls get into to such states.
pub proof fn law_crawls_keep_to_histories(
    seed: Seq<char>,
    crawl: CrawlView,
    url: Seq<char>,
    result: PageResultView,
)
    requires
        has_history(seed, crawl),
    ensures
        has_history(seed, CrawlView::begin(seed, crawl.robots)),
        crawl.can_fetch() ==> has_history(seed, crawl.fetch()),
        crawl.in_flight.contains(url) && is_digested(url, result) ==> has_history(
            seed,
            crawl.record(url, result),
        ) && crawl.can_record(url, result),
{
    let robots = crawl.robots;
    let events = choose|events: Seq<CrawlEvent>| #[trigger]
        is_history(seed, robots, events) && crawl == crawl_after(seed, robots, events);
    lemma_begin_has_history(seed, robots);
    law_every_state_is_valid(seed, robots, events);
    if crawl.can_fetch() {
        law_history_goes_on(seed, robots, events, CrawlEvent::Fetch);
    }
    if crawl.in_flight.contains(url) && is_digested(url, result) {
        let response = choose|response: Result<HttpResponseView, Seq<char>>| #[trigger]
            digested(url, response) == Ok::<PageResultView, IncompletePage>(result);
        law_history_goes_on(seed, robots, events, CrawlEvent::Respond(url, response));
        lemma_digested_is_sound(url, response);
        lemma_add_links_valid(crawl, leads_on(url, result));
    }
}

/// A crawl that begins is in a state that crawls get into.
pub proof fn lemma_begin_has_history(seed: Seq<char>, robots: Option<Seq<char>>)
    ensures
        has_history(seed, CrawlView::begin(seed, robots)),
{
    let events = Seq::<CrawlEvent>::empty();
    assert(is_history(seed, robots, events));
    assert(crawl_after(seed, robots, events) == CrawlView::begin(seed, robots));
}

proof fn lemma_pages_grow(crawl: CrawlView, urls: Seq<Seq<char>>)
    ensures
        crawl.pages.is_prefix_of(crawl.add_links(urls).pages),
        crawl.seen.is_prefix_of(crawl.add_links(urls).seen),
        crawl.todo.is_prefix_of(crawl.add_links(urls).todo),
    decreases urls.len(),
{
    if urls.len() > 0 {
        lemma_pages_grow(crawl, urls.drop_last());
    }
}

proof fn lemma_event_keeps_pages(crawl: CrawlView, event: CrawlEvent)
    requires
        crawl.is_valid(),
        event.can_happen(crawl),
    ensures
        crawl.pages.is_prefix_of(event.after(crawl).pages),
        crawl.seen.is_prefix_of(event.after(crawl).seen),
        event matches CrawlEvent::Respond(url, response) ==> event.after(crawl).pages
            == crawl.add_links(leads_on(url, digested(url, response)->Ok_0)).pages.push(
            (url, digested(url, response)->Ok_0),
        ),
{
    if let CrawlEvent::Respond(url, response) = event {
        let result = digested(url, response)->Ok_0;
        lemma_digested_is_sound(url, response);
        lemma_record_moves(crawl, url, result);
        lemma_pages_grow(crawl, leads_on(url, result));
    }
}

/// What was recorded of a URL never changes, and what was found is never
/// forgotten.
pub proof fn law_records_never_change(
    seed: Seq<char>,
    robots: Option<Seq<char>>,
    events: Seq<CrawlEvent>,
    until: int,
)
    requires
        is_history(seed, robots, events),
        0 <= until <= events.len(),
    ensures
        crawl_after(seed, robots, events.take(until)).pages.is_prefix_of(
            crawl_after(seed, robots, events).pages,
        ),
        crawl_after(seed, robots, events.take(until)).seen.is_prefix_of(
            crawl_after(seed, robots, events).seen,
        ),
    decreases events.len(),
{
    if until == events.len() {
        assert(events.take(until) =~= events);
    } else {
        let before = events.drop_last();
        law_records_never_change(seed, robots, before, until);
        assert(before.take(until) =~= events.take(until));
        law_every_state_is_valid(seed, robots, before);
        lemma_event_keeps_pages(crawl_after(seed, robots, before), events.last());
    }
}

/// No URL is fetched twice, and only URLs that the robots.txt allows are fetched.
/// Of every URL that was fetched something is recorded, or it is being fetched
/// still; and every URL that is done with was fetched or is excluded.
pub proof fn law_nothing_is_fetched_twice(
    seed: Seq<char>,
    robots: Option<Seq<char>>,
    events: Seq<CrawlEvent>,
)
    requires
        is_history(seed, robots, events),
    ensures
        fetched(seed, robots, events).no_duplicates(),
        forall|i: int|
            0 <= i < fetched(seed, robots, events).len() ==> is_allowed(
                robots,
                #[trigger] fetched(seed, robots, events)[i],
            ),
        forall|url: Seq<char>| #[trigger]
            fetched(seed, robots, events).contains(url) ==> crawl_after(
                seed,
                robots,
                events,
            ).in_flight.contains(url) || has_page(crawl_after(seed, robots, events).pages, url),
        forall|url: Seq<char>| #[trigger]
            crawl_after(seed, robots, events).in_flight.contains(url) ==> fetched(
                seed,
                robots,
                events,
            ).contains(url),
        forall|i: int|
            0 <= i < crawl_after(seed, robots, events).pages.len() ==> (#[trigger] crawl_after(
                seed,
                robots,
                events,
            ).pages[i]).1 is ExcludedByRobotsTxt || fetched(seed, robots, events).contains(
                crawl_after(seed, robots, events).pages[i].0,
            ),
    decreases events.len(),
{
    let crawl = crawl_after(seed, robots, events);
    let urls = fetched(seed, robots, events);
    law_every_state_is_valid(seed, robots, events);
    if events.len() > 0 {
        let earlier = events.drop_last();
        let before = crawl_after(seed, robots, earlier);
        let urls_before = fetched(seed, robots, earlier);
        law_nothing_is_fetched_twice(seed, robots, earlier);
        law_every_state_is_valid(seed, robots, earlier);
        match events.last() {
            CrawlEvent::Fetch => {
                let url = before.todo[0];
                assert(before.todo.contains(url));
                assert(!urls_before.contains(url));
                lemma_contains_push(urls_before, url);
                lemma_contains_push(before.in_flight, url);
                assert(urls.no_duplicates());
                assert forall|i: int| 0 <= i < urls.len() implies is_allowed(
                    robots,
                    #[trigger] urls[i],
                ) by {
                    if i < urls_before.len() {
                        assert(urls_before[i] == urls[i]);
                    }
                }
                assert forall|i: int| 0 <= i < crawl.pages.len() implies (
                #[trigger] crawl.pages[i]).1 is ExcludedByRobotsTxt || urls.contains(
                    crawl.pages[i].0,
                ) by {
                    assert(before.pages[i] == crawl.pages[i]);
                }
            },
            CrawlEvent::Respond(url, response) => {
                let result = digested(url, response)->Ok_0;
                lemma_digested_is_sound(url, response);
                lemma_record_moves(before, url, result);
                lemma_event_keeps_pages(before, events.last());
                lemma_add_links_valid(before, leads_on(url, result));
                let found = before.add_links(leads_on(url, result));
                assert forall|other: Seq<char>| #[trigger] urls.contains(other) implies
                    crawl.in_flight.contains(other) || has_page(crawl.pages, other) by {
                    if has_page(before.pages, other) {
                        let i = choose|i: int|
                            0 <= i < before.pages.len() && (#[trigger] before.pages[i]).0 == other;
                        assert(crawl.pages[i].0 == other);
                    }
                }
                assert forall|i: int| 0 <= i < crawl.pages.len() implies (
                #[trigger] crawl.pages[i]).1 is ExcludedByRobotsTxt || urls.contains(
                    crawl.pages[i].0,
                ) by {
                    if i < before.pages.len() {
                        assert(before.pages[i] == crawl.pages[i]);
                    } else if i < found.pages.len() {
                        lemma_new_pages_are_excluded(before, leads_on(url, result), i);
                        assert(found.pages[i] == crawl.pages[i]);
                    } else {
                        assert(before.in_flight.contains(url));
                    }
                }
            },
        }
    }
}

/// The pages that finding URLs adds are of URLs that were not seen before, and that
/// the robots.txt excludes.
proof fn lemma_new_pages_are_excluded(crawl: CrawlView, urls: Seq<Seq<char>>, at: int)
    requires
        crawl.pages.len() <= at < crawl.add_links(urls).pages.len(),
    ensures
        crawl.add_links(urls).pages[at].1 is ExcludedByRobotsTxt,
        !crawl.seen.contains(crawl.add_links(urls).pages[at].0),
    decreases urls.len(),
{
    if urls.len() > 0 {
        let found = crawl.add_links(urls.drop_last());
        if at < found.pages.len() {
            lemma_new_pages_are_excluded(crawl, urls.drop_last(), at);
        } else {
            lemma_pages_grow(crawl, urls.drop_last());
            if crawl.seen.contains(urls.last()) {
                assert(found.seen[crawl.seen.index_of(urls.last())] == urls.last());
            }
        }
    }
}

/// Recording what came of a URL that was seen gives it that record, and adds records of
/// URLs that were not seen before and that the robots.txt excludes, and no others. What
/// was recorded of other URLs keeps its value, what was seen stays seen, and everything
/// of which something is recorded was seen.
pub proof fn law_one_step_only_adds(crawl: CrawlView, url: Seq<char>, result: PageResultView)
    requires
        crawl.records_what_was_seen(),
        crawl.seen.contains(url),
    ensures
        crawl.record(url, result).records_what_was_seen(),
        crawl.record(url, result).pages.contains((url, result)),
        forall|page: (Seq<char>, PageResultView)| #[trigger]
            crawl.pages.contains(page) && page.0 != url ==> crawl.record(
                url,
                result,
            ).pages.contains(page),
        forall|page: (Seq<char>, PageResultView)| #[trigger]
            crawl.record(url, result).pages.contains(page) && !crawl.pages.contains(page)
                && page.0 != url ==> !crawl.seen.contains(page.0)
                && page.1 is ExcludedByRobotsTxt,
        crawl.seen.is_prefix_of(crawl.record(url, result).seen),
        forall|other: Seq<char>| #[trigger]
            crawl.seen.contains(other) ==> crawl.record(url, result).seen.contains(other),
{
    let urls = leads_on(url, result);
    let found = crawl.add_links(urls);
    let next = crawl.record(url, result);
    lemma_add_links_well_formed(crawl, urls);
    lemma_with_page_well_formed(found, url, result);
    lemma_has_page_with(found.pages, url, result);
    lemma_pages_grow(crawl, urls);
    assert forall|page: (Seq<char>, PageResultView)| #[trigger]
        crawl.pages.contains(page) && page.0 != url implies next.pages.contains(page) by {
        let i = crawl.pages.index_of(page);
        assert(found.pages[i] == page);
        assert(next.pages[i] == page);
    }
    assert forall|page: (Seq<char>, PageResultView)| #[trigger]
        next.pages.contains(page) && !crawl.pages.contains(page) && page.0
            != url implies !crawl.seen.contains(page.0) && page.1 is ExcludedByRobotsTxt by {
        let i = next.pages.index_of(page);
        assert(found.pages[i] == page);
        if i < crawl.pages.len() {
            assert(crawl.pages[i] == page);
        } else {
            lemma_new_pages_are_excluded(crawl, urls, i);
        }
    }
}

/// A crawl is done exactly when nothing waits and nothing is being fetched; one
/// that is not done has a URL to fetch or one being fetched, so it never stalls.
pub proof fn law_a_crawl_never_stalls(crawl: CrawlView)
    requires
        crawl.is_valid(),
    ensures
        crawl.is_done() <==> crawl.todo.len() == 0 && crawl.in_flight.len() == 0,
        !crawl.is_done() ==> crawl.can_fetch() || crawl.in_flight.len() > 0,
{
}

/// What the progress of a crawl counts: the URLs that are done with, and those that
/// wait or are being fetched; together, all that were found.
pub proof fn law_status_counts_what_was_found(seed: Seq<char>, crawl: CrawlView)
    requires
        crawl.is_valid(),
    ensures
        status_of(seed, crawl).seed == seed,
        status_of(seed, crawl).done == crawl.pages.len(),
        status_of(seed, crawl).todo == crawl.todo.len() + crawl.in_flight.len(),
        status_of(seed, crawl).done + status_of(seed, crawl).todo == crawl.seen.len(),
        crawl.is_done() <==> status_of(seed, crawl).todo == 0,
{
}

/// A URL that is done with counts as excluded exactly where the robots.txt does not
/// allow it.
pub proof fn law_exactly_what_is_disallowed_is_excluded(crawl: CrawlView, at: int)
    requires
        crawl.is_valid(),
        0 <= at < crawl.pages.len(),
    ensures
        crawl.pages[at].1 is ExcludedByRobotsTxt <==> !is_allowed(
            crawl.robots,
            crawl.pages[at].0,
        ),
{
}

/// Finding a URL again changes nothing.
pub proof fn law_finding_again_changes_nothing(crawl: CrawlView, url: Seq<char>)
    ensures
        crawl.add_link(url).add_link(url) == crawl.add_link(url),
{
    lemma_contains_push(crawl.seen, url);
}

/// A URL that leads only to what was found before adds nothing to fetch.
pub proof fn law_known_links_add_nothing(crawl: CrawlView, url: Seq<char>, result: PageResultView)
    requires
        forall|i: int|
            0 <= i < leads_on(url, result).len() ==> crawl.seen.contains(
                #[trigger] leads_on(url, result)[i],
            ),
    ensures
        crawl.record(url, result).seen == crawl.seen,
        crawl.record(url, result).todo == crawl.todo,
        crawl.record(url, result).pages == with_page(crawl.pages, url, result),
{
    lemma_add_known_links(crawl, leads_on(url, result));
}

proof fn lemma_add_known_links(crawl: CrawlView, urls: Seq<Seq<char>>)
    requires
        forall|i: int| 0 <= i < urls.len() ==> crawl.seen.contains(#[trigger] urls[i]),
    ensures
        crawl.add_links(urls) == crawl,
    decreases urls.len(),
{
    if urls.len() > 0 {
        let rest = urls.drop_last();
        assert forall|i: int| 0 <= i < rest.len() implies crawl.seen.contains(
            #[trigger] rest[i],
        ) by {
            assert(rest[i] == urls[i]);
        }
        lemma_add_known_links(crawl, rest);
        assert(crawl.seen.contains(urls[urls.len() - 1]));
    }
}

/// A page whose internal links are to places on itself adds nothing to fetch: they
/// are all that page once their fragments are taken away.
pub proof fn law_fragments_are_not_visited_separately(
    crawl: CrawlView,
    url: Seq<char>,
    info: PageInfoView,
)
    requires
        crawl.seen.contains(url),
        forall|i: int|
            0 <= i < info.internal_links.len() ==> url_defragmented(
                #[trigger] info.internal_links[i],
            ) == url,
    ensures
        crawl.record(url, PageResultView::Crawled(info)).seen == crawl.seen,
        crawl.record(url, PageResultView::Crawled(info)).todo == crawl.todo,
        crawl.record(url, PageResultView::Crawled(info)).pages == with_page(
            crawl.pages,
            url,
            PageResultView::Crawled(info),
        ),
{
    let result = PageResultView::Crawled(info);
    assert forall|i: int| 0 <= i < leads_on(url, result).len() implies crawl.seen.contains(
        #[trigger] leads_on(url, result)[i],
    ) by {
        assert(leads_on(url, result)[i] == url_defragmented(info.internal_links[i]));
    }
    law_known_links_add_nothing(crawl, url, result);
}

/// A redirection that leaves the domain is recorded and not followed.
pub proof fn law_external_redirects_are_not_followed(
    crawl: CrawlView,
    url: Seq<char>,
    code: u16,
    target: Seq<char>,
)
    requires
        !is_internal(url, target),
    ensures
        crawl.record(url, PageResultView::Redirect(code, target)).seen == crawl.seen,
        crawl.record(url, PageResultView::Redirect(code, target)).todo == crawl.todo,
        crawl.record(url, PageResultView::Redirect(code, target)).pages == with_page(
            crawl.pages,
            url,
            PageResultView::Redirect(code, target),
        ),
{
    law_known_links_add_nothing(crawl, url, PageResultView::Redirect(code, target));
}

/// Whether each URL of a path leads to the next, by what a crawl has recorded.
pub open spec fn is_path(crawl: CrawlView, path: Seq<Seq<char>>) -> bool
    decreases path.len(),
{
    &&& path.len() > 0
    &&& path.len() > 1 ==> {
        &&& is_path(crawl, path.drop_last())
        &&& crawl.links(path.drop_last().last(), path.last())
    }
}

/// Whether a path leads from one URL to another, by what a crawl has recorded.
pub open spec fn is_reachable(crawl: CrawlView, from: Seq<char>, to: Seq<char>) -> bool {
    exists|path: Seq<Seq<char>>| #[trigger]
        is_path(crawl, path) && path[0] == from && path.last() == to
}

proof fn lemma_links_grow(crawl: CrawlView, next: CrawlView, from: Seq<char>, to: Seq<char>)
    requires
        crawl.pages.is_prefix_of(next.pages),
        crawl.links(from, to),
    ensures
        next.links(from, to),
{
    let i = choose|i: int|
        0 <= i < crawl.pages.len() && (#[trigger] crawl.pages[i]).0 == from && leads_to(
            crawl.pages[i].0,
            crawl.pages[i].1,
            to,
        );
    assert(next.pages[i] == crawl.pages[i]);
}

proof fn lemma_path_grows(crawl: CrawlView, next: CrawlView, path: Seq<Seq<char>>)
    requires
        crawl.pages.is_prefix_of(next.pages),
        is_path(crawl, path),
    ensures
        is_path(next, path),
    decreases path.len(),
{
    if path.len() > 1 {
        lemma_path_grows(crawl, next, path.drop_last());
        lemma_links_grow(crawl, next, path.drop_last().last(), path.last());
    }
}

proof fn lemma_reachable_grows(
    crawl: CrawlView,
    next: CrawlView,
    from: Seq<char>,
    to: Seq<char>,
)
    requires
        crawl.pages.is_prefix_of(next.pages),
        is_reachable(crawl, from, to),
    ensures
        is_reachable(next, from, to),
{
    let path = choose|path: Seq<Seq<char>>| #[trigger]
        is_path(crawl, path) && path[0] == from && path.last() == to;
    lemma_path_grows(crawl, next, path);
}

proof fn lemma_reachable_step(
    crawl: CrawlView,
    from: Seq<char>,
    through: Seq<char>,
    to: Seq<char>,
)
    requires
        is_reachable(crawl, from, through),
        crawl.links(through, to),
    ensures
        is_reachable(crawl, from, to),
{
    let path = choose|path: Seq<Seq<char>>| #[trigger]
        is_path(crawl, path) && path[0] == from && path.last() == through;
    let longer = path.push(to);
    assert(longer.drop_last() =~= path);
    assert(is_path(crawl, longer));
    assert(longer[0] == from);
}

pub proof fn lemma_seen_from_links(crawl: CrawlView, urls: Seq<Seq<char>>, url: Seq<char>)
    requires
        crawl.add_links(urls).seen.contains(url),
    ensures
        crawl.seen.contains(url) || urls.contains(url),
    decreases urls.len(),
{
    if urls.len() > 0 {
        let rest = urls.drop_last();
        lemma_contains_push(crawl.add_links(rest).seen, urls.last());
        if url == urls.last() {
            assert(urls[urls.len() - 1] == url);
        } else {
            lemma_seen_from_links(crawl, rest, url);
            if rest.contains(url) {
                assert(urls[rest.index_of(url)] == url);
            }
        }
    }
}

/// Every URL that a crawl finds can be reached from the one that it started at.
pub proof fn law_everything_found_is_reachable(
    seed: Seq<char>,
    robots: Option<Seq<char>>,
    events: Seq<CrawlEvent>,
    url: Seq<char>,
)
    requires
        is_history(seed, robots, events),
        crawl_after(seed, robots, events).seen.contains(url),
    ensures
        is_reachable(crawl_after(seed, robots, events), seed, url),
    decreases events.len(),
{
    let crawl = crawl_after(seed, robots, events);
    if events.len() == 0 {
        lemma_begin_valid(seed, robots);
        let path = seq![seed];
        assert(is_path(crawl, path));
        assert(path[0] == seed && path.last() == url);
    } else {
        let earlier = events.drop_last();
        let before = crawl_after(seed, robots, earlier);
        law_every_state_is_valid(seed, robots, earlier);
        lemma_event_keeps_pages(before, events.last());
        if before.seen.contains(url) {
            law_everything_found_is_reachable(seed, robots, earlier, url);
            lemma_reachable_grows(before, crawl, seed, url);
        } else if let CrawlEvent::Respond(from, response) = events.last() {
            let result = digested(from, response)->Ok_0;
            lemma_seen_from_links(before, leads_on(from, result), url);
            lemma_leads_to(from, result, url);
            assert(before.in_flight.contains(from));
            law_everything_found_is_reachable(seed, robots, earlier, from);
            lemma_reachable_grows(before, crawl, seed, from);
            let last = crawl.pages.len() - 1;
            assert(crawl.pages[last] == (from, result));
            assert(crawl.links(from, url));
            lemma_reachable_step(crawl, seed, from, url);
        }
    }
}

proof fn lemma_done_follows_path(crawl: CrawlView, path: Seq<Seq<char>>)
    requires
        crawl.is_valid(),
        crawl.is_done(),
        is_path(crawl, path),
        crawl.seen.contains(path[0]),
    ensures
        has_page(crawl.pages, path.last()),
    decreases path.len(),
{
    assert(crawl.todo.len() == 0 && crawl.in_flight.len() == 0);
    if path.len() > 1 {
        lemma_done_follows_path(crawl, path.drop_last());
        assert(crawl.links(path.drop_last().last(), path.last()));
    }
    assert(crawl.seen.contains(path.last()));
}

/// A crawl that is done has a record of exactly the URLs that can be reached from
/// the one that it started at.
pub proof fn law_done_crawl_has_exactly_what_is_reachable(
    seed: Seq<char>,
    robots: Option<Seq<char>>,
    events: Seq<CrawlEvent>,
    url: Seq<char>,
)
    requires
        is_history(seed, robots, events),
        crawl_after(seed, robots, events).is_done(),
    ensures
        has_page(crawl_after(seed, robots, events).pages, url) <==> is_reachable(
            crawl_after(seed, robots, events),
            seed,
            url,
        ),
{
    let crawl = crawl_after(seed, robots, events);
    law_every_state_is_valid(seed, robots, events);
    if has_page(crawl.pages, url) {
        law_everything_found_is_reachable(seed, robots, events, url);
    }
    if is_reachable(crawl, seed, url) {
        let path = choose|path: Seq<Seq<char>>| #[trigger]
            is_path(crawl, path) && path[0] == seed && path.last() == url;
        lemma_done_follows_path(crawl, path);
    }
}

/// The same of a crawl that is in a state that crawls get into, as every crawl in
/// progress on the server is.
pub proof fn law_done_run_has_exactly_what_is_reachable(
    seed: Seq<char>,
    crawl: CrawlView,
    url: Seq<char>,
)
    requires
        has_history(seed, crawl),
        crawl.is_done(),
    ensures
        has_page(crawl.pages, url) <==> is_reachable(crawl, seed, url),
{
    let events = choose|events: Seq<CrawlEvent>| #[trigger]
        is_history(seed, crawl.robots, events) && crawl == crawl_after(seed, crawl.robots, events);
    law_done_crawl_has_exactly_what_is_reachable(seed, crawl.robots, events, url);
}

/// Whether the responses of a crawl are those that a site gives.
pub open spec fn comes_from(
    events: Seq<CrawlEvent>,
    site: spec_fn(Seq<char>) -> Result<HttpResponseView, Seq<char>>,
) -> bool {
    forall|i: int|
        0 <= i < events.len() ==> ((#[trigger] events[i]) matches CrawlEvent::Respond(url, response)
            ==> response == site(url))
}

/// What comes of a URL of a site.
pub open spec fn site_result(
    robots: Option<Seq<char>>,
    site: spec_fn(Seq<char>) -> Result<HttpResponseView, Seq<char>>,
    url: Seq<char>,
) -> PageResultView {
    if is_allowed(robots, url) {
        digested(url, site(url))->Ok_0
    } else {
        PageResultView::ExcludedByRobotsTxt
    }
}

/// What a crawl records of a URL is what the site makes of it.
pub proof fn law_records_are_what_the_site_says(
    seed: Seq<char>,
    robots: Option<Seq<char>>,
    events: Seq<CrawlEvent>,
    site: spec_fn(Seq<char>) -> Result<HttpResponseView, Seq<char>>,
)
    requires
        is_history(seed, robots, events),
        comes_from(events, site),
    ensures
        forall|i: int|
            0 <= i < crawl_after(seed, robots, events).pages.len() ==> (#[trigger] crawl_after(
                seed,
                robots,
                events,
            ).pages[i]).1 == site_result(
                robots,
                site,
                crawl_after(seed, robots, events).pages[i].0,
            ),
    decreases events.len(),
{
    let crawl = crawl_after(seed, robots, events);
    law_every_state_is_valid(seed, robots, events);
    if events.len() > 0 {
        let earlier = events.drop_last();
        let before = crawl_after(seed, robots, earlier);
        assert(comes_from(earlier, site)) by {
            assert forall|i: int| 0 <= i < earlier.len() implies ((
            #[trigger] earlier[i]) matches CrawlEvent::Respond(url, response) ==> response == site(
                url,
            )) by {
                assert(earlier[i] == events[i]);
            }
        }
        law_every_state_is_valid(seed, robots, earlier);
        law_records_are_what_the_site_says(seed, robots, earlier, site);
        lemma_event_keeps_pages(before, events.last());
        assert(events[events.len() - 1] == events.last());
        assert forall|i: int| 0 <= i < crawl.pages.len() implies (#[trigger] crawl.pages[i]).1
            == site_result(robots, site, crawl.pages[i].0) by {
            if i < before.pages.len() {
                assert(before.pages[i] == crawl.pages[i]);
            } else if let CrawlEvent::Respond(url, response) = events.last() {
                let links = leads_on(url, digested(url, response)->Ok_0);
                if i < before.add_links(links).pages.len() {
                    lemma_new_pages_are_excluded(before, links, i);
                } else {
                    lemma_digested_is_sound(url, response);
                }
            }
        }
    }
}

proof fn lemma_done_crawls_agree_on_path(
    left: CrawlView,
    right: CrawlView,
    site: spec_fn(Seq<char>) -> Result<HttpResponseView, Seq<char>>,
    path: Seq<Seq<char>>,
)
    requires
        right.is_valid(),
        right.is_done(),
        right.seen.contains(path[0]),
        is_path(left, path),
        forall|i: int|
            0 <= i < left.pages.len() ==> (#[trigger] left.pages[i]).1 == site_result(
                right.robots,
                site,
                left.pages[i].0,
            ),
        forall|i: int|
            0 <= i < right.pages.len() ==> (#[trigger] right.pages[i]).1 == site_result(
                right.robots,
                site,
                right.pages[i].0,
            ),
    ensures
        has_page(right.pages, path.last()),
    decreases path.len(),
{
    assert(right.todo.len() == 0 && right.in_flight.len() == 0);
    if path.len() > 1 {
        lemma_done_crawls_agree_on_path(left, right, site, path.drop_last());
        let from = path.drop_last().last();
        let i = choose|i: int|
            0 <= i < left.pages.len() && (#[trigger] left.pages[i]).0 == from && leads_to(
                left.pages[i].0,
                left.pages[i].1,
                path.last(),
            );
        let j = choose|j: int| 0 <= j < right.pages.len() && (#[trigger] right.pages[j]).0 == from;
        assert(left.pages[i].1 == right.pages[j].1);
        assert(right.links(from, path.last()));
    }
    assert(right.seen.contains(path.last()));
}

proof fn lemma_done_crawl_has_the_pages_of_another(
    seed: Seq<char>,
    robots: Option<Seq<char>>,
    left: Seq<CrawlEvent>,
    right: Seq<CrawlEvent>,
    site: spec_fn(Seq<char>) -> Result<HttpResponseView, Seq<char>>,
    at: int,
)
    requires
        is_history(seed, robots, left),
        is_history(seed, robots, right),
        comes_from(left, site),
        comes_from(right, site),
        crawl_after(seed, robots, right).is_done(),
        0 <= at < crawl_after(seed, robots, left).pages.len(),
    ensures
        crawl_after(seed, robots, right).pages.contains(
            crawl_after(seed, robots, left).pages[at],
        ),
{
    let one = crawl_after(seed, robots, left);
    let other = crawl_after(seed, robots, right);
    let url = one.pages[at].0;
    law_every_state_is_valid(seed, robots, left);
    law_every_state_is_valid(seed, robots, right);
    law_records_are_what_the_site_says(seed, robots, left, site);
    law_records_are_what_the_site_says(seed, robots, right, site);
    assert(has_page(one.pages, url));
    law_everything_found_is_reachable(seed, robots, left, url);
    let path = choose|path: Seq<Seq<char>>| #[trigger]
        is_path(one, path) && path[0] == seed && path.last() == url;
    lemma_done_crawls_agree_on_path(one, other, site, path);
    let j = choose|j: int| 0 <= j < other.pages.len() && (#[trigger] other.pages[j]).0 == url;
    assert(other.pages[j] == one.pages[at]);
}

/// What comes of a crawl does not depend on the order in which the responses come
/// in: two crawls of the same site, from the same URL, end with the same records.
pub proof fn law_result_does_not_depend_on_order(
    seed: Seq<char>,
    robots: Option<Seq<char>>,
    left: Seq<CrawlEvent>,
    right: Seq<CrawlEvent>,
    site: spec_fn(Seq<char>) -> Result<HttpResponseView, Seq<char>>,
)
    requires
        is_history(seed, robots, left),
        is_history(seed, robots, right),
        comes_from(left, site),
        comes_from(right, site),
        crawl_after(seed, robots, left).is_done(),
        crawl_after(seed, robots, right).is_done(),
    ensures
        same_pages(
            crawl_after(seed, robots, left).pages,
            crawl_after(seed, robots, right).pages,
        ),
{
    let one = crawl_after(seed, robots, left);
    let other = crawl_after(seed, robots, right);
    assert forall|page: (Seq<char>, PageResultView)|
        one.pages.contains(page) <==> other.pages.contains(page) by {
        if one.pages.contains(page) {
            lemma_done_crawl_has_the_pages_of_another(
                seed,
                robots,
                left,
                right,
                site,
                one.pages.index_of(page),
            );
        }
        if other.pages.contains(page) {
            lemma_done_crawl_has_the_pages_of_another(
                seed,
                robots,
                right,
                left,
                site,
                other.pages.index_of(page),
            );
        }
    }
    law_every_state_is_valid(seed, robots, left);
    law_every_state_is_valid(seed, robots, right);
    one.pages.unique_seq_to_set();
    other.pages.unique_seq_to_set();
    assert(one.pages.to_set() =~= other.pages.to_set());
    assert forall|i: int| 0 <= i < one.pages.len() implies other.pages.contains(
        #[trigger] one.pages[i],
    ) by {
        assert(one.pages.contains(one.pages[i]));
    }
}

/// Two lists of records are the same exactly where they are as long and whatever is
/// recorded of a URL in the one is recorded of it in the other.
pub proof fn law_same_pages_have_the_same_records(
    pages: Seq<(Seq<char>, PageResultView)>,
    others: Seq<(Seq<char>, PageResultView)>,
)
    ensures
        same_pages(pages, others) <==> pages.len() == others.len() && (forall|
            url: Seq<char>,
            result: PageResultView,
        | #[trigger]
            pages.contains((url, result)) ==> others.contains((url, result))),
{
    if same_pages(pages, others) {
        assert forall|url: Seq<char>, result: PageResultView| #[trigger]
            pages.contains((url, result)) implies others.contains((url, result)) by {
            assert(others.contains(pages[pages.index_of((url, result))]));
        }
    } else if pages.len() == others.len() {
        let i = choose|i: int| 0 <= i < pages.len() && !others.contains(#[trigger] pages[i]);
        assert(pages.contains((pages[i].0, pages[i].1)));
    }
}

/// Where nothing is recorded twice of a URL, two lists of records that are the same
/// one way are the same the other way.
pub proof fn law_same_pages_goes_both_ways(
    pages: Seq<(Seq<char>, PageResultView)>,
    others: Seq<(Seq<char>, PageResultView)>,
)
    requires
        distinct_pages(pages),
        distinct_pages(others),
        same_pages(pages, others),
    ensures
        same_pages(others, pages),
{
    pages.unique_seq_to_set();
    others.unique_seq_to_set();
    assert(pages.to_set().subset_of(others.to_set())) by {
        assert forall|page: (Seq<char>, PageResultView)| #[trigger]
            pages.to_set().contains(page) implies others.to_set().contains(page) by {
            assert(others.contains(pages[pages.index_of(page)]));
        }
    }
    vstd::set_lib::lemma_subset_equality(pages.to_set(), others.to_set());
    assert forall|i: int| 0 <= i < others.len() implies pages.contains(#[trigger] others[i]) by {
        assert(others.contains(others[i]));
        assert(pages.to_set().contains(others[i]));
    }
}

proof fn lemma_links_add_as_many(crawl: CrawlView, urls: Seq<Seq<char>>)
    ensures
        crawl.add_links(urls).todo.len() - crawl.todo.len() <= crawl.add_links(urls).seen.len()
            - crawl.seen.len(),
    decreases urls.len(),
{
    if urls.len() > 0 {
        lemma_links_add_as_many(crawl, urls.drop_last());
    }
}

proof fn lemma_events_are_paid_for(
    seed: Seq<char>,
    robots: Option<Seq<char>>,
    events: Seq<CrawlEvent>,
)
    requires
        is_history(seed, robots, events),
    ensures
        ({
            let crawl = crawl_after(seed, robots, events);
            events.len() + 2 * crawl.todo.len() + crawl.in_flight.len() <= 2 * crawl.seen.len()
        }),
    decreases events.len(),
{
    if events.len() > 0 {
        let earlier = events.drop_last();
        let before = crawl_after(seed, robots, earlier);
        lemma_events_are_paid_for(seed, robots, earlier);
        law_every_state_is_valid(seed, robots, earlier);
        if let CrawlEvent::Respond(url, response) = events.last() {
            let result = digested(url, response)->Ok_0;
            lemma_digested_is_sound(url, response);
            lemma_record_moves(before, url, result);
            lemma_links_add_as_many(before, leads_on(url, result));
        }
    }
}

/// A crawl of a finite site ends: as nothing is fetched twice, not more can happen
/// than that the fetching of each URL begins and ends.
pub proof fn law_a_crawl_of_a_finite_site_ends(
    seed: Seq<char>,
    robots: Option<Seq<char>>,
    events: Seq<CrawlEvent>,
    site: Set<Seq<char>>,
)
    requires
        is_history(seed, robots, events),
        site.finite(),
        forall|url: Seq<char>| #[trigger]
            crawl_after(seed, robots, events).seen.contains(url) ==> site.contains(url),
    ensures
        events.len() <= 2 * crawl_after(seed, robots, events).seen.len(),
        events.len() <= 2 * site.len(),
{
    let seen = crawl_after(seed, robots, events).seen;
    lemma_events_are_paid_for(seed, robots, events);
    law_every_state_is_valid(seed, robots, events);
    seen.unique_seq_to_set();
    assert(seen.to_set().subset_of(site)) by {
        assert forall|url: Seq<char>| #[trigger] seen.to_set().contains(url) implies site.contains(
            url,
        ) by {
            assert(seen.contains(url));
        }
    }
    vstd::set_lib::lemma_len_subset(seen.to_set(), site);
}

} // verus!
