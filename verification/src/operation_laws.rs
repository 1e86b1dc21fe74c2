//! What a crawl does, said of links, redirections, rules and records themselves.
use vstd::prelude::*;

use crate::crawl_laws::{
    CrawlEvent, crawl_after, fetched, has_history, is_history, law_every_state_is_valid,
    law_nothing_is_fetched_twice, lemma_seen_from_links,
};
use crate::crawl_model::{
    CrawlView, PageResultView, has_page, leads_on, lemma_contains_push, lemma_contains_remove,
    lemma_leads_to, with_page,
};
use crate::link_extractor::PageInfoView;
use crate::robots::{is_allowed, robots_allow};
use crate::urls::{url_defragmented, url_domain};

verus! {

/// A site without a robots.txt allows everything, and one with a robots.txt allows
/// exactly what its rules let MikesCrawler fetch, whatever they let others fetch.
pub proof fn law_the_rules_for_the_crawler_decide(robots: Seq<char>, url: Seq<char>)
    ensures
        is_allowed(None, url),
        is_allowed(Some(robots), url) <==> robots_allow(robots, "MikesCrawler"@, url),
{
}

proof fn lemma_links_are_seen(crawl: CrawlView, urls: Seq<Seq<char>>)
    ensures
        forall|i: int|
            0 <= i < urls.len() ==> crawl.add_links(urls).seen.contains(#[trigger] urls[i]),
        forall|url: Seq<char>| #[trigger]
            crawl.seen.contains(url) ==> crawl.add_links(urls).seen.contains(url),
    decreases urls.len(),
{
    if urls.len() > 0 {
        let rest = urls.drop_last();
        let before = crawl.add_links(rest);
        lemma_links_are_seen(crawl, rest);
        lemma_contains_push(before.seen, urls.last());
        assert forall|i: int| 0 <= i < urls.len() implies crawl.add_links(urls).seen.contains(
            #[trigger] urls[i],
        ) by {
            if i < rest.len() {
                assert(rest[i] == urls[i]);
            }
        }
    }
}

/// Each internal link of a page that is recorded as crawled is found, without its
/// fragment, whatever else the page links to.
pub proof fn law_internal_links_are_found(crawl: CrawlView, url: Seq<char>, info: PageInfoView)
    ensures
        forall|i: int|
            0 <= i < info.internal_links.len() ==> crawl.record(
                url,
                PageResultView::Crawled(info),
            ).seen.contains(url_defragmented(#[trigger] info.internal_links[i])),
{
    let result = PageResultView::Crawled(info);
    lemma_links_are_seen(crawl, leads_on(url, result));
    assert forall|i: int| 0 <= i < info.internal_links.len() implies crawl.record(
        url,
        result,
    ).seen.contains(url_defragmented(#[trigger] info.internal_links[i])) by {
        assert(leads_on(url, result)[i] == url_defragmented(info.internal_links[i]));
    }
}

/// The target of a redirection is found, as it is, whatever the status, where it has the
/// domain of the URL that is redirected.
pub proof fn law_redirections_on_the_domain_are_found(
    crawl: CrawlView,
    url: Seq<char>,
    code: u16,
    target: Seq<char>,
)
    requires
        url_domain(target) == url_domain(url),
    ensures
        crawl.record(url, PageResultView::Redirect(code, target)).seen.contains(target),
{
    let result = PageResultView::Redirect(code, target);
    lemma_links_are_seen(crawl, leads_on(url, result));
    assert(leads_on(url, result)[0] == target);
}

/// Recording what came of a URL finds nothing but the internal links of its page and the
/// target of a redirection on its domain.
pub proof fn law_nothing_else_is_found(
    crawl: CrawlView,
    url: Seq<char>,
    result: PageResultView,
    found: Seq<char>,
)
    requires
        crawl.record(url, result).seen.contains(found),
        !crawl.seen.contains(found),
    ensures
        match result {
            PageResultView::Crawled(info) => exists|i: int|
                0 <= i < info.internal_links.len() && found == url_defragmented(
                    #[trigger] info.internal_links[i],
                ),
            PageResultView::Redirect(code, target) => found == target && url_domain(target)
                == url_domain(url),
            _ => false,
        },
{
    lemma_seen_from_links(crawl, leads_on(url, result), found);
    lemma_leads_to(url, result, found);
}

/// A URL that is found for the first time waits behind the others where there is no
/// robots.txt, or its rules let MikesCrawler fetch it; else it is recorded as excluded
/// and does not wait. Nothing else changes, and a URL that was found before changes
/// nothing.
pub proof fn law_a_found_url_waits_or_is_excluded(crawl: CrawlView, url: Seq<char>)
    ensures
        crawl.seen.contains(url) ==> crawl.add_link(url) == crawl,
        !crawl.seen.contains(url) ==> {
            &&& crawl.add_link(url).seen == crawl.seen.push(url)
            &&& crawl.add_link(url).in_flight == crawl.in_flight
            &&& crawl.add_link(url).robots == crawl.robots
            &&& crawl.robots is None || robots_allow(crawl.robots->0, "MikesCrawler"@, url) ==> {
                &&& crawl.add_link(url).todo == crawl.todo.push(url)
                &&& crawl.add_link(url).pages == crawl.pages
            }
            &&& crawl.robots is Some && !robots_allow(crawl.robots->0, "MikesCrawler"@, url) ==> {
                &&& crawl.add_link(url).todo == crawl.todo
                &&& crawl.add_link(url).pages == crawl.pages.push(
                    (url, PageResultView::ExcludedByRobotsTxt),
                )
            }
        },
{
}

/// A crawl that begins has found the URL that it starts at and nothing else; that URL
/// waits, or is excluded where the rules for MikesCrawler do not allow it.
pub proof fn law_a_crawl_begins_with_its_seed(seed: Seq<char>, robots: Option<Seq<char>>)
    ensures
        CrawlView::begin(seed, robots).robots == robots,
        CrawlView::begin(seed, robots).seen == seq![seed],
        CrawlView::begin(seed, robots).in_flight.len() == 0,
        robots is None || robots_allow(robots->0, "MikesCrawler"@, seed) ==> CrawlView::begin(
            seed,
            robots,
        ).todo == seq![seed] && CrawlView::begin(seed, robots).pages.len() == 0,
        robots is Some && !robots_allow(robots->0, "MikesCrawler"@, seed) ==> CrawlView::begin(
            seed,
            robots,
        ).todo.len() == 0 && CrawlView::begin(seed, robots).pages == seq![
            (seed, PageResultView::ExcludedByRobotsTxt),
        ],
{
    let begun = CrawlView::begin(seed, robots);
    law_a_found_url_waits_or_is_excluded(CrawlView::empty(robots), seed);
    assert(begun.seen =~= seq![seed]);
    assert(begun.todo.len() > 0 ==> begun.todo =~= seq![seed]);
    assert(begun.pages.len() > 0 ==> begun.pages =~= seq![
        (seed, PageResultView::ExcludedByRobotsTxt),
    ]);
}

/// The next URL is fetched exactly while one waits and fewer than twenty are being
/// fetched; it is the one that waited longest, and only it changes its place.
pub proof fn law_twenty_are_fetched_at_a_time_in_order(crawl: CrawlView)
    ensures
        crawl.can_fetch() <==> crawl.todo.len() > 0 && crawl.in_flight.len() < 20,
        crawl.todo.len() > 0 ==> {
            &&& crawl.fetch().todo.len() == crawl.todo.len() - 1
            &&& forall|i: int|
                0 <= i < crawl.fetch().todo.len() ==> #[trigger] crawl.fetch().todo[i]
                    == crawl.todo[i + 1]
            &&& crawl.fetch().in_flight == crawl.in_flight.push(crawl.todo[0])
            &&& crawl.fetch().seen == crawl.seen
            &&& crawl.fetch().pages == crawl.pages
            &&& crawl.fetch().robots == crawl.robots
        },
{
}

/// Recording what came of a URL leaves it with exactly that record.
pub proof fn law_a_recorded_url_has_its_record(
    crawl: CrawlView,
    url: Seq<char>,
    result: PageResultView,
)
    ensures
        crawl.record(url, result).pages.contains((url, result)),
        forall|i: int|
            0 <= i < crawl.record(url, result).pages.len() && (#[trigger] crawl.record(
                url,
                result,
            ).pages[i]).0 == url ==> crawl.record(url, result).pages[i].1 == result,
        crawl.record(url, result).robots == crawl.robots,
{
    let urls = leads_on(url, result);
    let found = crawl.add_links(urls);
    lemma_links_leave_alone(crawl, urls);
    if has_page(found.pages, url) {
        let i = choose|i: int| 0 <= i < found.pages.len() && (#[trigger] found.pages[i]).0 == url;
        assert(crawl.record(url, result).pages[i] == (url, result));
    } else {
        assert(crawl.record(url, result).pages[found.pages.len() as int] == (url, result));
        assert forall|i: int|
            0 <= i < crawl.record(url, result).pages.len() && (#[trigger] crawl.record(
                url,
                result,
            ).pages[i]).0 == url implies crawl.record(url, result).pages[i].1 == result by {
            if i < found.pages.len() {
                assert(found.pages[i].0 == url);
            }
        }
    }
}

/// Recording what came of a URL takes it, and nothing else, out of the URLs that are being
/// fetched.
pub proof fn law_a_recorded_url_is_no_longer_fetched(
    crawl: CrawlView,
    url: Seq<char>,
    result: PageResultView,
)
    requires
        crawl.in_flight.no_duplicates(),
    ensures
        forall|other: Seq<char>| #[trigger]
            crawl.record(url, result).in_flight.contains(other) <==> crawl.in_flight.contains(other)
                && other != url,
{
    lemma_links_leave_alone(crawl, leads_on(url, result));
    if crawl.in_flight.contains(url) {
        crawl.in_flight.index_of_first_ensures(url);
        lemma_contains_remove(crawl.in_flight, crawl.in_flight.index_of_first(url)->0);
    }
}

/// Recording what came of a URL leaves what is recorded of another URL as it is, and what
/// was found.
pub proof fn law_recording_leaves_the_others_alone(
    crawl: CrawlView,
    url: Seq<char>,
    result: PageResultView,
)
    ensures
        forall|found: Seq<char>| #[trigger]
            crawl.seen.contains(found) ==> crawl.record(url, result).seen.contains(found),
        forall|i: int|
            0 <= i < crawl.pages.len() && (#[trigger] crawl.pages[i]).0 != url ==> crawl.record(
                url,
                result,
            ).pages.contains(crawl.pages[i]),
{
    let urls = leads_on(url, result);
    let found = crawl.add_links(urls);
    lemma_links_are_seen(crawl, urls);
    lemma_links_keep_pages(crawl, urls);
    assert forall|i: int| 0 <= i < crawl.pages.len() && (#[trigger] crawl.pages[i]).0
        != url implies crawl.record(url, result).pages.contains(crawl.pages[i]) by {
        assert(found.pages[i] == crawl.pages[i]);
        assert(crawl.record(url, result).pages[i] == crawl.pages[i]);
    }
}

proof fn lemma_links_keep_pages(crawl: CrawlView, urls: Seq<Seq<char>>)
    ensures
        crawl.pages.len() <= crawl.add_links(urls).pages.len(),
        forall|i: int|
            0 <= i < crawl.pages.len() ==> #[trigger] crawl.add_links(urls).pages[i]
                == crawl.pages[i],
    decreases urls.len(),
{
    if urls.len() > 0 {
        lemma_links_keep_pages(crawl, urls.drop_last());
    }
}

proof fn lemma_links_leave_alone(crawl: CrawlView, urls: Seq<Seq<char>>)
    ensures
        crawl.add_links(urls).in_flight == crawl.in_flight,
        crawl.add_links(urls).robots == crawl.robots,
    decreases urls.len(),
{
    if urls.len() > 0 {
        lemma_links_leave_alone(crawl, urls.drop_last());
    }
}

/// URLs that are found together are found one after the other, in order.
pub proof fn law_urls_are_found_in_order(
    crawl: CrawlView,
    urls: Seq<Seq<char>>,
    last: Seq<char>,
)
    ensures
        crawl.add_links(Seq::empty()) == crawl,
        crawl.add_links(urls.push(last)) == crawl.add_links(urls).add_link(last),
{
    assert(urls.push(last).drop_last() =~= urls);
}

/// What a page that was crawled leads to waits in the order of the page, its internal links
/// without their fragments; so does the target of a redirection on the domain. Nothing else
/// changes what was found and what waits.
pub proof fn law_what_is_found_waits_in_the_order_of_the_page(
    crawl: CrawlView,
    url: Seq<char>,
    result: PageResultView,
)
    ensures
        match result {
            PageResultView::Crawled(info) => {
                let found = crawl.add_links(
                    Seq::new(
                        info.internal_links.len(),
                        |i: int| url_defragmented(info.internal_links[i]),
                    ),
                );
                crawl.record(url, result).seen == found.seen && crawl.record(url, result).todo
                    == found.todo
            },
            PageResultView::Redirect(code, target) => if url_domain(target) == url_domain(url) {
                crawl.record(url, result).seen == crawl.add_link(target).seen && crawl.record(
                    url,
                    result,
                ).todo == crawl.add_link(target).todo
            } else {
                crawl.record(url, result).seen == crawl.seen && crawl.record(url, result).todo
                    == crawl.todo
            },
            _ => crawl.record(url, result).seen == crawl.seen && crawl.record(url, result).todo
                == crawl.todo,
        },
{
    match result {
        PageResultView::Crawled(info) => {
            let links = Seq::new(
                info.internal_links.len(),
                |i: int| url_defragmented(info.internal_links[i]),
            );
            assert(leads_on(url, result) =~= links);
        },
        PageResultView::Redirect(_, target) => {
            if url_domain(target) == url_domain(url) {
                law_urls_are_found_in_order(crawl, Seq::empty(), target);
                assert(leads_on(url, result) =~= Seq::empty().push(target));
            }
        },
        _ => {},
    }
}

proof fn lemma_links_wait_or_are_excluded(crawl: CrawlView, urls: Seq<Seq<char>>, found: Seq<char>)
    requires
        crawl.add_links(urls).seen.contains(found),
        !crawl.seen.contains(found),
    ensures
        crawl.robots is None || robots_allow(crawl.robots->0, "MikesCrawler"@, found)
            ==> crawl.add_links(urls).todo.contains(found),
        crawl.robots is Some && !robots_allow(crawl.robots->0, "MikesCrawler"@, found)
            ==> crawl.add_links(urls).pages.contains((found, PageResultView::ExcludedByRobotsTxt)),
    decreases urls.len(),
{
    let rest = urls.drop_last();
    let before = crawl.add_links(rest);
    let after = crawl.add_links(urls);
    let excluded = (found, PageResultView::ExcludedByRobotsTxt);
    lemma_links_leave_alone(crawl, rest);
    if before.seen.contains(found) {
        lemma_links_wait_or_are_excluded(crawl, rest, found);
        lemma_contains_push(before.todo, urls.last());
        if before.pages.contains(excluded) {
            let i = before.pages.index_of(excluded);
            assert(after.pages[i] == excluded);
        }
    } else {
        lemma_contains_push(before.seen, urls.last());
        lemma_contains_push(before.todo, urls.last());
        assert(found == urls.last());
        if !is_allowed(crawl.robots, found) {
            assert(after.pages[before.pages.len() as int] == excluded);
        }
    }
}

/// A URL that is found when something is recorded of another waits where there is no
/// robots.txt, or its rules let MikesCrawler fetch it, and is else recorded as excluded.
pub proof fn law_what_is_found_waits_or_is_excluded(
    crawl: CrawlView,
    url: Seq<char>,
    result: PageResultView,
    found: Seq<char>,
)
    requires
        crawl.record(url, result).seen.contains(found),
        !crawl.seen.contains(found),
        found != url,
    ensures
        crawl.robots is None || robots_allow(crawl.robots->0, "MikesCrawler"@, found)
            ==> crawl.record(url, result).todo.contains(found),
        crawl.robots is Some && !robots_allow(crawl.robots->0, "MikesCrawler"@, found)
            ==> crawl.record(url, result).pages.contains(
            (found, PageResultView::ExcludedByRobotsTxt),
        ),
{
    let urls = leads_on(url, result);
    let next = crawl.add_links(urls);
    let excluded = (found, PageResultView::ExcludedByRobotsTxt);
    lemma_links_wait_or_are_excluded(crawl, urls, found);
    if next.pages.contains(excluded) {
        let i = next.pages.index_of(excluded);
        assert(crawl.record(url, result).pages[i] == excluded);
    }
}

proof fn lemma_links_record_only_exclusions(crawl: CrawlView, urls: Seq<Seq<char>>, i: int)
    requires
        crawl.pages.len() <= i < crawl.add_links(urls).pages.len(),
    ensures
        crawl.add_links(urls).pages[i].1 is ExcludedByRobotsTxt,
        !crawl.seen.contains(crawl.add_links(urls).pages[i].0),
        crawl.robots is Some,
        !robots_allow(crawl.robots->0, "MikesCrawler"@, crawl.add_links(urls).pages[i].0),
    decreases urls.len(),
{
    if urls.len() > 0 {
        let before = crawl.add_links(urls.drop_last());
        lemma_links_leave_alone(crawl, urls.drop_last());
        lemma_links_are_seen(crawl, urls.drop_last());
        if i < before.pages.len() {
            lemma_links_record_only_exclusions(crawl, urls.drop_last(), i);
        }
    }
}

/// Recording what came of a URL records nothing else, but the exclusion of URLs that are
/// found with it and that the rules do not let MikesCrawler fetch.
pub proof fn law_nothing_else_is_recorded(
    crawl: CrawlView,
    url: Seq<char>,
    result: PageResultView,
    i: int,
)
    requires
        0 <= i < crawl.record(url, result).pages.len(),
    ensures
        ({
            let page = crawl.record(url, result).pages[i];
            ||| page == (url, result)
            ||| i < crawl.pages.len() && page == crawl.pages[i]
            ||| page.1 is ExcludedByRobotsTxt && !crawl.seen.contains(page.0)
                && crawl.robots is Some && !robots_allow(crawl.robots->0, "MikesCrawler"@, page.0)
        }),
{
    let urls = leads_on(url, result);
    let next = crawl.add_links(urls);
    lemma_links_keep_pages(crawl, urls);
    if i < next.pages.len() {
        if crawl.pages.len() <= i {
            lemma_links_record_only_exclusions(crawl, urls, i);
        } else {
            assert(next.pages[i] == crawl.pages[i]);
        }
    }
}

/// Putting a record of a URL among others replaces what was recorded of it, or comes behind
/// the others where nothing was; the others stay as and where they are.
pub proof fn law_a_record_replaces_the_old_one(
    pages: Seq<(Seq<char>, PageResultView)>,
    url: Seq<char>,
    result: PageResultView,
)
    ensures
        forall|i: int|
            0 <= i < pages.len() && (#[trigger] pages[i]).0 == url ==> with_page(
                pages,
                url,
                result,
            ).len() == pages.len() && with_page(pages, url, result)[i] == (url, result),
        forall|i: int|
            0 <= i < pages.len() && (#[trigger] pages[i]).0 != url ==> with_page(
                pages,
                url,
                result,
            )[i] == pages[i],
        (forall|i: int| 0 <= i < pages.len() ==> (#[trigger] pages[i]).0 != url) ==> with_page(
            pages,
            url,
            result,
        ) == pages.push((url, result)),
{
    assert forall|i: int| 0 <= i < pages.len() && (#[trigger] pages[i]).0 == url implies with_page(
        pages,
        url,
        result,
    ).len() == pages.len() && with_page(pages, url, result)[i] == (url, result) by {
        assert(has_page(pages, url));
    }
}

/// In every state of a crawl, each internal link of each page that was crawled is found,
/// and so is the target of each redirection on the domain.
pub proof fn law_every_link_is_found(
    seed: Seq<char>,
    robots: Option<Seq<char>>,
    events: Seq<CrawlEvent>,
    page: int,
)
    requires
        is_history(seed, robots, events),
        0 <= page < crawl_after(seed, robots, events).pages.len(),
    ensures
        crawl_after(seed, robots, events).seen.contains(seed),
        match crawl_after(seed, robots, events).pages[page].1 {
            PageResultView::Crawled(info) => forall|i: int|
                0 <= i < info.internal_links.len() ==> crawl_after(
                    seed,
                    robots,
                    events,
                ).seen.contains(url_defragmented(#[trigger] info.internal_links[i])),
            PageResultView::Redirect(code, target) => url_domain(target) == url_domain(
                crawl_after(seed, robots, events).pages[page].0,
            ) ==> crawl_after(seed, robots, events).seen.contains(target),
            _ => true,
        },
{
    let crawl = crawl_after(seed, robots, events);
    law_every_state_is_valid(seed, robots, events);
    let from = crawl.pages[page].0;
    match crawl.pages[page].1 {
        PageResultView::Crawled(info) => {
            assert forall|i: int| 0 <= i < info.internal_links.len() implies crawl.seen.contains(
                url_defragmented(#[trigger] info.internal_links[i]),
            ) by {
                assert(crawl.links(from, url_defragmented(info.internal_links[i])));
            }
        },
        PageResultView::Redirect(code, target) => {
            if url_domain(target) == url_domain(from) {
                assert(crawl.links(from, target));
            }
        },
        _ => {},
    }
}

/// A crawl ends exactly when every URL that was found has a record. It then has a record
/// of each internal link of each page that was crawled, and of the target of each
/// redirection on the domain.
pub proof fn law_a_done_crawl_has_a_record_of_every_link(
    seed: Seq<char>,
    robots: Option<Seq<char>>,
    events: Seq<CrawlEvent>,
)
    requires
        is_history(seed, robots, events),
    ensures
        ({
            let crawl = crawl_after(seed, robots, events);
            &&& crawl.is_done() <==> (forall|url: Seq<char>| #[trigger]
                crawl.seen.contains(url) ==> exists|k: int|
                    0 <= k < crawl.pages.len() && (#[trigger] crawl.pages[k]).0 == url)
            &&& crawl.is_done() ==> exists|k: int|
                0 <= k < crawl.pages.len() && (#[trigger] crawl.pages[k]).0 == seed
            &&& crawl.is_done() ==> forall|page: int|
                0 <= page < crawl.pages.len() ==> match (#[trigger] crawl.pages[page]).1 {
                    PageResultView::Crawled(info) => forall|i: int|
                        0 <= i < info.internal_links.len() ==> exists|k: int|
                            0 <= k < crawl.pages.len() && (#[trigger] crawl.pages[k]).0
                                == url_defragmented(#[trigger] info.internal_links[i]),
                    PageResultView::Redirect(code, target) => url_domain(target) == url_domain(
                        crawl.pages[page].0,
                    ) ==> exists|k: int|
                        0 <= k < crawl.pages.len() && (#[trigger] crawl.pages[k]).0 == target,
                    _ => true,
                }
        }),
{
    let crawl = crawl_after(seed, robots, events);
    law_every_state_is_valid(seed, robots, events);
    if crawl.is_done() {
        assert(crawl.todo.len() == 0 && crawl.in_flight.len() == 0);
        assert forall|url: Seq<char>| #[trigger] crawl.seen.contains(url) implies exists|k: int|
            0 <= k < crawl.pages.len() && (#[trigger] crawl.pages[k]).0 == url by {
            assert(has_page(crawl.pages, url));
        }
        assert forall|page: int| 0 <= page < crawl.pages.len() implies match (
        #[trigger] crawl.pages[page]).1 {
            PageResultView::Crawled(info) => forall|i: int|
                0 <= i < info.internal_links.len() ==> exists|k: int|
                    0 <= k < crawl.pages.len() && (#[trigger] crawl.pages[k]).0 == url_defragmented(
                        #[trigger] info.internal_links[i],
                    ),
            PageResultView::Redirect(code, target) => url_domain(target) == url_domain(
                crawl.pages[page].0,
            ) ==> exists|k: int|
                0 <= k < crawl.pages.len() && (#[trigger] crawl.pages[k]).0 == target,
            _ => true,
        } by {
            law_every_link_is_found(seed, robots, events, page);
        }
    } else {
        if crawl.todo.len() > 0 {
            let url = crawl.todo[0];
            assert(crawl.todo.contains(url));
            assert(crawl.seen.contains(url) && !has_page(crawl.pages, url));
        } else {
            let url = crawl.in_flight[0];
            assert(crawl.in_flight.contains(url));
            assert(crawl.seen.contains(url) && !has_page(crawl.pages, url));
        }
    }
}

/// No URL that the rules do not let MikesCrawler fetch ever waits, is being fetched or was
/// fetched; each such URL that was found is recorded as excluded, and no other URL is.
pub proof fn law_the_crawl_respects_the_rules(
    seed: Seq<char>,
    robots: Seq<char>,
    events: Seq<CrawlEvent>,
    url: Seq<char>,
)
    requires
        is_history(seed, Some(robots), events),
    ensures
        !robots_allow(robots, "MikesCrawler"@, url) ==> {
            &&& !crawl_after(seed, Some(robots), events).todo.contains(url)
            &&& !crawl_after(seed, Some(robots), events).in_flight.contains(url)
            &&& !fetched(seed, Some(robots), events).contains(url)
            &&& crawl_after(seed, Some(robots), events).seen.contains(url) ==> crawl_after(
                seed,
                Some(robots),
                events,
            ).pages.contains((url, PageResultView::ExcludedByRobotsTxt))
        },
        robots_allow(robots, "MikesCrawler"@, url) ==> !crawl_after(
            seed,
            Some(robots),
            events,
        ).pages.contains((url, PageResultView::ExcludedByRobotsTxt)),
{
    let crawl = crawl_after(seed, Some(robots), events);
    law_every_state_is_valid(seed, Some(robots), events);
    law_nothing_is_fetched_twice(seed, Some(robots), events);
    law_the_rules_for_the_crawler_decide(robots, url);
    let urls = fetched(seed, Some(robots), events);
    if urls.contains(url) {
        assert(is_allowed(Some(robots), urls[urls.index_of(url)]));
    }
    if !robots_allow(robots, "MikesCrawler"@, url) && crawl.seen.contains(url) {
        let i = choose|i: int| 0 <= i < crawl.pages.len() && (#[trigger] crawl.pages[i]).0 == url;
        assert(crawl.pages[i] == (url, PageResultView::ExcludedByRobotsTxt));
    }
    if robots_allow(robots, "MikesCrawler"@, url) && crawl.pages.contains(
        (url, PageResultView::ExcludedByRobotsTxt),
    ) {
        let i = crawl.pages.index_of((url, PageResultView::ExcludedByRobotsTxt));
        assert(crawl.pages[i].1 is ExcludedByRobotsTxt);
    }
}

/// Of a site without a robots.txt nothing is recorded as excluded.
pub proof fn law_nothing_is_excluded_without_rules(
    seed: Seq<char>,
    events: Seq<CrawlEvent>,
    page: int,
)
    requires
        is_history(seed, None, events),
        0 <= page < crawl_after(seed, None, events).pages.len(),
    ensures
        !(crawl_after(seed, None, events).pages[page].1 is ExcludedByRobotsTxt),
{
    law_every_state_is_valid(seed, None, events);
}

/// Every URL that is found is on the way: it waits, is being fetched or has a record. A
/// crawl goes on until each has a record.
pub proof fn law_every_found_url_is_dealt_with(seed: Seq<char>, crawl: CrawlView, url: Seq<char>)
    requires
        has_history(seed, crawl),
        crawl.seen.contains(url),
    ensures
        crawl.todo.contains(url) || crawl.in_flight.contains(url) || exists|k: int|
            0 <= k < crawl.pages.len() && (#[trigger] crawl.pages[k]).0 == url,
        crawl.in_flight.len() <= 20,
{
    let events = choose|events: Seq<CrawlEvent>| #[trigger]
        is_history(seed, crawl.robots, events) && crawl == crawl_after(seed, crawl.robots, events);
    law_every_state_is_valid(seed, crawl.robots, events);
}

} // verus!
