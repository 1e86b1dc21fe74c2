use std::collections::HashMap;

use mikes_crawler::crawler::{
    Crawl, CrawlAction, CrawlResult, CrawlStatus, PageResult, digest, digest_anchors, robots_url,
    url_example,
};
use mikes_crawler::crawl_model::MAX_IN_FLIGHT;
use mikes_crawler::http_client::{HttpResponse, Status};
use mikes_crawler::link_extractor::PageInfo;
use mikes_crawler::prod_crawler::{CrawlerStatus, ProdCrawler};
use mikes_crawler::robots::readable;
use mikes_crawler::urls::WebUrl;

fn parse(text: &str) -> WebUrl {
    WebUrl::parse(text).unwrap()
}

fn crawl_result<const N: usize>(pages: [(&str, PageResult); N]) -> CrawlResult {
    let mut result = CrawlResult::default();
    for (url, page) in pages {
        result.insert(parse(url), page);
    }
    result
}

fn links(urls: &[&str]) -> Vec<WebUrl> {
    urls.iter().map(|url| parse(url)).collect()
}

fn crawled_internal<const N: usize>(urls: [&str; N]) -> PageResult {
    PageResult::Crawled(PageInfo { internal_links: links(&urls), external_links: vec![] })
}

fn crawled_external<const N: usize>(urls: [&str; N]) -> PageResult {
    PageResult::Crawled(PageInfo { internal_links: vec![], external_links: links(&urls) })
}

fn html_with_links<const N: usize>(urls: [&str; N]) -> String {
    format!(
        "<!DOCTYPE html>\n<html>\n    <head></head>\n    <body>\n        {}\n    </body>\n</html>\n",
        urls.iter()
            .map(|l| format!(r#"<a href="{}">Something</a>"#, l))
            .collect::<Vec<_>>()
            .join("\n")
    )
}

#[derive(Default)]
struct DummyHttpClient {
    responses: HashMap<String, (Result<HttpResponse, String>, u32)>,
    robots: Option<String>,
}

impl DummyHttpClient {
    fn insert(&mut self, url: &str, response: Result<HttpResponse, String>) {
        self.responses.insert(parse(url).as_str().to_string(), (response, 0));
    }

    fn add_server_failure(&mut self, url: &str, status: Status, msg: &str) {
        self.insert(url, Ok(HttpResponse::ServerFailure(status, msg.to_string())));
    }

    fn add_network_failure(&mut self, url: &str, msg: &str) {
        self.insert(url, Err(msg.to_string()));
    }

    fn add_redirect(&mut self, url: &str, status: Status, target: &str) {
        self.insert(url, Ok(HttpResponse::Redirect(status, parse(target))));
    }

    fn add_page<S: Into<String>>(&mut self, url: &str, body: S) {
        self.insert(url, Ok(HttpResponse::Html(body.into())));
    }

    fn add_other_content(&mut self, url: &str, content_type: &str) {
        self.insert(url, Ok(HttpResponse::OtherContent(content_type.to_string())));
    }

    fn get(&mut self, url: &WebUrl) -> Result<HttpResponse, String> {
        let response = match self.responses.get_mut(url.as_str()) {
            Some(response) => response,
            None => panic!("No response available for url {}", url.as_str()),
        };
        response.1 += 1;
        response.0.clone()
    }

    fn get_hit_counts(&self) -> HashMap<String, u32> {
        self.responses.iter().map(|(url, data)| (url.clone(), data.1)).collect()
    }
}

fn begin(crawler: &mut ProdCrawler, client: &DummyHttpClient, seed: &str) -> usize {
    if let Some(robots) = &client.robots {
        assert!(readable(robots));
    }
    crawler.begin(parse(seed), client.robots.clone())
}

fn answer(crawler: &mut ProdCrawler, client: &mut DummyHttpClient, id: usize, url: WebUrl) {
    let result = digest(&url, client.get(&url)).unwrap();
    crawler.record(id, url, result);
}

/// Runs a crawl to its end, with the first or the last of the requests in flight
/// answered first.
fn run_crawl(client: &mut DummyHttpClient, seed: &str, first_comes_first: bool) -> CrawlResult {
    let mut crawler = ProdCrawler::new();
    let id = begin(&mut crawler, client, seed);
    let mut in_flight: Vec<WebUrl> = vec![];
    loop {
        match crawler.next_action(id) {
            CrawlAction::Fetch(url) => in_flight.push(url),
            CrawlAction::Wait => {
                let at = if first_comes_first { 0 } else { in_flight.len() - 1 };
                let url = in_flight.remove(at);
                answer(&mut crawler, client, id, url);
            }
            CrawlAction::Finish => break,
        }
    }
    assert!(in_flight.is_empty());
    let result = crawler.end(id, Ok::<(), String>(())).unwrap();
    assert_eq!(crawler.status(), CrawlerStatus { crawls: vec![] });
    result
}

fn do_crawl(client: &mut DummyHttpClient, seed: &str) -> CrawlResult {
    run_crawl(client, seed, true)
}

#[test]
fn reports_single_server_error() {
    let mut dummy_client = DummyHttpClient::default();
    let status = Status::new(500);
    let msg = "Internal server error";
    let seed = "https://example.com/start";
    dummy_client.add_server_failure(seed, status, msg);

    let result = do_crawl(&mut dummy_client, seed);

    assert_eq!(
        result,
        crawl_result([(seed, PageResult::ServerFailure(status, msg.to_string())),])
    )
}

#[test]
fn reports_single_network_error() {
    let mut dummy_client = DummyHttpClient::default();
    let msg = "Connection failed";
    let seed = "https://example.com/start";
    dummy_client.add_network_failure(seed, msg);

    let result = do_crawl(&mut dummy_client, seed);

    assert_eq!(result, crawl_result([(seed, PageResult::Error(msg.to_string()),)]))
}

#[test]
fn reports_single_page_with_external_links() {
    let mut dummy_client = DummyHttpClient::default();
    let seed = "https://example.com/start";
    let external_link = "https://notexample.com/another";
    let html = html_with_links([external_link]);
    dummy_client.add_page(seed, html);

    let result = do_crawl(&mut dummy_client, seed);

    assert_eq!(result, crawl_result([(seed, crawled_external([external_link]))]))
}

#[test]
fn reports_redirect_and_target() {
    let mut dummy_client = DummyHttpClient::default();
    let redirect = "https://example.com/redirect";
    let target = "https://example.com/target";
    let external_link = "https://notexample.com/another";
    let html = html_with_links([external_link]);
    dummy_client.add_redirect(redirect, Status::new(302), target);
    dummy_client.add_page(target, html);

    let result = do_crawl(&mut dummy_client, redirect);

    assert_eq!(
        result,
        crawl_result([
            (redirect, PageResult::Redirect(Status::new(302), parse(target))),
            (target, crawled_external([external_link])),
        ])
    )
}

#[test]
fn follows_multiple_internal_links() {
    let mut dummy_client = DummyHttpClient::default();
    let seed = "https://example.com/start";
    let link1 = "https://example.com/link1";
    let link2 = "https://example.com/link2";
    let html = html_with_links([link1, link2]);
    dummy_client.add_page(seed, html);
    dummy_client.add_page(link1, "");
    dummy_client.add_page(link2, "");

    let result = do_crawl(&mut dummy_client, seed);

    assert_eq!(
        result,
        crawl_result([
            (seed, crawled_internal([link1, link2]),),
            (link1, PageResult::Crawled(PageInfo::default()),),
            (link2, PageResult::Crawled(PageInfo::default()),)
        ])
    )
}

#[test]
fn stop_after_loop_of_pages() {
    let mut dummy_client = DummyHttpClient::default();
    let seed = "https://example.com/start";
    let link1 = "https://example.com/link1";
    let link2 = "https://example.com/link2";

    dummy_client.add_page(seed, html_with_links([link1]));
    dummy_client.add_page(link1, html_with_links([link2]));
    dummy_client.add_page(link2, html_with_links([seed]));

    let result = do_crawl(&mut dummy_client, seed);

    assert_eq!(
        result,
        crawl_result([
            (seed, crawled_internal([link1])),
            (link1, crawled_internal([link2])),
            (link2, crawled_internal([seed]))
        ])
    )
}

#[test]
fn stop_after_parallel_loop_of_pages() {
    let mut dummy_client = DummyHttpClient::default();
    let seed = "https://example.com/start";
    let link1 = "https://example.com/link1";
    let link2 = "https://example.com/link2";

    dummy_client.add_page(seed, html_with_links([link1, link2]));
    dummy_client.add_page(link1, html_with_links([seed, link2]));
    dummy_client.add_page(link2, html_with_links([seed, link1]));

    let result = do_crawl(&mut dummy_client, seed);

    assert_eq!(
        result,
        crawl_result([
            (seed, crawled_internal([link1, link2])),
            (link1, crawled_internal([seed, link2])),
            (link2, crawled_internal([seed, link1]))
        ])
    );
    assert_eq!(
        dummy_client.get_hit_counts().into_values().collect::<Vec<_>>(),
        vec![1, 1, 1]
    )
}

#[test]
fn dont_follow_external_redirects() {
    let mut dummy_client = DummyHttpClient::default();
    let redirect = "https://example.com/redirect";
    let target = "https://notexample.com/target";
    dummy_client.add_redirect(redirect, Status::new(302), target);

    let result = do_crawl(&mut dummy_client, redirect);

    assert_eq!(
        result,
        crawl_result([(redirect, PageResult::Redirect(Status::new(302), parse(target))),])
    )
}

#[test]
fn dont_revisit_due_to_redirect() {
    let mut dummy_client = DummyHttpClient::default();
    let seed = "https://example.com/start";
    let redirect = "https://example.com/redirect";
    dummy_client.add_page(seed, html_with_links([redirect]));
    dummy_client.add_redirect(redirect, Status::new(302), seed);

    let result = do_crawl(&mut dummy_client, seed);

    assert_eq!(
        result,
        crawl_result([
            (seed, crawled_internal([redirect])),
            (redirect, PageResult::Redirect(Status::new(302), parse(seed))),
        ])
    );
    assert_eq!(
        dummy_client.get_hit_counts().into_values().collect::<Vec<_>>(),
        vec![1, 1]
    )
}

#[test]
fn dont_revisit_if_found_from_redirect() {
    let mut dummy_client = DummyHttpClient::default();
    let redirect = "https://example.com/redirect";
    let target = "https://example.com/target";
    let back = "https://example.com/back";
    dummy_client.add_redirect(redirect, Status::new(302), target);
    dummy_client.add_page(target, html_with_links([back]));
    dummy_client.add_page(back, html_with_links([target]));

    let result = do_crawl(&mut dummy_client, redirect);

    assert_eq!(
        result,
        crawl_result([
            (redirect, PageResult::Redirect(Status::new(302), parse(target))),
            (target, crawled_internal([back])),
            (back, crawled_internal([target]))
        ])
    );
    assert_eq!(
        dummy_client.get_hit_counts().into_values().collect::<Vec<_>>(),
        vec![1, 1, 1]
    )
}

#[test]
fn dont_visit_fragments_separately() {
    let mut dummy_client = DummyHttpClient::default();
    let page = "https://example.com/page";
    let link1 = format!("{}#link1", page);
    let link2 = format!("{}#link2", page);
    dummy_client.add_page(page, html_with_links([&link1, &link2]));

    let result = do_crawl(&mut dummy_client, page);

    assert_eq!(result, crawl_result([(page, crawled_internal([&link1, &link2])),]));
    assert_eq!(
        dummy_client.get_hit_counts().into_values().collect::<Vec<_>>(),
        vec![1]
    )
}

#[test]
fn ignores_non_html() {
    let mut dummy_client = DummyHttpClient::default();
    let pdf = "https://example.com/thing.pdf";
    let content_type = "x-application/pdf";
    dummy_client.add_other_content(pdf, content_type);

    let result = do_crawl(&mut dummy_client, pdf);

    assert_eq!(
        result,
        crawl_result([(pdf, PageResult::OtherContent(content_type.to_string())),])
    );
}

#[test]
fn ignores_link_to_page_excluded_by_robots_txt() {
    let mut dummy_client = DummyHttpClient::default();
    let page = "https://example.com/page";
    let excluded = "https://example.com/excluded";
    dummy_client.robots = Some("User-agent: *\nDisallow: /excluded\n".to_string());
    dummy_client.add_page(page, html_with_links([excluded]));
    dummy_client.add_page(excluded, "");

    let result = do_crawl(&mut dummy_client, page);

    assert_eq!(
        result,
        crawl_result([
            (page, crawled_internal([excluded])),
            (excluded, PageResult::ExcludedByRobotsTxt)
        ])
    );
    assert_eq!(dummy_client.get_hit_counts()[excluded], 0);
}

/// A crawl of a page with two links, at the point where both of them are being
/// fetched.
fn crawl_until_two_in_flight() -> (ProdCrawler, DummyHttpClient, usize, WebUrl, WebUrl) {
    let mut dummy_client = DummyHttpClient::default();
    let start = "https://example.com/start";
    let page1 = "https://example.com/page1";
    let page2 = "https://example.com/page2";
    dummy_client.add_page(start, html_with_links([page1, page2]));
    dummy_client.add_page(page1, "");
    dummy_client.add_page(page2, "");

    let mut crawler = ProdCrawler::new();
    let id = begin(&mut crawler, &dummy_client, start);
    assert_eq!(crawler.next_action(id), CrawlAction::Fetch(parse(start)));
    assert_eq!(crawler.next_action(id), CrawlAction::Wait);
    answer(&mut crawler, &mut dummy_client, id, parse(start));
    assert_eq!(crawler.next_action(id), CrawlAction::Fetch(parse(page1)));
    assert_eq!(crawler.next_action(id), CrawlAction::Fetch(parse(page2)));
    assert_eq!(crawler.next_action(id), CrawlAction::Wait);
    (crawler, dummy_client, id, parse(page1), parse(page2))
}

#[test]
fn get_some_status() {
    let start = "https://example.com/start";
    let (mut crawler, mut dummy_client, id, page1, page2) = crawl_until_two_in_flight();

    assert_eq!(
        crawler.status(),
        CrawlerStatus { crawls: vec![CrawlStatus { seed: parse(start), done: 1, todo: 2 }] }
    );

    answer(&mut crawler, &mut dummy_client, id, page2);
    answer(&mut crawler, &mut dummy_client, id, page1);
    assert_eq!(crawler.next_action(id), CrawlAction::Finish);
    assert!(crawler.end(id, Ok::<(), String>(())).is_ok());

    assert_eq!(crawler.status(), CrawlerStatus { crawls: vec![] });
}

#[test]
fn crawl_tracking_is_removed_if_theres_an_error() {
    let (mut crawler, _dummy_client, id, _page1, _page2) = crawl_until_two_in_flight();
    assert_eq!(crawler.status().crawls.len(), 1);

    let error = crawler.end(id, Err("Test panic to poison mutex".to_string())).unwrap_err();

    assert_eq!(error, "Test panic to poison mutex");
    assert_eq!(crawler.status(), CrawlerStatus { crawls: vec![] });
    assert!(!crawler.is_running(id));
}

#[test]
fn several_crawls_are_in_progress_at_once() {
    let mut crawler = ProdCrawler::new();
    let client = DummyHttpClient::default();
    let one = "https://one.com/";
    let two = "https://two.com/";
    let three = "https://three.com/";
    let first = begin(&mut crawler, &client, one);
    let second = begin(&mut crawler, &client, two);
    assert_ne!(first, second);
    assert!(crawler.is_running(first) && crawler.is_running(second));

    assert_eq!(crawler.next_action(second), CrawlAction::Fetch(parse(two)));
    assert_eq!(crawler.next_action(first), CrawlAction::Fetch(parse(one)));
    crawler.record(second, parse(two), PageResult::Error("failed".to_string()));
    assert_eq!(
        crawler.status(),
        CrawlerStatus {
            crawls: vec![
                CrawlStatus { seed: parse(one), done: 0, todo: 1 },
                CrawlStatus { seed: parse(two), done: 1, todo: 0 },
            ]
        }
    );

    assert!(crawler.end(first, Ok::<(), String>(())).is_ok());
    assert!(!crawler.is_running(first) && crawler.is_running(second));
    assert_eq!(begin(&mut crawler, &client, three), first);
    assert_eq!(crawler.status().crawls.len(), 2);
    let result = crawler.end(second, Ok::<(), String>(())).unwrap();
    assert_eq!(result, crawl_result([(two, PageResult::Error("failed".to_string()))]));
    assert_eq!(
        crawler.status(),
        CrawlerStatus { crawls: vec![CrawlStatus { seed: parse(three), done: 0, todo: 1 }] }
    );
}

#[test]
fn two_crawls_of_a_seed_both_show() {
    let mut crawler = ProdCrawler::new();
    let client = DummyHttpClient::default();
    let seed = "https://one.com/";
    let first = begin(&mut crawler, &client, seed);
    assert_eq!(crawler.next_action(first), CrawlAction::Fetch(parse(seed)));
    crawler.record(first, parse(seed), PageResult::Error("failed".to_string()));
    let second = begin(&mut crawler, &client, seed);
    assert_eq!(
        crawler.status(),
        CrawlerStatus {
            crawls: vec![
                CrawlStatus { seed: parse(seed), done: 1, todo: 0 },
                CrawlStatus { seed: parse(seed), done: 0, todo: 1 },
            ]
        }
    );

    assert!(crawler.end(first, Ok::<(), String>(())).is_ok());
    assert!(crawler.is_running(second));
    assert_eq!(
        crawler.status(),
        CrawlerStatus { crawls: vec![CrawlStatus { seed: parse(seed), done: 0, todo: 1 }] }
    );

    assert!(crawler.end(second, Err("failed".to_string())).is_err());
    assert_eq!(crawler.status(), CrawlerStatus { crawls: vec![] });
}

#[test]
fn a_step_adds_only_its_url_and_what_is_excluded() {
    let seed = parse("https://example.com/start");
    let mut crawl = Crawl::new(Some("User-agent: *\nDisallow: /x\n".to_string()));
    crawl.add_link(&seed);
    crawl.add_link(&parse("https://example.com/x1"));
    assert_eq!(crawl.next_fetch(), Some(seed.clone()));
    assert_eq!(crawl.status(&seed), CrawlStatus { seed: seed.clone(), done: 1, todo: 1 });
    let body = html_with_links(["/x1", "/x2", "/a", "/start"]);
    assert_eq!(crawl.step(seed.clone(), Ok(HttpResponse::Html(body))), Ok(()));
    assert_eq!(crawl.status(&seed), CrawlStatus { seed: seed.clone(), done: 3, todo: 1 });
    assert_eq!(
        texts(&crawl.into_result()),
        vec!["https://example.com/x1", "https://example.com/x2", "https://example.com/start"]
    );
}

#[test]
fn not_too_many_urls_are_fetched_at_once() {
    let mut crawl = Crawl::new(None);
    for n in 0..MAX_IN_FLIGHT + 1 {
        crawl.add_link(&parse(&format!("https://example.com/{}", n)));
    }
    for n in 0..MAX_IN_FLIGHT {
        assert_eq!(crawl.next_fetch(), Some(parse(&format!("https://example.com/{}", n))));
    }
    assert_eq!(crawl.next_fetch(), None);
    assert_eq!(crawl.next_action(), CrawlAction::Wait);
    crawl.record(parse("https://example.com/7"), PageResult::OtherContent("a/b".to_string()));
    assert_eq!(crawl.next_fetch(), Some(parse("https://example.com/20")));
    assert_eq!(MAX_IN_FLIGHT, 20);
}

#[test]
fn the_order_of_the_responses_does_not_matter() {
    let a = "https://example.com/a";
    let b = "https://example.com/b";
    let c = "https://example.com/c";
    let d = "https://example.com/d";
    let seed = "https://example.com/start";
    let build = || {
        let mut client = DummyHttpClient::default();
        client.robots = Some("User-agent: *\nDisallow: /d\n".to_string());
        client.add_page(seed, html_with_links([a, b]));
        client.add_page(a, html_with_links([c, d]));
        client.add_redirect(b, Status::new(301), c);
        client.add_server_failure(c, Status::new(500), "oops");
        client
    };

    let one = run_crawl(&mut build(), seed, true);
    let other = run_crawl(&mut build(), seed, false);

    assert_eq!(one, other);
    assert_eq!(other, one);
    assert_ne!(texts(&one), texts(&other));
    assert_eq!(one.len(), 5);
    assert_eq!(one.get(&parse(d)), Some(&PageResult::ExcludedByRobotsTxt));
}

#[test]
fn a_crawl_of_an_excluded_seed_is_done_at_once() {
    let seed = "https://example.com/start";
    let mut client = DummyHttpClient::default();
    client.robots = Some("User-agent: *\nDisallow: /\n".to_string());

    let result = do_crawl(&mut client, seed);

    assert_eq!(result, crawl_result([(seed, PageResult::ExcludedByRobotsTxt)]));
}

#[test]
fn a_page_that_is_linked_twice_is_fetched_once() {
    let mut crawl = Crawl::new(None);
    let url = parse("https://example.com/a");
    crawl.add_link(&url);
    crawl.add_link(&url);
    assert_eq!(crawl.status(&url), CrawlStatus { seed: url.clone(), done: 0, todo: 1 });
    assert_eq!(crawl.next_fetch(), Some(url.clone()));
    crawl.add_link(&url);
    assert_eq!(crawl.next_fetch(), None);
    assert!(!crawl.is_done());
    crawl.record(url.clone(), crawled_internal(["https://example.com/a#x", "https://example.com/b#y"]));
    assert_eq!(crawl.next_fetch(), Some(parse("https://example.com/b")));
    assert_eq!(crawl.next_fetch(), None);
}

#[test]
fn a_crawl_takes_responses_step_by_step() {
    let seed = parse("https://example.com/start");
    let mut crawl = Crawl::new(None);
    crawl.add_link(&seed);
    assert!(crawl.allowed_by_robots(&seed));
    assert_eq!(crawl.next_fetch(), Some(seed.clone()));
    let body = html_with_links(["/next#x", "https://other.com/"]);
    assert_eq!(crawl.step(seed.clone(), Ok(HttpResponse::Html(body))), Ok(()));
    let next = parse("https://example.com/next");
    assert_eq!(crawl.next_fetch(), Some(next.clone()));
    assert_eq!(crawl.step(next.clone(), Err("gone".to_string())), Ok(()));
    assert!(crawl.is_done());
    let result = crawl.into_result();
    assert_eq!(result.get(&next), Some(&PageResult::Error("gone".to_string())));
    assert_eq!(
        result.get(&seed),
        Some(&PageResult::Crawled(PageInfo {
            internal_links: links(&["https://example.com/next#x"]),
            external_links: links(&["https://other.com/"]),
        }))
    );
    assert_eq!(result.get(&parse("https://other.com/")), None);
}

#[test]
fn a_step_on_a_url_that_is_done_with_replaces_its_record() {
    let seed = parse("https://example.com/start");
    let mut crawl = Crawl::new(None);
    crawl.add_link(&seed);
    assert_eq!(crawl.next_fetch(), Some(seed.clone()));
    assert_eq!(crawl.step(seed.clone(), Err("one".to_string())), Ok(()));
    assert_eq!(crawl.step(seed.clone(), Err("two".to_string())), Ok(()));
    let result = crawl.into_result();
    assert_eq!(result.len(), 1);
    assert_eq!(result.get(&seed), Some(&PageResult::Error("two".to_string())));
}

#[test]
fn the_crawls_on_the_server_take_responses() {
    let seed = "https://example.com/start";
    let mut crawler = ProdCrawler::new();
    let id = begin(&mut crawler, &DummyHttpClient::default(), seed);
    assert_eq!(crawler.next_action(id), CrawlAction::Fetch(parse(seed)));
    let body = html_with_links(["/next"]);
    assert_eq!(crawler.step(id, parse(seed), Ok(HttpResponse::Html(body))), Ok(()));
    let next = parse("https://example.com/next");
    assert_eq!(crawler.next_action(id), CrawlAction::Fetch(next.clone()));
    assert_eq!(crawler.step(id, next, Err("gone".to_string())), Ok(()));
    assert_eq!(crawler.next_action(id), CrawlAction::Finish);
    assert_eq!(crawler.end(id, Ok::<(), String>(())).unwrap().len(), 2);
}

#[test]
fn reading_a_response_tells_why_anchors_have_no_link() {
    let seed = parse("https://example.com/start");
    let body = "<a>x</a><a href=\"/y\">y</a>".to_string();
    let (result, unlinked) = digest_anchors(&seed, Ok(HttpResponse::Html(body.clone()))).unwrap();
    assert_eq!(result, crawled_internal(["https://example.com/y"]));
    assert_eq!(unlinked.len(), 1);
    assert_eq!(unlinked[0].message(), "No href");
    assert_eq!(digest(&seed, Ok(HttpResponse::Html(body))), Ok(result));
    assert_eq!(digest_anchors(&seed, Err("gone".to_string())).unwrap().1, vec![]);
}

#[test]
fn the_target_of_a_redirection_keeps_its_fragment() {
    let seed = "https://example.com/start";
    let target = "https://example.com/target#here";
    let mut client = DummyHttpClient::default();
    client.add_redirect(seed, Status::new(301), target);
    client.add_page(target, "");

    let result = do_crawl(&mut client, seed);

    assert_eq!(
        result,
        crawl_result([
            (seed, PageResult::Redirect(Status::new(301), parse(target))),
            (target, PageResult::Crawled(PageInfo::default())),
        ])
    );
}

fn texts(result: &CrawlResult) -> Vec<String> {
    result.urls().iter().map(|url| url.as_str().to_string()).collect()
}

#[test]
fn records_never_change() {
    let seed = "https://example.com/0";
    let mut client = DummyHttpClient::default();
    for n in 0..5 {
        let next = format!("https://example.com/{}", n + 1);
        client.add_page(&format!("https://example.com/{}", n), html_with_links([&next]));
    }
    client.add_page("https://example.com/5", "");
    let full = do_crawl(&mut client, seed);
    assert_eq!(full.len(), 6);

    for steps in 0..6 {
        let mut crawler = ProdCrawler::new();
        let id = begin(&mut crawler, &client, seed);
        for _ in 0..steps {
            match crawler.next_action(id) {
                CrawlAction::Fetch(url) => answer(&mut crawler, &mut client, id, url),
                other => panic!("{:?}", other),
            }
        }
        let part = crawler.end(id, Ok::<(), String>(())).unwrap();
        assert_eq!(texts(&part), texts(&full)[..steps]);
        for (url, result) in part.pages() {
            assert_eq!(full.get(url), Some(result));
        }
    }
}

#[test]
fn a_crawl_stays_on_its_domain() {
    let seed = "https://example.com/";
    let mut client = DummyHttpClient::default();
    client.add_page(
        seed,
        html_with_links(["/a#x", "http://example.com:8080/b", "https://www.example.com/", "mailto:x@example.com"]),
    );
    client.add_redirect("https://example.com/a", Status::new(301), "https://other.com/");
    client.add_redirect("http://example.com:8080/b", Status::new(301), "https://example.com/c#y");
    client.add_page("https://example.com/c#y", "");

    let result = do_crawl(&mut client, seed);

    assert_eq!(result.len(), 4);
    for url in result.urls() {
        assert_eq!(url.domain(), Some("example.com".to_string()));
    }
}

#[test]
fn records_are_kept_by_url() {
    let url = "https://example.com/";
    let mut result = crawl_result([(url, PageResult::Error("one".to_string()))]);
    result.insert(parse(url), PageResult::Error("two".to_string()));
    assert_eq!(result.len(), 1);
    assert_eq!(result.get(&parse(url)), Some(&PageResult::Error("two".to_string())));
    assert_eq!(result.pages().len(), 1);
    assert_ne!(result, CrawlResult::default());
    assert_ne!(result, crawl_result([(url, PageResult::Error("one".to_string()))]));
    assert_ne!(result, crawl_result([(url, PageResult::OtherContent("two".to_string()))]));
}

#[test]
fn what_came_of_urls_is_compared_part_by_part() {
    let one = parse("https://example.com/1");
    let two = parse("https://example.com/2");
    let results = vec![
        PageResult::ServerFailure(Status::new(500), "a".to_string()),
        PageResult::ServerFailure(Status::new(501), "a".to_string()),
        PageResult::ServerFailure(Status::new(500), "b".to_string()),
        PageResult::Error("a".to_string()),
        PageResult::Redirect(Status::new(301), one.clone()),
        PageResult::Redirect(Status::new(302), one.clone()),
        PageResult::Redirect(Status::new(301), two),
        crawled_internal(["https://example.com/1"]),
        crawled_external(["https://example.com/1"]),
        PageResult::OtherContent("a".to_string()),
        PageResult::ExcludedByRobotsTxt,
    ];
    for (i, left) in results.iter().enumerate() {
        for (j, right) in results.iter().enumerate() {
            assert_eq!(left.same(right), i == j);
        }
    }
}

#[test]
fn the_robots_txt_is_at_the_root_of_the_site() {
    assert_eq!(
        robots_url(&parse("https://example.com:8080/a/b?c#d")).unwrap().as_str(),
        "https://example.com:8080/robots.txt"
    );
    assert!(robots_url(&parse("data:text/plain,x")).is_err());
}

#[test]
fn there_is_an_example_of_a_seed() {
    assert_eq!(url_example(), "http://example.com");
    assert!(WebUrl::parse(&url_example()).is_ok());
}
