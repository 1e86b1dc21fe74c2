use std::collections::HashMap;

use mikes_crawler::api::{SeedUrl, crawl, requested_seed};
use mikes_crawler::crawler::{CrawlAction, PageResult, digest, robots_url};
use mikes_crawler::html::fits;
use mikes_crawler::http_client::{
    HttpResponse, RobotsPlan, Status, plan_get, plan_get_robots,
};
use mikes_crawler::prod_crawler::ProdCrawler;
use mikes_crawler::robots::readable;
use mikes_crawler::serializers::{serialize_page_results, serialize_url, serialize_vec_url};
use mikes_crawler::urls::WebUrl;

struct MockPage {
    code: u16,
    content_type: Option<String>,
    location: Option<String>,
    body: String,
    hits: u32,
}

/// A server that answers by the path of a request, and with "not found" where it
/// knows none.
#[derive(Default)]
struct MockServer {
    pages: HashMap<String, MockPage>,
}

impl MockServer {
    fn url(&self, path: &str) -> String {
        format!("http://127.0.0.1:5000{}", path)
    }

    fn mock(&mut self, path: &str, code: u16, content_type: &str, body: &str) {
        let page = MockPage {
            code,
            content_type: Some(content_type.to_string()),
            location: None,
            body: body.to_string(),
            hits: 0,
        };
        self.pages.insert(self.url(path), page);
    }

    fn mock_redirect(&mut self, path: &str, code: u16, location: &str) {
        let page = MockPage {
            code,
            content_type: None,
            location: Some(location.to_string()),
            body: String::new(),
            hits: 0,
        };
        self.pages.insert(self.url(path), page);
    }

    fn hits(&self, path: &str) -> u32 {
        self.pages[&self.url(path)].hits
    }

    fn get(&mut self, url: &WebUrl) -> Result<HttpResponse, String> {
        let page = match self.pages.get_mut(url.as_str()) {
            Some(page) => page,
            None => return Ok(HttpResponse::ServerFailure(Status::new(404), String::new())),
        };
        page.hits += 1;
        let content_type = page.content_type.as_ref().map(|value| value.as_bytes().to_vec());
        let location = page.location.as_ref().map(|value| value.as_bytes().to_vec());
        match plan_get(url, Status::new(page.code), &content_type, &location) {
            Ok(plan) => {
                let body = if plan.needs_body() { page.body.clone() } else { String::new() };
                Ok(plan.carry_out(body))
            }
            Err(error) => Err(error.message()),
        }
    }

    fn get_robots(&mut self, url: &WebUrl) -> Result<Option<String>, String> {
        let code = self.pages.get(url.as_str()).map_or(404, |page| page.code);
        match plan_get_robots(Status::new(code)) {
            Ok(RobotsPlan::ReadRobots) => {
                let page = self.pages.get_mut(url.as_str()).unwrap();
                page.hits += 1;
                Ok(Some(page.body.clone()))
            }
            Ok(RobotsPlan::NoRobots) => Ok(None),
            Err(error) => Err(error.message()),
        }
    }
}

/// What the server has to say of a page, written down.
#[derive(Debug, PartialEq)]
enum Written {
    Crawled(Vec<String>, Vec<String>),
    Redirect(u16, String),
    OtherContent(String),
    Excluded,
    Failure(String),
}

fn get(server: &mut MockServer, start: &str) -> HashMap<String, Written> {
    let seed = requested_seed(SeedUrl::from_param(start)).unwrap();
    let robots = server.get_robots(&robots_url(&seed).unwrap()).unwrap();
    if let Some(robots) = &robots {
        assert!(readable(robots));
    }
    let mut crawler = ProdCrawler::new();
    let id = crawler.begin(seed, robots);
    let mut in_flight: Vec<WebUrl> = vec![];
    loop {
        match crawler.next_action(id) {
            CrawlAction::Fetch(url) => in_flight.push(url),
            CrawlAction::Wait => {
                let url = in_flight.remove(0);
                let response = server.get(&url);
                if let Ok(HttpResponse::Html(body)) = &response {
                    assert!(fits(body));
                }
                let result = digest(&url, response).unwrap();
                crawler.record(id, url, result);
            }
            CrawlAction::Finish => break,
        }
    }
    let answer = crawl(crawler.end(id, Ok::<(), String>(()))).unwrap();
    serialize_page_results(&answer)
        .into_iter()
        .map(|(url, result)| {
            let written = match result {
                PageResult::Crawled(info) => Written::Crawled(
                    serialize_vec_url(&info.internal_links),
                    serialize_vec_url(&info.external_links),
                ),
                PageResult::Redirect(status, target) => {
                    Written::Redirect(status.code, serialize_url(target))
                }
                PageResult::OtherContent(content_type) => {
                    Written::OtherContent(content_type.clone())
                }
                PageResult::ExcludedByRobotsTxt => Written::Excluded,
                PageResult::Error(message) => Written::Failure(message.clone()),
                PageResult::ServerFailure(_, message) => Written::Failure(message.clone()),
            };
            (url, written)
        })
        .collect()
}

fn page(links: &[&str]) -> String {
    let anchors: Vec<String> =
        links.iter().map(|link| format!("        <a href=\"{}\">Interesting</a>\n", link)).collect();
    format!(
        "<!DOCTYPE html>\n<html>\n    <head></head>\n    <body>\n{}    </body>\n</html>\n",
        anchors.concat()
    )
}

#[test]
fn simple() {
    let mut mock_server = MockServer::default();
    mock_server.mock("/start", 200, "text/html", &page(&["https://notexample.com/another"]));

    let start = mock_server.url("/start");
    let pages = get(&mut mock_server, &start);

    assert_eq!(
        pages[&start],
        Written::Crawled(vec![], vec!["https://notexample.com/another".to_string()])
    );
    assert_eq!(mock_server.hits("/start"), 1);
}

#[test]
fn relative_redirects() {
    let mut mock_server = MockServer::default();
    mock_server.mock_redirect("/start", 301, "/next");

    let start = mock_server.url("/start");
    let pages = get(&mut mock_server, &start);

    assert_eq!(pages[&start], Written::Redirect(301, mock_server.url("/next")));
    assert_eq!(mock_server.hits("/start"), 1);
}

#[test]
fn ignore_non_html() {
    let mut mock_server = MockServer::default();
    mock_server.mock("/start", 200, "x-application/something", "XXXX");

    let start = mock_server.url("/start");
    let pages = get(&mut mock_server, &start);

    assert_eq!(pages[&start], Written::OtherContent("x-application/something".to_string()));
    assert_eq!(mock_server.hits("/start"), 1);
}

#[test]
fn ignores_things_excluded_by_robots() {
    let mut mock_server = MockServer::default();
    let disallowed = mock_server.url("/disallowed");
    let hidden = mock_server.url("/hidden");
    mock_server.mock(
        "/start",
        200,
        "text/html",
        &page(&["https://notexample.com/another", &disallowed]),
    );
    mock_server.mock("/robots.txt", 200, "text/plain", "User-agent: *\nDisallow: /disallowed\n");
    mock_server.mock("/disallowed", 200, "text/html; charset=utf-8", &page(&[&hidden]));
    mock_server.mock("/hidden", 200, "text/html; charset=utf-8", "");

    let start = mock_server.url("/start");
    let pages = get(&mut mock_server, &start);

    assert_eq!(pages[&disallowed], Written::Excluded);
    assert_eq!(mock_server.hits("/robots.txt"), 1);
    assert_eq!(mock_server.hits("/disallowed"), 0);
    assert_eq!(mock_server.hits("/hidden"), 0);
}

#[test]
fn collected_things() {
    let mut mock_server = MockServer::default();
    let start = mock_server.url("/start");
    let another = mock_server.url("/another");
    let third = mock_server.url("/third");
    let pdf = mock_server.url("/pdf");
    let redirect = mock_server.url("/redirect");
    let relative = mock_server.url("/relative");
    mock_server.mock(
        "/start",
        200,
        "text/html",
        &page(&["https://notexample.com/another", &another, &third, &pdf, &redirect, "/relative"]),
    );
    mock_server.mock("/another", 200, "text/html; charset=utf-8", &page(&[&third]));
    mock_server.mock("/third", 200, "text/html; charset=utf-8", &page(&["/relative"]));
    mock_server.mock("/pdf", 200, "x-application/something", "XXXX");
    mock_server.mock_redirect("/redirect", 301, &start);
    mock_server.mock("/relative", 200, "text/html; charset=utf-8", &page(&["/third"]));

    let pages = get(&mut mock_server, &start);

    assert_eq!(
        pages[&start],
        Written::Crawled(
            vec![another.clone(), third.clone(), pdf, redirect, relative],
            vec!["https://notexample.com/another".to_string()]
        )
    );
    assert_eq!(pages[&another], Written::Crawled(vec![third], vec![]));
    assert_eq!(mock_server.hits("/start"), 1);
    assert_eq!(mock_server.hits("/another"), 1);
    assert_eq!(mock_server.hits("/third"), 1);
    assert_eq!(mock_server.hits("/pdf"), 1);
    assert_eq!(mock_server.hits("/redirect"), 1);
    assert_eq!(mock_server.hits("/relative"), 1);
}

#[test]
fn a_robots_txt_that_fails_fails_the_crawl() {
    let mut mock_server = MockServer::default();
    mock_server.mock("/robots.txt", 500, "text/plain", "");
    let url = WebUrl::parse(&mock_server.url("/robots.txt")).unwrap();

    assert_eq!(
        mock_server.get_robots(&url),
        Err("Got status 500 Internal Server Error for robots.txt".to_string())
    );
}
