use mikes_crawler::api::{
    ApiError, CrawlCount, SeedUrl, count, crawl, list, requested_seed, status,
};
use mikes_crawler::crawler::{CrawlResult, CrawlStatus, PageResult};
use mikes_crawler::http_client::Status;
use mikes_crawler::link_extractor::PageInfo;
use mikes_crawler::prod_crawler::CrawlerStatus;
use mikes_crawler::serializers::{
    serialize_page_results, serialize_status, serialize_url, serialize_vec_url,
};
use mikes_crawler::urls::WebUrl;

fn parse(text: &str) -> WebUrl {
    WebUrl::parse(text).unwrap()
}

fn crawl_result<const N: usize>(pages: [(&str, PageResult); N]) -> CrawlResult {
    let mut result = CrawlResult::default();
    for (url, page) in pages {
        result.insert(parse(url), page);
    }
    result
}

fn crawled_internal<const N: usize>(links: [&str; N]) -> PageResult {
    PageResult::Crawled(PageInfo {
        internal_links: links.iter().map(|link| parse(link)).collect(),
        external_links: vec![],
    })
}

#[test]
fn crawl_return_bad_request_for_non_url() {
    let url = "garbage";
    let error = requested_seed(SeedUrl::from_param(url)).unwrap_err();

    let (status, body) = error.respond_to();

    assert_eq!(status, Status::new(400));
    assert_eq!(body, url::Url::parse(url).unwrap_err().to_string())
}

#[test]
fn crawl_return_internal_error_from_crawler() {
    let error = "Something went wrong TEST";
    assert_eq!(
        requested_seed(SeedUrl::from_param("https://example.com")),
        Ok(parse("https://example.com"))
    );

    let (status, body) = crawl(Err(error.to_string())).unwrap_err().respond_to();

    assert_eq!(status, Status::new(500));
    assert_eq!(body, error);
}

#[test]
fn crawl_returns_result_from_crawler() {
    let url = "https://example.com/";
    assert_eq!(requested_seed(SeedUrl::from_param(url)), Ok(parse(url)));

    let answer = crawl(Ok(crawl_result([(url, crawled_internal([url]))]))).unwrap();

    let entries = serialize_page_results(&answer);
    assert_eq!(entries.len(), 1);
    assert_eq!(entries[0].0, url);
    let info = match entries[0].1 {
        PageResult::Crawled(info) => info,
        other => panic!("{:?}", other),
    };
    assert_eq!(serialize_vec_url(&info.internal_links)[0], url);
}

#[test]
fn status_return_internal_error_from_crawler() {
    let error = "Something went wrong TEST";

    let (code, body) = status(Err(error.to_string())).unwrap_err().respond_to();

    assert_eq!(code, Status::new(500));
    assert_eq!(body, error);
}

#[test]
fn status_returns_result_from_crawler() {
    let url = "https://example.com/";

    let answer = status(Ok(CrawlerStatus {
        crawls: vec![CrawlStatus { seed: parse(url), done: 2, todo: 10 }],
    }))
    .unwrap();

    assert_eq!(serialize_url(&answer.crawls[0].seed), url);
    assert_eq!(answer.crawls[0].done, 2);
    assert_eq!(answer.crawls[0].todo, 10);
}

#[test]
fn list_returns_all_visited_urls() {
    let url = "https://example.com/";
    let url2 = "https://example.com/2";
    let url3 = "https://example.com/3";

    let answer = list(Ok(crawl_result([
        (url, crawled_internal([url2, url3])),
        (url2, crawled_internal([])),
        (url3, crawled_internal([])),
    ])))
    .unwrap();

    let mut pages = serialize_vec_url(&answer.pages);
    pages.sort_unstable();
    assert_eq!(pages, vec![url, url2, url3]);
}

#[test]
fn list_return_internal_error_from_crawler() {
    assert_eq!(list(Err("oops".to_string())), Err(ApiError::InternalError("oops".to_string())));
}

#[test]
fn count_returns_the_number_of_urls() {
    let url = "https://example.com/";
    let url2 = "https://example.com/2";
    let result = || crawl_result([(url, crawled_internal([url2])), (url2, crawled_internal([]))]);

    assert_eq!(count(Ok(result())), Ok(CrawlCount { count: 2 }));
    assert_eq!(count(Ok(result())).unwrap().count, list(Ok(result())).unwrap().pages.len());
    assert_eq!(count(Ok(CrawlResult::default())), Ok(CrawlCount { count: 0 }));
    assert_eq!(count(Err("oops".to_string())), Err(ApiError::InternalError("oops".to_string())));
}

#[test]
fn a_bad_seed_is_reported_before_anything_is_crawled() {
    let seed = SeedUrl::from_param("//example.com");
    assert!(matches!(seed, Err(ApiError::BadSeed(_))));
    assert!(matches!(requested_seed(seed), Err(ApiError::BadSeed(_))));
}

#[test]
fn a_seed_is_what_parsing_gave() {
    let url = parse("https://example.com/");
    assert_eq!(SeedUrl::from_parsed(Ok(url.clone())), Ok(SeedUrl { url }));
    let error = WebUrl::parse("garbage").unwrap_err();
    let again = WebUrl::parse("garbage").unwrap_err();
    assert_eq!(SeedUrl::from_parsed(Err(error)), Err(ApiError::BadSeed(again)));
}

#[test]
fn messages_become_internal_errors() {
    assert_eq!(ApiError::from("oops".to_string()), ApiError::InternalError("oops".to_string()));
}

#[test]
fn errors_are_described() {
    assert_eq!(SeedUrl::schema_name(), "SeedUrl");
    assert_eq!(ApiError::schema_name(), "ApiError");
    let responses: Vec<(u16, String, String)> = ApiError::responses()
        .into_iter()
        .map(|response| (response.code, response.content_type, response.example))
        .collect();
    assert_eq!(
        responses,
        vec![
            (400, "text/plain".to_string(), "Bad seed url".to_string()),
            (500, "text/plain".to_string(), "Internal server error".to_string()),
        ]
    );
}

#[test]
fn a_status_is_written_as_its_code() {
    assert_eq!(serialize_status(&Status::new(404)), 404);
}

#[test]
fn urls_are_written_in_order() {
    let urls = vec![parse("https://b.com/"), parse("https://a.com/"), parse("https://b.com/")];
    assert_eq!(serialize_vec_url(&urls), vec!["https://b.com/", "https://a.com/", "https://b.com/"]);
    assert!(serialize_vec_url(&vec![]).is_empty());
}
