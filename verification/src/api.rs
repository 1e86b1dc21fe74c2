//! The answers of the server: what a request asks for, and how the outcome of a
//! crawl is turned into an answer or an error.
use vstd::prelude::*;
use vstd::string::*;

use crate::crawl_model::{PageResultView, distinct_pages};
use crate::crawler::{CrawlResult, page_urls};
use crate::http_client::Status;
use crate::link_extractor::url_texts;
use crate::prod_crawler::CrawlerStatus;
use crate::urls::{ParseError, WebUrl, url_parsed};

verus! {

/// Why a request gets no answer.
#[derive(Debug, PartialEq, Eq)]
pub enum ApiError {
    /// What the request gives to start at is not a URL.
    BadSeed(ParseError),
    /// Something went wrong on the way to the answer.
    InternalError(String),
}

/// Why a request gets no answer, by its text.
pub enum ApiErrorView {
    BadSeed(Seq<char>),
    InternalError(Seq<char>),
}

impl View for ApiError {
    type V = ApiErrorView;

    open spec fn view(&self) -> ApiErrorView {
        match self {
            ApiError::BadSeed(error) => ApiErrorView::BadSeed(error@),
            ApiError::InternalError(message) => ApiErrorView::InternalError(message@),
        }
    }
}

impl ApiErrorView {
    /// The status code of the response.
    pub open spec fn code(self) -> u16 {
        match self {
            ApiErrorView::BadSeed(_) => 400,
            ApiErrorView::InternalError(_) => 500,
        }
    }

    /// The body of the response.
    pub open spec fn message(self) -> Seq<char> {
        match self {
            ApiErrorView::BadSeed(message) => message,
            ApiErrorView::InternalError(message) => message,
        }
    }
}

impl From<String> for ApiError {
    fn from(message: String) -> (error: Self) {
        ApiError::InternalError(message)
    }
}

impl vstd::std_specs::convert::FromSpecImpl<String> for ApiError {
    open spec fn obeys_from_spec() -> bool {
        true
    }

    open spec fn from_spec(message: String) -> Self {
        ApiError::InternalError(message)
    }
}

/// A kind of response in the description of the API.
#[derive(Debug, PartialEq, Eq)]
pub struct DescribedResponse {
    pub code: u16,
    pub content_type: String,
    pub example: String,
}

impl View for DescribedResponse {
    type V = (u16, Seq<char>, Seq<char>);

    open spec fn view(&self) -> (u16, Seq<char>, Seq<char>) {
        (self.code, self.content_type@, self.example@)
    }
}

impl ApiError {
    /// The name of the schema that describes an error.
    pub fn schema_name() -> (name: String)
        ensures
            name@ == "ApiError"@,
    {
        "ApiError".to_owned()
    }

    /// The responses with an error, as the description of the API has them.
    pub fn responses() -> (responses: Vec<DescribedResponse>)
        ensures
            responses@.map_values(|response: DescribedResponse| response@) == seq![
                (400u16, "text/plain"@, "Bad seed url"@),
                (500u16, "text/plain"@, "Internal server error"@),
            ],
    {
        let mut responses: Vec<DescribedResponse> = Vec::new();
        responses.push(
            DescribedResponse {
                code: 400,
                content_type: "text/plain".to_owned(),
                example: "Bad seed url".to_owned(),
            },
        );
        responses.push(
            DescribedResponse {
                code: 500,
                content_type: "text/plain".to_owned(),
                example: "Internal server error".to_owned(),
            },
        );
        assert(responses@.map_values(|response: DescribedResponse| response@) =~= seq![
            (400u16, "text/plain"@, "Bad seed url"@),
            (500u16, "text/plain"@, "Internal server error"@),
        ]);
        responses
    }

    /// The response with the error: "bad request" where it is the client's, "internal
    /// server error" where it is the server's, with the error in words.
    pub fn respond_to(self) -> (response: (Status, String))
        ensures
            response.0.code == self@.code(),
            response.1@ == self@.message(),
            self matches ApiError::BadSeed(error) ==> response.0.code == 400 && response.1@
                == error@,
            self matches ApiError::InternalError(message) ==> response.0.code == 500
                && response.1@ == message@,
    {
        match self {
            ApiError::BadSeed(error) => (Status::new(400), error.message()),
            ApiError::InternalError(message) => (Status::new(500), message),
        }
    }
}

/// The URL that a request gives to start at.
#[derive(Debug, PartialEq, Eq)]
pub struct SeedUrl {
    pub url: WebUrl,
}

/// What reading the URL to start at gives, by its texts.
pub open spec fn seed_result(value: Result<SeedUrl, ApiError>) -> Result<Seq<char>, ApiErrorView> {
    match value {
        Ok(seed) => Ok(seed.url@),
        Err(error) => Err(error@),
    }
}

impl SeedUrl {
    /// The name of the schema that describes a URL to start at.
    pub fn schema_name() -> (name: String)
        ensures
            name@ == "SeedUrl"@,
    {
        "SeedUrl".to_owned()
    }

    /// Reads the URL to start at from the path of a request.
    pub fn from_param(param: &str) -> (seed: Result<SeedUrl, ApiError>)
        ensures
            seed_result(seed) == (match url_parsed(param@) {
                Ok(url) => Ok::<Seq<char>, ApiErrorView>(url),
                Err(message) => Err(ApiErrorView::BadSeed(message)),
            }),
            match url_parsed(param@) {
                Ok(url) => seed matches Ok(seed) && seed.url@ == url,
                Err(message) => seed matches Err(ApiError::BadSeed(error)) && error@ == message,
            },
    {
        SeedUrl::from_parsed(WebUrl::parse(param))
    }

    /// The URL to start at, given what parsing it gave.
    pub fn from_parsed(parsed: Result<WebUrl, ParseError>) -> (seed: Result<SeedUrl, ApiError>)
        ensures
            match parsed {
                Ok(url) => seed matches Ok(seed) && seed.url == url,
                Err(error) => seed == Err::<SeedUrl, ApiError>(ApiError::BadSeed(error)),
            },
    {
        match parsed {
            Ok(url) => Ok(SeedUrl { url }),
            Err(error) => Err(ApiError::BadSeed(error)),
        }
    }
}

/// The URL at which a request asks to start, or the error where it gives none.
pub fn requested_seed(seed: Result<SeedUrl, ApiError>) -> (url: Result<WebUrl, ApiError>)
    ensures
        match seed {
            Ok(seed) => url == Ok::<WebUrl, ApiError>(seed.url),
            Err(error) => url == Err::<WebUrl, ApiError>(error),
        },
{
    match seed {
        Ok(seed) => Ok(seed.url),
        Err(error) => Err(error),
    }
}

/// Crawl a domain starting with a URL: the answer has everything that came of the
/// crawl, or what went wrong with it.
pub fn crawl(outcome: Result<CrawlResult, String>) -> (answer: Result<CrawlResult, ApiError>)
    ensures
        match outcome {
            Ok(result) => answer == Ok::<CrawlResult, ApiError>(result),
            Err(message) => answer == Err::<CrawlResult, ApiError>(
                ApiError::InternalError(message),
            ),
        },
{
    match outcome {
        Ok(result) => Ok(result),
        Err(message) => Err(ApiError::from(message)),
    }
}

/// A list of the URLs that were found on a domain.
#[derive(Debug, PartialEq, Eq)]
pub struct CrawlList {
    /// Links found with the same domain as the seed
    pub pages: Vec<WebUrl>,
}

/// List a domain starting with a URL: the answer has every URL that the crawl is
/// done with, each once, or what went wrong with the crawl.
pub fn list(outcome: Result<CrawlResult, String>) -> (answer: Result<CrawlList, ApiError>)
    ensures
        match outcome {
            Ok(result) => answer matches Ok(list) && url_texts(list.pages@) == page_urls(result@)
                && list.pages.len() == result@.len() && forall|i: int|
                0 <= i < list.pages.len() ==> (#[trigger] list.pages@[i])@ == result@[i].0,
            Err(message) => answer == Err::<CrawlList, ApiError>(ApiError::InternalError(message)),
        },
{
    match outcome {
        Ok(result) => Ok(CrawlList { pages: result.urls() }),
        Err(message) => Err(ApiError::from(message)),
    }
}

/// How many URLs were found on a domain.
#[derive(Debug, Clone, Copy, PartialEq, Eq, Structural)]
pub struct CrawlCount {
    /// The number of links found with the same domain as the seed
    pub count: usize,
}

/// Count the URLs that can be found starting at a URL, or say what went wrong with
/// the crawl.
pub fn count(outcome: Result<CrawlResult, String>) -> (answer: Result<CrawlCount, ApiError>)
    ensures
        match outcome {
            Ok(result) => answer matches Ok(count) && count.count == result@.len(),
            Err(message) => answer == Err::<CrawlCount, ApiError>(ApiError::InternalError(message)),
        },
{
    match outcome {
        Ok(result) => Ok(CrawlCount { count: result.len() }),
        Err(message) => Err(ApiError::from(message)),
    }
}

/// Get a summary of all the crawl operations in progress on the server, or say what
/// went wrong with it.
pub fn status(outcome: Result<CrawlerStatus, String>) -> (answer: Result<CrawlerStatus, ApiError>)
    ensures
        match outcome {
            Ok(status) => answer == Ok::<CrawlerStatus, ApiError>(status),
            Err(message) => answer == Err::<CrawlerStatus, ApiError>(
                ApiError::InternalError(message),
            ),
        },
{
    match outcome {
        Ok(status) => Ok(status),
        Err(message) => Err(ApiError::from(message)),
    }
}

/// The fault of a client is answered with status 400, a fault of the server with 500, and
/// both in their own words.
pub proof fn law_errors_are_answered_by_whose_they_are(message: Seq<char>)
    ensures
        ApiErrorView::BadSeed(message).code() == 400,
        ApiErrorView::BadSeed(message).message() == message,
        ApiErrorView::InternalError(message).code() == 500,
        ApiErrorView::InternalError(message).message() == message,
{
}

/// A list of a domain has the URLs of which something is recorded, in the order of the
/// records.
pub proof fn law_the_list_has_every_recorded_url(pages: Seq<(Seq<char>, PageResultView)>)
    ensures
        page_urls(pages).len() == pages.len(),
        forall|i: int| 0 <= i < pages.len() ==> #[trigger] page_urls(pages)[i] == pages[i].0,
{
}

/// A list of a domain has as many URLs as the count of it says, and no URL twice.
pub proof fn law_list_is_as_long_as_the_count(pages: Seq<(Seq<char>, PageResultView)>)
    requires
        distinct_pages(pages),
    ensures
        page_urls(pages).len() == pages.len(),
        page_urls(pages).no_duplicates(),
{
}

} // verus!
