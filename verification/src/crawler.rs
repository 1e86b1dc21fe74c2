//! A crawl: what is found, what is fetched next, and what came of it.
use vstd::prelude::*;

use crate::crawl_laws::{is_digested, law_status_counts_what_was_found};
use crate::crawl_model::{
    CrawlView, MAX_IN_FLIGHT, PageResultView, distinct_pages, has_page, is_sound, leads_on,
    lemma_add_link_valid, lemma_add_link_well_formed, lemma_add_links_on_domain,
    lemma_add_links_well_formed, lemma_begin_valid, lemma_contains_push, lemma_fetch_valid,
    lemma_record_valid, lemma_with_page_well_formed, with_page, without,
};
use crate::html::{html_tokenized, page_fits};
use crate::http_client::{HttpResponse, HttpResponseView, Status};
use crate::link_extractor::{
    AnchorError, AnchorErrorView, IncompletePage, PageInfo, error_views, law_links_are_sorted,
    lemma_push_text, links_of_tokens, parse_anchors, token_errors, token_links,
    tokenized_links, url_texts,
};
use crate::operation_laws::{
    law_a_recorded_url_has_its_record, law_internal_links_are_found, law_nothing_else_is_found,
    law_recording_leaves_the_others_alone, law_redirections_on_the_domain_are_found,
};
use crate::robots::{allowed, is_allowed, is_readable, robots_allow};
use crate::text::optional_text;
use crate::urls::{ParseError, WebUrl, url_defragmented, url_domain, url_joined, url_result};

verus! {

/// What came of a URL.
#[derive(Debug, PartialEq, Eq)]
pub enum PageResult {
    /// The server did not meet the request, and said why.
    ServerFailure(Status, String),
    /// The request could not be made, or its response not be used.
    Error(String),
    /// The server sent the crawler to another URL.
    Redirect(Status, WebUrl),
    /// A page, with its links.
    Crawled(PageInfo),
    /// Something else than a page, with its content type.
    OtherContent(String),
    /// The robots.txt of the site excludes the URL.
    ExcludedByRobotsTxt,
}

impl View for PageResult {
    type V = PageResultView;

    open spec fn view(&self) -> PageResultView {
        match self {
            PageResult::ServerFailure(status, message) => PageResultView::ServerFailure(
                status.code,
                message@,
            ),
            PageResult::Error(message) => PageResultView::Error(message@),
            PageResult::Redirect(status, target) => PageResultView::Redirect(status.code, target@),
            PageResult::Crawled(info) => PageResultView::Crawled(info@),
            PageResult::OtherContent(content_type) => PageResultView::OtherContent(content_type@),
            PageResult::ExcludedByRobotsTxt => PageResultView::ExcludedByRobotsTxt,
        }
    }
}

impl PageResult {
    /// Whether the same came of two URLs.
    pub fn same(&self, other: &PageResult) -> (same: bool)
        ensures
            same == (self@ == other@),
    {
        match (self, other) {
            (
                PageResult::ServerFailure(status, message),
                PageResult::ServerFailure(other_status, other_message),
            ) => status.code == other_status.code && *message == *other_message,
            (PageResult::Error(message), PageResult::Error(other_message)) => {
                *message == *other_message
            },
            (
                PageResult::Redirect(status, target),
                PageResult::Redirect(other_status, other_target),
            ) => status.code == other_status.code && target.same(other_target),
            (PageResult::Crawled(info), PageResult::Crawled(other_info)) => info.same(other_info),
            (
                PageResult::OtherContent(content_type),
                PageResult::OtherContent(other_content_type),
            ) => *content_type == *other_content_type,
            (PageResult::ExcludedByRobotsTxt, PageResult::ExcludedByRobotsTxt) => true,
            _ => false,
        }
    }
}

/// What came of each URL that a crawl is done with, in the order in which it was
/// done with them.
#[derive(Debug)]
pub struct CrawlResult {
    pages: Vec<(WebUrl, PageResult)>,
}

/// What came of URLs, by the texts.
pub open spec fn page_views(pages: Seq<(WebUrl, PageResult)>) -> Seq<(Seq<char>, PageResultView)> {
    pages.map_values(|page: (WebUrl, PageResult)| (page.0@, page.1@))
}

/// The URLs of which something is recorded.
pub open spec fn page_urls(pages: Seq<(Seq<char>, PageResultView)>) -> Seq<Seq<char>> {
    pages.map_values(|page: (Seq<char>, PageResultView)| page.0)
}

impl View for CrawlResult {
    type V = Seq<(Seq<char>, PageResultView)>;

    closed spec fn view(&self) -> Seq<(Seq<char>, PageResultView)> {
        page_views(self.pages@)
    }
}

/// Whether as much is recorded in one list as in another, and everything in the one
/// is in the other.
pub open spec fn same_pages(
    pages: Seq<(Seq<char>, PageResultView)>,
    others: Seq<(Seq<char>, PageResultView)>,
) -> bool {
    &&& pages.len() == others.len()
    &&& forall|i: int| 0 <= i < pages.len() ==> others.contains(#[trigger] pages[i])
}

impl PartialEq for CrawlResult {
    fn eq(&self, other: &Self) -> (same: bool) {
        if self.pages.len() != other.pages.len() {
            return false;
        }
        let mut i: usize = 0;
        while i < self.pages.len()
            invariant
                i <= self.pages.len() == other.pages.len(),
                forall|j: int| 0 <= j < i ==> other@.contains(#[trigger] self@[j]),
            decreases self.pages.len() - i,
        {
            let page: &(WebUrl, PageResult) = &self.pages[i];
            assert(self@[i as int] == (page.0@, page.1@));
            if !other.holds(&page.0, &page.1) {
                return false;
            }
            i = i + 1;
        }
        true
    }
}

impl vstd::std_specs::cmp::PartialEqSpecImpl for CrawlResult {
    open spec fn obeys_eq_spec() -> bool {
        true
    }

    /// The order in which a crawl was done with its URLs does not matter.
    open spec fn eq_spec(&self, other: &Self) -> bool {
        same_pages(self@, other@)
    }
}

impl Default for CrawlResult {
    fn default() -> (result: Self)
        ensures
            result@ == Seq::<(Seq<char>, PageResultView)>::empty(),
            result.is_valid(),
    {
        let result = CrawlResult { pages: Vec::new() };
        assert(result@ =~= Seq::<(Seq<char>, PageResultView)>::empty());
        result
    }
}

impl CrawlResult {
    /// Whether at most one thing is recorded of each URL.
    pub open spec fn is_valid(&self) -> bool {
        distinct_pages(self@)
    }

    fn position(&self, url: &WebUrl) -> (position: Option<usize>)
        ensures
            match position {
                Some(at) => at < self@.len() && self@[at as int].0 == url@,
                None => !has_page(self@, url@),
            },
    {
        let mut i: usize = 0;
        while i < self.pages.len()
            invariant
                i <= self.pages.len(),
                forall|j: int| 0 <= j < i ==> (#[trigger] self@[j]).0 != url@,
            decreases self.pages.len() - i,
        {
            assert(self@[i as int].0 == self.pages@[i as int].0@);
            if self.pages[i].0.same(url) {
                return Some(i);
            }
            i = i + 1;
        }
        assert(self@.len() == self.pages@.len());
        None
    }

    fn holds(&self, url: &WebUrl, result: &PageResult) -> (holds: bool)
        ensures
            holds == self@.contains((url@, result@)),
    {
        let mut i: usize = 0;
        while i < self.pages.len()
            invariant
                i <= self.pages.len(),
                forall|j: int| 0 <= j < i ==> #[trigger] self@[j] != (url@, result@),
            decreases self.pages.len() - i,
        {
            assert(self@[i as int] == (self.pages@[i as int].0@, self.pages@[i as int].1@));
            if self.pages[i].0.same(url) && self.pages[i].1.same(result) {
                return true;
            }
            i = i + 1;
        }
        false
    }

    /// Records what came of a URL, in place of anything recorded of it before.
    pub fn insert(&mut self, url: WebUrl, result: PageResult)
        requires
            old(self).is_valid(),
        ensures
            final(self).is_valid(),
            final(self)@ == with_page(old(self)@, url@, result@),
            final(self)@.contains((url@, result@)),
            old(self)@.len() <= final(self)@.len() <= old(self)@.len() + 1,
            final(self)@.len() == old(self)@.len() <==> exists|i: int|
                0 <= i < old(self)@.len() && (#[trigger] old(self)@[i]).0 == url@,
            forall|i: int|
                0 <= i < old(self)@.len() && (#[trigger] old(self)@[i]).0 != url@
                    ==> final(self)@[i] == old(self)@[i],
    {
        let ghost before = self@;
        match self.position(&url) {
            Some(at) => {
                let ghost text = url@;
                let ghost came = result@;
                proof {
                    assert(has_page(before, text));
                }
                self.pages.set(at, (url, result));
                proof {
                    assert(self@ =~= with_page(before, text, came));
                    assert(self@[at as int] == (text, came));
                }
            },
            None => {
                let ghost text = url@;
                let ghost came = result@;
                self.pages.push((url, result));
                proof {
                    assert(self@ =~= before.push((text, came)));
                    assert(self@[before.len() as int] == (text, came));
                }
            },
        }
    }

    /// How many URLs the crawl is done with.
    pub fn len(&self) -> (len: usize)
        ensures
            len == self@.len(),
    {
        self.pages.len()
    }

    /// What came of a URL.
    pub fn get(&self, url: &WebUrl) -> (result: Option<&PageResult>)
        requires
            self.is_valid(),
        ensures
            match result {
                Some(result) => self@.contains((url@, result@)),
                None => !has_page(self@, url@),
            },
            result is None <==> forall|i: int|
                0 <= i < self@.len() ==> (#[trigger] self@[i]).0 != url@,
    {
        match self.position(url) {
            Some(at) => {
                assert(self@[at as int] == (self.pages@[at as int].0@, self.pages@[at as int].1@));
                Some(&self.pages[at].1)
            },
            None => None,
        }
    }

    /// The URLs that the crawl is done with, each once.
    pub fn urls(&self) -> (urls: Vec<WebUrl>)
        ensures
            url_texts(urls@) == page_urls(self@),
            urls.len() == self@.len(),
            forall|i: int| 0 <= i < urls.len() ==> (#[trigger] urls@[i])@ == self@[i].0,
    {
        let mut urls: Vec<WebUrl> = Vec::new();
        let mut i: usize = 0;
        while i < self.pages.len()
            invariant
                i <= self.pages.len(),
                urls.len() == i,
                forall|j: int| 0 <= j < i ==> (#[trigger] urls@[j])@ == self.pages@[j].0@,
            decreases self.pages.len() - i,
        {
            urls.push(self.pages[i].0.clone());
            i = i + 1;
        }
        assert(url_texts(urls@) =~= page_urls(self@));
        urls
    }

    /// What came of each URL that the crawl is done with.
    pub fn pages(&self) -> (pages: &Vec<(WebUrl, PageResult)>)
        ensures
            page_views(pages@) == self@,
            pages.len() == self@.len(),
            forall|i: int|
                0 <= i < pages.len() ==> self@[i] == ((#[trigger] pages@[i]).0@, pages@[i].1@),
    {
        &self.pages
    }
}

/// Summary of a single crawl operation progress
#[derive(Debug, PartialEq, Eq)]
pub struct CrawlStatus {
    /// The url passed to the request
    pub seed: WebUrl,
    /// The number of urls processed
    pub done: usize,
    /// The number of urls seen but not processed, including both those in the
    /// queue and in being processed. This might go up before we done as we find
    /// new urls.
    pub todo: usize,
}

/// Summary of a crawl, by its text and numbers.
pub struct CrawlStatusView {
    pub seed: Seq<char>,
    pub done: nat,
    pub todo: nat,
}

impl View for CrawlStatus {
    type V = CrawlStatusView;

    open spec fn view(&self) -> CrawlStatusView {
        CrawlStatusView { seed: self.seed@, done: self.done as nat, todo: self.todo as nat }
    }
}

/// The summary of a crawl that started at a URL.
pub open spec fn status_of(seed: Seq<char>, crawl: CrawlView) -> CrawlStatusView {
    CrawlStatusView {
        seed,
        done: crawl.pages.len(),
        todo: (crawl.seen.len() - crawl.pages.len()) as nat,
    }
}

/// An example of a URL that a crawl can start at.
pub fn url_example() -> (example: String)
    ensures
        example@ == "http://example.com"@,
{
    "http://example.com".to_owned()
}

/// Where the robots.txt of the site of a URL is.
pub fn robots_url(seed: &WebUrl) -> (url: Result<WebUrl, ParseError>)
    ensures
        url_result(url) == url_joined(seed@, "/robots.txt"@),
        match url_joined(seed@, "/robots.txt"@) {
            Ok(joined) => url matches Ok(url) && url@ == joined,
            Err(message) => url matches Err(error) && error@ == message,
        },
{
    seed.join("/robots.txt")
}

/// What came of a URL, given the response to the request for it or the message of
/// what went wrong.
pub open spec fn digested(url: Seq<char>, response: Result<HttpResponseView, Seq<char>>) -> Result<
    PageResultView,
    IncompletePage,
> {
    match response {
        Ok(HttpResponseView::Html(body)) => match tokenized_links(url, html_tokenized(body)) {
            Ok(info) => Ok(PageResultView::Crawled(info)),
            Err(error) => Err(error),
        },
        Ok(HttpResponseView::ServerFailure(code, message)) => Ok(
            PageResultView::ServerFailure(code, message),
        ),
        Ok(HttpResponseView::Redirect(code, target)) => Ok(PageResultView::Redirect(code, target)),
        Ok(HttpResponseView::OtherContent(content_type)) => Ok(
            PageResultView::OtherContent(content_type),
        ),
        Err(message) => Ok(PageResultView::Error(message)),
    }
}

/// What a response, or the message of what went wrong, holds.
pub open spec fn response_view(response: Result<HttpResponse, String>) -> Result<
    HttpResponseView,
    Seq<char>,
> {
    match response {
        Ok(response) => Ok(response@),
        Err(message) => Err(message@),
    }
}

/// Whether a response holds no page that is too long to read.
pub open spec fn is_digestible(response: Result<HttpResponseView, Seq<char>>) -> bool {
    response matches Ok(HttpResponseView::Html(body)) ==> page_fits(body)
}

/// What a result of reading a response holds.
pub open spec fn digest_view(value: Result<PageResult, IncompletePage>) -> Result<
    PageResultView,
    IncompletePage,
> {
    match value {
        Ok(result) => Ok(result@),
        Err(error) => Err(error),
    }
}

/// Why the anchors of a page without a link give none, given the response that holds the
/// page. Another response has no anchors.
pub open spec fn digested_anchors(
    url: Seq<char>,
    response: Result<HttpResponseView, Seq<char>>,
) -> Seq<AnchorErrorView> {
    match response {
        Ok(HttpResponseView::Html(body)) => token_errors(url, html_tokenized(body).2),
        _ => Seq::empty(),
    }
}

/// Reads what came of a URL from the response to the request for it, or from the
/// message of what went wrong; and why the anchors of a page without a link give none,
/// in the order of the page.
pub fn digest_anchors(url: &WebUrl, response: Result<HttpResponse, String>) -> (digest: Result<
    (PageResult, Vec<AnchorError>),
    IncompletePage,
>)
    requires
        is_digestible(response_view(response)),
    ensures
        digest matches Ok(digest) && {
            &&& digested(url@, response_view(response)) == Ok::<PageResultView, IncompletePage>(
                digest.0@,
            )
            &&& error_views(digest.1@) == digested_anchors(url@, response_view(response))
            &&& is_sound(url@, digest.0@)
            &&& is_digested(url@, digest.0@)
            &&& match response {
                Ok(HttpResponse::Html(body)) => digest.0 matches PageResult::Crawled(info) && info@
                    == links_of_tokens(url@, html_tokenized(body@).2) && error_views(digest.1@)
                    == token_errors(url@, html_tokenized(body@).2),
                Ok(HttpResponse::ServerFailure(status, message)) => digest.0
                    == PageResult::ServerFailure(status, message) && digest.1.len() == 0,
                Ok(HttpResponse::Redirect(status, target)) => digest.0 == PageResult::Redirect(
                    status,
                    target,
                ) && digest.1.len() == 0,
                Ok(HttpResponse::OtherContent(content_type)) => digest.0
                    == PageResult::OtherContent(content_type) && digest.1.len() == 0,
                Err(message) => digest.0 == PageResult::Error(message) && digest.1.len() == 0,
            }
        },
{
    let none: Vec<AnchorError> = Vec::new();
    assert(error_views(none@) =~= Seq::<AnchorErrorView>::empty());
    match response {
        Ok(HttpResponse::Html(body)) => match parse_anchors(url, body.as_str()) {
            Ok(anchors) => {
                proof {
                    let tokens = html_tokenized(body@).2;
                    law_links_are_sorted(url@, token_links(url@, tokens));
                }
                Ok((PageResult::Crawled(anchors.info), anchors.unlinked))
            },
            Err(error) => Err(error),
        },
        Ok(HttpResponse::ServerFailure(status, message)) => Ok(
            (PageResult::ServerFailure(status, message), none),
        ),
        Ok(HttpResponse::Redirect(status, target)) => Ok(
            (PageResult::Redirect(status, target), none),
        ),
        Ok(HttpResponse::OtherContent(content_type)) => Ok(
            (PageResult::OtherContent(content_type), none),
        ),
        Err(message) => Ok((PageResult::Error(message), none)),
    }
}

/// Reads what came of a URL from the response to the request for it, or from the
/// message of what went wrong.
pub fn digest(url: &WebUrl, response: Result<HttpResponse, String>) -> (result: Result<
    PageResult,
    IncompletePage,
>)
    requires
        is_digestible(response_view(response)),
    ensures
        digest_view(result) == digested(url@, response_view(response)),
        result is Ok,
        result matches Ok(result) ==> is_sound(url@, result@) && is_digested(url@, result@),
        result matches Ok(result) && match response {
            Ok(HttpResponse::Html(body)) => result matches PageResult::Crawled(info) && info@
                == links_of_tokens(url@, html_tokenized(body@).2),
            Ok(HttpResponse::ServerFailure(status, message)) => result == PageResult::ServerFailure(
                status,
                message,
            ),
            Ok(HttpResponse::Redirect(status, target)) => result == PageResult::Redirect(
                status,
                target,
            ),
            Ok(HttpResponse::OtherContent(content_type)) => result == PageResult::OtherContent(
                content_type,
            ),
            Err(message) => result == PageResult::Error(message),
        },
{
    match digest_anchors(url, response) {
        Ok((result, _)) => Ok(result),
        Err(error) => Err(error),
    }
}

fn position_of(urls: &Vec<WebUrl>, url: &WebUrl) -> (position: Option<usize>)
    ensures
        match position {
            Some(at) => {
                &&& at < urls.len() && url_texts(urls@)[at as int] == url@
                &&& forall|j: int| 0 <= j < at ==> #[trigger] url_texts(urls@)[j] != url@
            },
            None => !url_texts(urls@).contains(url@),
        },
{
    let mut i: usize = 0;
    while i < urls.len()
        invariant
            i <= urls.len(),
            forall|j: int| 0 <= j < i ==> (#[trigger] urls@[j])@ != url@,
        decreases urls.len() - i,
    {
        if urls[i].same(url) {
            return Some(i);
        }
        i = i + 1;
    }
    proof {
        let texts = url_texts(urls@);
        if texts.contains(url@) {
            let j = texts.index_of(url@);
            assert(urls@[j]@ == url@);
        }
    }
    None
}

proof fn lemma_remove_text(urls: Seq<WebUrl>, at: int)
    requires
        0 <= at < urls.len(),
    ensures
        url_texts(urls.remove(at)) == url_texts(urls).remove(at),
{
    assert(url_texts(urls.remove(at)) =~= url_texts(urls).remove(at));
}

proof fn lemma_record_finds(crawl: CrawlView, url: Seq<char>, result: PageResult)
    ensures
        crawl.record(url, result@).pages.contains((url, result@)),
        forall|found: Seq<char>| #[trigger]
            crawl.seen.contains(found) ==> crawl.record(url, result@).seen.contains(found),
        result matches PageResult::Crawled(info) ==> forall|i: int|
            0 <= i < info.internal_links.len() ==> crawl.record(url, result@).seen.contains(
                url_defragmented((#[trigger] info.internal_links@[i])@),
            ),
        result matches PageResult::Redirect(_, target) ==> url_domain(target@) == url_domain(url)
            ==> crawl.record(url, result@).seen.contains(target@),
        forall|found: Seq<char>| #[trigger]
            crawl.record(url, result@).seen.contains(found) && !crawl.seen.contains(found)
                ==> match result {
                PageResult::Crawled(info) => exists|i: int|
                    0 <= i < info.internal_links.len() && found == url_defragmented(
                        (#[trigger] info.internal_links@[i])@,
                    ),
                PageResult::Redirect(_, target) => found == target@ && url_domain(target@)
                    == url_domain(url),
                _ => false,
            },
{
    law_a_recorded_url_has_its_record(crawl, url, result@);
    law_recording_leaves_the_others_alone(crawl, url, result@);
    match result {
        PageResult::Crawled(info) => {
            law_internal_links_are_found(crawl, url, info@);
            assert forall|i: int| 0 <= i < info.internal_links.len() implies crawl.record(
                url,
                result@,
            ).seen.contains(url_defragmented((#[trigger] info.internal_links@[i])@)) by {
                assert(info@.internal_links[i] == info.internal_links@[i]@);
            }
        },
        PageResult::Redirect(status, target) => {
            if url_domain(target@) == url_domain(url) {
                law_redirections_on_the_domain_are_found(crawl, url, status.code, target@);
            }
        },
        _ => {},
    }
    assert forall|found: Seq<char>| #[trigger]
        crawl.record(url, result@).seen.contains(found) && !crawl.seen.contains(
            found,
        ) implies match result {
        PageResult::Crawled(info) => exists|i: int|
            0 <= i < info.internal_links.len() && found == url_defragmented(
                (#[trigger] info.internal_links@[i])@,
            ),
        PageResult::Redirect(_, target) => found == target@ && url_domain(target@) == url_domain(
            url,
        ),
        _ => false,
    } by {
        law_nothing_else_is_found(crawl, url, result@, found);
        if let PageResult::Crawled(info) = result {
            let i = choose|i: int|
                0 <= i < info@.internal_links.len() && found == url_defragmented(
                    #[trigger] info@.internal_links[i],
                );
            assert(info@.internal_links[i] == info.internal_links@[i]@);
        }
    }
}

/// What a crawl asks for next.
#[derive(Debug, PartialEq, Eq)]
pub enum CrawlAction {
    /// Fetch a URL.
    Fetch(WebUrl),
    /// Wait until the fetching of a URL has ended.
    Wait,
    /// End the crawl.
    Finish,
}

/// A crawl in progress.
#[derive(Debug)]
pub struct Crawl {
    robots: Option<String>,
    seen: Vec<WebUrl>,
    todo: Vec<WebUrl>,
    in_flight: Vec<WebUrl>,
    result: CrawlResult,
}

impl View for Crawl {
    type V = CrawlView;

    closed spec fn view(&self) -> CrawlView {
        CrawlView {
            robots: optional_text(self.robots),
            seen: url_texts(self.seen@),
            todo: url_texts(self.todo@),
            in_flight: url_texts(self.in_flight@),
            pages: self.result@,
        }
    }
}

impl Crawl {
    /// What every operation on a crawl needs: a robots.txt that can be read, and records
    /// of URLs that were seen, at most one of each.
    pub open spec fn is_well_formed(&self) -> bool {
        &&& self@.records_what_was_seen()
        &&& self@.robots matches Some(robots) ==> is_readable(robots)
    }

    /// What holds of every crawl.
    pub open spec fn is_valid(&self) -> bool {
        &&& self@.is_valid()
        &&& self@.robots matches Some(robots) ==> is_readable(robots)
    }

    /// A crawl that has found nothing, of a site with or without a robots.txt.
    pub fn new(robots: Option<String>) -> (crawl: Crawl)
        requires
            robots matches Some(robots) ==> is_readable(robots@),
        ensures
            crawl.is_valid(),
            crawl@ == CrawlView::empty(optional_text(robots)),
    {
        let crawl = Crawl {
            robots,
            seen: Vec::new(),
            todo: Vec::new(),
            in_flight: Vec::new(),
            result: CrawlResult::default(),
        };
        proof {
            lemma_begin_valid(Seq::empty(), crawl@.robots);
            assert(url_texts(Seq::<WebUrl>::empty()) =~= Seq::<Seq<char>>::empty());
        }
        crawl
    }

    /// Whether the robots.txt of the site lets the crawler fetch a URL.
    pub fn allowed_by_robots(&self, url: &WebUrl) -> (allows: bool)
        requires
            self.is_well_formed(),
        ensures
            allows == is_allowed(self@.robots, url@),
            self@.robots matches Some(robots) ==> allows == robots_allow(
                robots,
                "MikesCrawler"@,
                url@,
            ),
            self@.robots is None ==> allows,
    {
        allowed(&self.robots, url.as_str())
    }

    /// Takes note of a URL that was found: a new one waits to be fetched, or is done
    /// with at once where the robots.txt excludes it.
    pub fn add_link(&mut self, found: &WebUrl)
        requires
            old(self).is_well_formed(),
        ensures
            final(self).is_well_formed(),
            final(self)@ == old(self)@.add_link(found@),
            old(self).is_valid() ==> final(self).is_valid(),
            final(self)@.seen.contains(found@),
            !old(self)@.seen.contains(found@) && (old(self)@.robots matches Some(robots)
                ==> robots_allow(robots, "MikesCrawler"@, found@)) ==> final(self)@.todo == old(
                self,
            )@.todo.push(found@) && final(self)@.pages == old(self)@.pages,
            !old(self)@.seen.contains(found@) && (old(self)@.robots matches Some(robots)
                && !robots_allow(robots, "MikesCrawler"@, found@)) ==> final(self)@.todo == old(
                self,
            )@.todo && final(self)@.pages == old(self)@.pages.push(
                (found@, PageResultView::ExcludedByRobotsTxt),
            ),
    {
        proof {
            lemma_contains_push(self@.seen, found@);
            lemma_add_link_well_formed(self@, found@);
            if self@.is_valid() {
                lemma_add_link_valid(self@, found@);
            }
        }
        let ghost before = self@;
        if position_of(&self.seen, found).is_none() {
            assert(!before.seen.contains(found@));
            assert(!has_page(before.pages, found@));
            let ghost seen = self.seen@;
            let copy: WebUrl = found.clone();
            proof {
                lemma_push_text(seen, copy);
            }
            self.seen.push(copy);
            assert(self@.robots == before.robots);
            if allowed(&self.robots, found.as_str()) {
                let copy: WebUrl = found.clone();
                proof {
                    lemma_push_text(self.todo@, copy);
                }
                self.todo.push(copy);
            } else {
                self.result.insert(found.clone(), PageResult::ExcludedByRobotsTxt);
            }
        } else {
            assert(before.seen.contains(found@));
        }
    }

    /// Hands out the next URL to fetch. There is none while as many are being
    /// fetched as may be, or when none waits.
    pub fn next_fetch(&mut self) -> (next: Option<WebUrl>)
        requires
            old(self).is_valid(),
        ensures
            final(self).is_valid(),
            match next {
                Some(url) => {
                    &&& old(self)@.can_fetch()
                    &&& url@ == old(self)@.todo[0]
                    &&& final(self)@ == old(self)@.fetch()
                },
                None => !old(self)@.can_fetch() && final(self)@ == old(self)@,
            },
            next is Some <==> old(self)@.todo.len() > 0 && old(self)@.in_flight.len() < 20,
            next matches Some(url) ==> final(self)@.in_flight == old(self)@.in_flight.push(url@)
                && old(self)@.todo == seq![url@] + final(self)@.todo,
    {
        if self.todo.len() == 0 || self.in_flight.len() >= MAX_IN_FLIGHT {
            return None;
        }
        proof {
            lemma_fetch_valid(self@);
            lemma_remove_text(self.todo@, 0);
            assert(self@.todo.drop_first() =~= self@.todo.remove(0));
        }
        let ghost before = self@;
        let url: WebUrl = self.todo.remove(0);
        let copy: WebUrl = url.clone();
        proof {
            lemma_push_text(self.in_flight@, copy);
        }
        self.in_flight.push(copy);
        assert(self@ == before.fetch());
        assert(before.todo =~= seq![url@] + self@.todo);
        Some(url)
    }

    fn add_links(&mut self, links: &Vec<WebUrl>)
        requires
            old(self).is_well_formed(),
        ensures
            final(self).is_well_formed(),
            final(self)@ == old(self)@.add_links(
                url_texts(links@).map_values(|link: Seq<char>| url_defragmented(link)),
            ),
            forall|i: int|
                0 <= i < links.len() ==> url_domain(url_defragmented((#[trigger] links@[i])@))
                    == url_domain(links@[i]@),
    {
        let ghost texts = url_texts(links@).map_values(
            |link: Seq<char>| url_defragmented(link),
        );
        let ghost before = self@;
        let mut i: usize = 0;
        assert(texts.take(0) =~= Seq::<Seq<char>>::empty());
        while i < links.len()
            invariant
                i <= links.len(),
                texts == url_texts(links@).map_values(
                    |link: Seq<char>| url_defragmented(link),
                ),
                self.is_well_formed(),
                self@ == before.add_links(texts.take(i as int)),
                forall|j: int|
                    0 <= j < i ==> url_domain(url_defragmented((#[trigger] links@[j])@)) == url_domain(
                        links@[j]@,
                    ),
            decreases links.len() - i,
        {
            let found: WebUrl = links[i].without_fragment();
            proof {
                assert(texts.take(i + 1).drop_last() =~= texts.take(i as int));
                assert(texts.take(i + 1).last() == found@);
            }
            self.add_link(&found);
            i = i + 1;
        }
        assert(texts.take(texts.len() as int) =~= texts);
    }

    /// Takes note of what came of a URL that was seen, and of what leads on from it. A
    /// crawl that is on one domain stays on it.
    pub fn record(&mut self, url: WebUrl, result: PageResult)
        requires
            old(self).is_well_formed(),
            old(self)@.seen.contains(url@),
            is_sound(url@, result@),
        ensures
            final(self).is_well_formed(),
            final(self)@ == old(self)@.record(url@, result@),
            old(self).is_valid() && old(self)@.can_record(url@, result@) ==> final(self).is_valid(),
            forall|domain: Option<Seq<char>>| #[trigger]
                old(self)@.on_domain(domain) ==> final(self)@.on_domain(domain),
            final(self)@.pages.contains((url@, result@)),
            forall|found: Seq<char>| #[trigger]
                old(self)@.seen.contains(found) ==> final(self)@.seen.contains(found),
            result matches PageResult::Crawled(info) ==> forall|i: int|
                0 <= i < info.internal_links.len() ==> final(self)@.seen.contains(
                    url_defragmented((#[trigger] info.internal_links@[i])@),
                ),
            result matches PageResult::Redirect(_, target) ==> url_domain(target@) == url_domain(
                url@,
            ) ==> final(self)@.seen.contains(target@),
            forall|found: Seq<char>| #[trigger]
                final(self)@.seen.contains(found) && !old(self)@.seen.contains(found)
                    ==> match result {
                    PageResult::Crawled(info) => exists|i: int|
                        0 <= i < info.internal_links.len() && found == url_defragmented(
                            (#[trigger] info.internal_links@[i])@,
                        ),
                    PageResult::Redirect(_, target) => found == target@ && url_domain(target@)
                        == url_domain(url@),
                    _ => false,
                },
    {
        proof {
            lemma_record_finds(self@, url@, result);
        }
        let ghost before = self@;
        let ghost urls = leads_on(url@, result@);
        proof {
            lemma_add_links_well_formed(before, urls);
            if before.is_valid() && before.can_record(url@, result@) {
                lemma_record_valid(before, url@, result@);
            }
        }
        match &result {
            PageResult::Crawled(info) => {
                self.add_links(&info.internal_links);
            },
            PageResult::Redirect(_, target) => {
                if target.same_domain(&url) {
                    self.add_link(target);
                    proof {
                        assert(urls =~= seq![target@]);
                        assert(urls.drop_last() =~= Seq::<Seq<char>>::empty());
                        reveal_with_fuel(CrawlView::add_links, 2);
                    }
                }
            },
            _ => {},
        }
        assert(self@ == before.add_links(urls));
        let ghost found = self@;
        proof {
            assert forall|domain: Option<Seq<char>>| #[trigger]
                before.on_domain(domain) implies found.on_domain(domain) by {
                assert(url_domain(url@) == domain);
                assert forall|i: int| 0 <= i < urls.len() implies url_domain(#[trigger] urls[i])
                    == domain by {
                    if let PageResult::Crawled(info) = result {
                        assert(result@->Crawled_0.internal_links[i] == info.internal_links@[i]@);
                    }
                }
                lemma_add_links_on_domain(before, urls, domain);
            }
            lemma_with_page_well_formed(found, url@, result@);
        }
        self.remove_in_flight(&url);
        self.result.insert(url, result);
    }

    fn remove_in_flight(&mut self, url: &WebUrl)
        ensures
            final(self)@ == (CrawlView {
                in_flight: without(old(self)@.in_flight, url@),
                ..old(self)@
            }),
    {
        if let Some(at) = position_of(&self.in_flight, url) {
            proof {
                lemma_remove_text(self.in_flight@, at as int);
                assert(self@.in_flight.contains(url@));
                self@.in_flight.index_of_first_ensures(url@);
                let first = self@.in_flight.index_of_first(url@)->0;
                assert(first == at) by {
                    if first > at {
                        assert(self@.in_flight[at as int] == url@);
                    }
                }
            }
            let _ = self.in_flight.remove(at);
        }
    }

    /// Takes note of the response to the request for a URL that was seen, or of the
    /// message of what went wrong.
    pub fn step(&mut self, url: WebUrl, response: Result<HttpResponse, String>) -> (stepped: Result<
        (),
        IncompletePage,
    >)
        requires
            old(self).is_well_formed(),
            old(self)@.seen.contains(url@),
            is_digestible(response_view(response)),
        ensures
            final(self).is_well_formed(),
            stepped is Ok,
            digested(url@, response_view(response)) matches Ok(result) && final(self)@ == old(
                self,
            )@.record(url@, result),
            match response {
                Ok(HttpResponse::Html(body)) => {
                    let info = links_of_tokens(url@, html_tokenized(body@).2);
                    &&& final(self)@.pages.contains((url@, PageResultView::Crawled(info)))
                    &&& forall|i: int|
                        0 <= i < info.internal_links.len() ==> final(self)@.seen.contains(
                            url_defragmented(#[trigger] info.internal_links[i]),
                        )
                },
                Ok(HttpResponse::ServerFailure(status, message)) => final(self)@.pages.contains(
                    (url@, PageResultView::ServerFailure(status.code, message@)),
                ),
                Ok(HttpResponse::Redirect(status, target)) => {
                    &&& final(self)@.pages.contains(
                        (url@, PageResultView::Redirect(status.code, target@)),
                    )
                    &&& url_domain(target@) == url_domain(url@) ==> final(self)@.seen.contains(
                        target@,
                    )
                },
                Ok(HttpResponse::OtherContent(content_type)) => final(self)@.pages.contains(
                    (url@, PageResultView::OtherContent(content_type@)),
                ),
                Err(message) => final(self)@.pages.contains(
                    (url@, PageResultView::Error(message@)),
                ),
            },
            old(self).is_valid() && old(self)@.in_flight.contains(url@) ==> final(self).is_valid(),
            forall|domain: Option<Seq<char>>| #[trigger]
                old(self)@.on_domain(domain) ==> final(self)@.on_domain(domain),
    {
        match digest(&url, response) {
            Ok(result) => {
                self.record(url, result);
                Ok(())
            },
            Err(error) => Err(error),
        }
    }

    /// Whether everything that was found is done with.
    pub fn is_done(&self) -> (done: bool)
        ensures
            done == self@.is_done(),
            done <==> self@.pages.len() == self@.seen.len(),
    {
        self.result.len() == self.seen.len()
    }

    /// Says what to do next. The crawl is to end when everything that was found is
    /// done with; until that, as many URLs are to be fetched at the same time as may
    /// be.
    pub fn next_action(&mut self) -> (action: CrawlAction)
        requires
            old(self).is_valid(),
        ensures
            final(self).is_valid(),
            match action {
                CrawlAction::Fetch(url) => {
                    &&& old(self)@.can_fetch()
                    &&& url@ == old(self)@.todo[0]
                    &&& final(self)@ == old(self)@.fetch()
                },
                CrawlAction::Wait => {
                    &&& !old(self)@.is_done() && !old(self)@.can_fetch()
                    &&& old(self)@.in_flight.len() > 0
                    &&& final(self)@ == old(self)@
                },
                CrawlAction::Finish => old(self)@.is_done() && final(self)@ == old(self)@,
            },
            action is Finish <==> old(self)@.pages.len() == old(self)@.seen.len(),
            action is Fetch <==> old(self)@.todo.len() > 0 && old(self)@.in_flight.len() < 20,
            action matches CrawlAction::Fetch(url) ==> final(self)@.in_flight == old(
                self,
            )@.in_flight.push(url@) && old(self)@.todo == seq![url@] + final(self)@.todo,
    {
        if self.is_done() {
            return CrawlAction::Finish;
        }
        match self.next_fetch() {
            Some(url) => CrawlAction::Fetch(url),
            None => CrawlAction::Wait,
        }
    }

    /// The progress of the crawl, which started at a URL.
    pub fn status(&self, seed: &WebUrl) -> (status: CrawlStatus)
        requires
            self.is_valid(),
        ensures
            status@ == status_of(seed@, self@),
            status.seed@ == seed@,
            status.done == self@.pages.len(),
            status.todo == self@.todo.len() + self@.in_flight.len(),
    {
        proof {
            law_status_counts_what_was_found(seed@, self@);
        }
        CrawlStatus {
            seed: seed.clone(),
            done: self.result.len(),
            todo: self.seen.len() - self.result.len(),
        }
    }

    /// What came of each URL that the crawl is done with.
    pub fn into_result(self) -> (result: CrawlResult)
        ensures
            result@ == self@.pages,
    {
        self.result
    }
}

} // verus!
