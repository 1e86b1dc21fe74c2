//! What is made of a response and of a page, said of statuses, headers, tags and
//! attributes themselves.
use vstd::prelude::*;
use vstd::utf8::encode_utf8;

use crate::crawl_model::{PageResultView, lemma_contains_push};
use crate::crawler::{PageResult, digested, digested_anchors, page_views};
use crate::html::{HtmlToken, Tag, TagKind, html_tokenized, page_fits};
use crate::http_client::{
    FetchErrorView, GetPlanView, HttpResponseView, get_plan, is_visible, mime_parsed,
};
use crate::link_extractor::{
    AnchorError, AnchorErrorView, IncompletePage, PageInfoView, error_views, first_href,
    lemma_first_href, lemma_sorted_push, links_of_tokens, token_errors, token_link, token_links,
    tokenized_anchors, tokenized_links, url_texts,
};
use crate::urls::{WebUrl, url_domain, url_joined};

verus! {

/// A tag is seen as it is: whether it opens an element, its name, and every attribute with
/// its name and value, in order. A token that is no tag is seen as none.
pub proof fn law_a_tag_is_seen_as_it_is(tag: Tag)
    ensures
        tag@.0 <==> tag.kind == TagKind::StartTag,
        tag@.1 == tag.name@,
        tag@.2.len() == tag.attrs.len(),
        forall|i: int|
            0 <= i < tag.attrs.len() ==> tag@.2[i] == (
                (#[trigger] tag.attrs@[i]).name@,
                tag.attrs@[i].value@,
            ),
        HtmlToken::TagToken(tag)@ == Some(tag@),
        HtmlToken::OtherToken@ is None,
{
}

/// Lists of URLs, of records and of errors are seen item by item, in order.
pub proof fn law_lists_are_seen_item_by_item(
    urls: Seq<WebUrl>,
    pages: Seq<(WebUrl, PageResult)>,
    errors: Seq<AnchorError>,
)
    ensures
        url_texts(urls).len() == urls.len(),
        forall|i: int| 0 <= i < urls.len() ==> url_texts(urls)[i] == (#[trigger] urls[i])@,
        page_views(pages).len() == pages.len(),
        forall|i: int|
            0 <= i < pages.len() ==> page_views(pages)[i] == (
                (#[trigger] pages[i]).0@,
                pages[i].1@,
            ),
        error_views(errors).len() == errors.len(),
        forall|i: int|
            0 <= i < errors.len() ==> match #[trigger] errors[i] {
                AnchorError::NoHref => error_views(errors)[i] == AnchorErrorView::NoHref,
                AnchorError::BadHref(error) => error_views(errors)[i] == AnchorErrorView::BadHref(
                    error@,
                ),
            },
{
}

/// A page without tokens has no links, and no anchors without one.
pub proof fn law_a_page_without_tokens_has_no_links(page: Seq<char>)
    ensures
        links_of_tokens(page, Seq::empty()).internal_links.len() == 0,
        links_of_tokens(page, Seq::empty()).external_links.len() == 0,
        token_errors(page, Seq::empty()).len() == 0,
{
    reveal(Seq::filter);
}

/// A token that opens an element called `a`, with any attributes among which the first
/// called `href` leads somewhere, adds where it leads to the links of a page: to the
/// internal links where that has the domain of the page, else to the external links.
/// Where it leads nowhere, the token adds the reason.
pub proof fn law_an_anchor_adds_its_link(
    page: Seq<char>,
    tokens: Seq<Option<(bool, Seq<char>, Seq<(Seq<char>, Seq<char>)>)>>,
    attrs: Seq<(Seq<char>, Seq<char>)>,
    at: int,
)
    requires
        0 <= at < attrs.len(),
        attrs[at].0 == "href"@,
        forall|i: int| 0 <= i < at ==> (#[trigger] attrs[i]).0 != "href"@,
    ensures
        ({
            let before = links_of_tokens(page, tokens);
            let after = links_of_tokens(page, tokens.push(Some((true, "a"@, attrs))));
            let errors = token_errors(page, tokens);
            let errors_after = token_errors(page, tokens.push(Some((true, "a"@, attrs))));
            match url_joined(page, attrs[at].1) {
                Ok(link) => {
                    &&& url_domain(link) == url_domain(page) ==> after.internal_links
                        == before.internal_links.push(link) && after.external_links
                        == before.external_links
                    &&& url_domain(link) != url_domain(page) ==> after.internal_links
                        == before.internal_links && after.external_links
                        == before.external_links.push(link)
                    &&& errors_after == errors
                },
                Err(message) => {
                    &&& after == before
                    &&& errors_after == errors.push(AnchorErrorView::BadHref(message))
                },
            }
        }),
{
    lemma_first_href(attrs, at);
    assert(attrs.skip(at)[0] == attrs[at]);
    assert(tokens.push(Some((true, "a"@, attrs))).drop_last() =~= tokens);
    if let Ok(link) = url_joined(page, attrs[at].1) {
        lemma_sorted_push(page, token_links(page, tokens), link);
    }
}

/// A token that opens an element called `a` without an attribute called `href` adds no
/// link, and says why.
pub proof fn law_an_anchor_without_href_adds_a_reason(
    page: Seq<char>,
    tokens: Seq<Option<(bool, Seq<char>, Seq<(Seq<char>, Seq<char>)>)>>,
    attrs: Seq<(Seq<char>, Seq<char>)>,
)
    requires
        forall|i: int| 0 <= i < attrs.len() ==> (#[trigger] attrs[i]).0 != "href"@,
    ensures
        links_of_tokens(page, tokens.push(Some((true, "a"@, attrs)))) == links_of_tokens(
            page,
            tokens,
        ),
        token_errors(page, tokens.push(Some((true, "a"@, attrs)))) == token_errors(
            page,
            tokens,
        ).push(AnchorErrorView::NoHref),
{
    lemma_first_href(attrs, attrs.len() as int);
    assert(tokens.push(Some((true, "a"@, attrs))).drop_last() =~= tokens);
}

/// A token that is no tag, a tag that closes an element, and a tag that is not called
/// `a` add nothing to what is found on a page.
pub proof fn law_nothing_but_an_anchor_adds_anything(
    page: Seq<char>,
    tokens: Seq<Option<(bool, Seq<char>, Seq<(Seq<char>, Seq<char>)>)>>,
    token: Option<(bool, Seq<char>, Seq<(Seq<char>, Seq<char>)>)>,
)
    requires
        token matches Some(tag) ==> !tag.0 || tag.1 != "a"@,
    ensures
        links_of_tokens(page, tokens.push(token)) == links_of_tokens(page, tokens),
        token_errors(page, tokens.push(token)) == token_errors(page, tokens),
{
    assert(tokens.push(token).drop_last() =~= tokens);
}

proof fn lemma_links_only_grow(
    page: Seq<char>,
    tokens: Seq<Option<(bool, Seq<char>, Seq<(Seq<char>, Seq<char>)>)>>,
    link: Seq<char>,
)
    requires
        tokens.len() > 0,
    ensures
        links_of_tokens(page, tokens.drop_last()).internal_links.contains(link)
            ==> links_of_tokens(page, tokens).internal_links.contains(link),
        links_of_tokens(page, tokens.drop_last()).external_links.contains(link)
            ==> links_of_tokens(page, tokens).external_links.contains(link),
{
    let rest = tokens.drop_last();
    let before = links_of_tokens(page, rest);
    let after = links_of_tokens(page, tokens);
    if let Some(last) = token_link(page, tokens.last()) {
        lemma_sorted_push(page, token_links(page, rest), last);
        lemma_contains_push(before.internal_links, last);
        lemma_contains_push(before.external_links, last);
    }
}

/// Where an anchor of a page leads, by the first of its attributes called `href`, is
/// among the internal links of the page where it has the domain of the page, and among
/// the external links where it has not, whatever other attributes the anchor has and
/// whatever else is on the page.
pub proof fn law_every_anchor_with_a_link_is_found(
    page: Seq<char>,
    tokens: Seq<Option<(bool, Seq<char>, Seq<(Seq<char>, Seq<char>)>)>>,
    which: int,
    attrs: Seq<(Seq<char>, Seq<char>)>,
    at: int,
    link: Seq<char>,
)
    requires
        0 <= which < tokens.len(),
        tokens[which] == Some((true, "a"@, attrs)),
        0 <= at < attrs.len(),
        attrs[at].0 == "href"@,
        forall|i: int| 0 <= i < at ==> (#[trigger] attrs[i]).0 != "href"@,
        url_joined(page, attrs[at].1) == Ok::<Seq<char>, Seq<char>>(link),
    ensures
        url_domain(link) == url_domain(page) ==> links_of_tokens(
            page,
            tokens,
        ).internal_links.contains(link),
        url_domain(link) != url_domain(page) ==> links_of_tokens(
            page,
            tokens,
        ).external_links.contains(link),
    decreases tokens.len(),
{
    let rest = tokens.drop_last();
    if which == tokens.len() - 1 {
        assert(rest.push(tokens[which]) =~= tokens);
        law_an_anchor_adds_its_link(page, rest, attrs, at);
        let before = links_of_tokens(page, rest);
        lemma_contains_push(before.internal_links, link);
        lemma_contains_push(before.external_links, link);
    } else {
        law_every_anchor_with_a_link_is_found(page, rest, which, attrs, at, link);
        lemma_links_only_grow(page, tokens, link);
    }
}

/// Every link of a page is where one of its anchors leads, by the first of its attributes
/// called `href`. The internal links have the domain of the page, the external links
/// have not.
pub proof fn law_every_link_is_of_an_anchor(
    page: Seq<char>,
    tokens: Seq<Option<(bool, Seq<char>, Seq<(Seq<char>, Seq<char>)>)>>,
    link: Seq<char>,
)
    requires
        links_of_tokens(page, tokens).internal_links.contains(link) || links_of_tokens(
            page,
            tokens,
        ).external_links.contains(link),
    ensures
        links_of_tokens(page, tokens).internal_links.contains(link) <==> url_domain(link)
            == url_domain(page),
        exists|which: int, attrs: Seq<(Seq<char>, Seq<char>)>, at: int|
            {
                &&& 0 <= which < tokens.len()
                &&& #[trigger] tokens[which] == Some((true, "a"@, attrs))
                &&& 0 <= at < attrs.len()
                &&& (#[trigger] attrs[at]).0 == "href"@
                &&& forall|i: int| 0 <= i < at ==> (#[trigger] attrs[i]).0 != "href"@
                &&& url_joined(page, attrs[at].1) == Ok::<Seq<char>, Seq<char>>(link)
            },
    decreases tokens.len(),
{
    reveal(Seq::filter);
    if tokens.len() > 0 {
        let rest = tokens.drop_last();
        let before = links_of_tokens(page, rest);
        let after = links_of_tokens(page, tokens);
        match token_link(page, tokens.last()) {
            Some(last) => {
                lemma_sorted_push(page, token_links(page, rest), last);
                lemma_contains_push(before.internal_links, last);
                lemma_contains_push(before.external_links, last);
                if before.internal_links.contains(link) || before.external_links.contains(link) {
                    law_every_link_is_of_an_anchor(page, rest, link);
                    let (which, attrs, at) = choose|
                        which: int,
                        attrs: Seq<(Seq<char>, Seq<char>)>,
                        at: int,
                    |
                        {
                            &&& 0 <= which < rest.len()
                            &&& #[trigger] rest[which] == Some((true, "a"@, attrs))
                            &&& 0 <= at < attrs.len()
                            &&& (#[trigger] attrs[at]).0 == "href"@
                            &&& forall|i: int| 0 <= i < at ==> (#[trigger] attrs[i]).0 != "href"@
                            &&& url_joined(page, attrs[at].1) == Ok::<Seq<char>, Seq<char>>(link)
                        };
                    assert(tokens[which] == rest[which]);
                    assert(attrs[at].0 == "href"@);
                } else {
                    assert(link == last);
                    let tag = tokens[tokens.len() - 1]->0;
                    let attrs = tag.2;
                    let at = lemma_place_of_href(attrs);
                    assert(tokens[tokens.len() - 1] == Some((true, "a"@, attrs)));
                    assert(attrs[at].0 == "href"@);
                }
            },
            None => {
                law_every_link_is_of_an_anchor(page, rest, link);
                let (which, attrs, at) = choose|
                    which: int,
                    attrs: Seq<(Seq<char>, Seq<char>)>,
                    at: int,
                |
                    {
                        &&& 0 <= which < rest.len()
                        &&& #[trigger] rest[which] == Some((true, "a"@, attrs))
                        &&& 0 <= at < attrs.len()
                        &&& (#[trigger] attrs[at]).0 == "href"@
                        &&& forall|i: int| 0 <= i < at ==> (#[trigger] attrs[i]).0 != "href"@
                        &&& url_joined(page, attrs[at].1) == Ok::<Seq<char>, Seq<char>>(link)
                    };
                assert(tokens[which] == rest[which]);
                assert(attrs[at].0 == "href"@);
            },
        }
    }
}

proof fn lemma_place_of_href(attrs: Seq<(Seq<char>, Seq<char>)>) -> (at: int)
    requires
        first_href(attrs) is Some,
    ensures
        0 <= at < attrs.len(),
        attrs[at].0 == "href"@,
        first_href(attrs) == Some(attrs[at].1),
        forall|i: int| 0 <= i < at ==> (#[trigger] attrs[i]).0 != "href"@,
    decreases attrs.len(),
{
    if attrs[0].0 == "href"@ {
        0
    } else {
        let rest = attrs.drop_first();
        let at = lemma_place_of_href(rest) + 1;
        assert(rest[at - 1] == attrs[at]);
        assert forall|i: int| 0 <= i < at implies (#[trigger] attrs[i]).0 != "href"@ by {
            if i > 0 {
                assert(rest[i - 1] == attrs[i]);
            }
        }
        at
    }
}

/// A page is read in full or not at all: its links, and why its anchors without a link
/// give none, are those of its tokens where the tokenizer was done and left nothing.
pub proof fn law_a_page_is_read_in_full(
    page: Seq<char>,
    done: bool,
    used_up: bool,
    tokens: Seq<Option<(bool, Seq<char>, Seq<(Seq<char>, Seq<char>)>)>>,
)
    ensures
        done && used_up ==> tokenized_links(page, (done, used_up, tokens)) == Ok::<
            PageInfoView,
            IncompletePage,
        >(links_of_tokens(page, tokens)) && tokenized_anchors(page, (done, used_up, tokens))
            == Ok::<(PageInfoView, Seq<AnchorErrorView>), IncompletePage>(
            (links_of_tokens(page, tokens), token_errors(page, tokens)),
        ),
        !done || !used_up ==> tokenized_links(page, (done, used_up, tokens)) is Err
            && tokenized_anchors(page, (done, used_up, tokens)) is Err,
{
}

/// A response that met the request is read as a page exactly where its content type is
/// visible ASCII and a media type of essence `text/html`; of any other media type the
/// whole text is kept.
pub proof fn law_the_content_type_decides(
    url: Seq<char>,
    code: u16,
    content_type: Seq<u8>,
    location: Option<Seq<u8>>,
)
    requires
        200 <= code < 300,
    ensures
        ({
            let plan = get_plan(url, code, Some(content_type), location);
            let visible = forall|i: int|
                0 <= i < content_type.len() ==> 32 <= #[trigger] content_type[i] < 127
                    || content_type[i] == 9;
            let text = Seq::new(content_type.len(), |i: int| content_type[i] as char);
            &&& visible ==> match mime_parsed(text) {
                Ok((essence, full)) => {
                    &&& essence == "text/html"@ ==> plan == Ok::<GetPlanView, FetchErrorView>(
                        GetPlanView::ReadHtml,
                    )
                    &&& essence != "text/html"@ ==> plan == Ok::<GetPlanView, FetchErrorView>(
                        GetPlanView::Respond(HttpResponseView::OtherContent(full)),
                    )
                },
                Err(message) => plan == Err::<GetPlanView, FetchErrorView>(
                    FetchErrorView::BadContentType(message),
                ),
            }
            &&& !visible ==> plan == Err::<GetPlanView, FetchErrorView>(FetchErrorView::BadHeader)
        }),
{
    let text = Seq::new(content_type.len(), |i: int| content_type[i] as char);
    assert(content_type.map_values(|byte: u8| byte as char) =~= text);
    if forall|i: int|
        0 <= i < content_type.len() ==> 32 <= #[trigger] content_type[i] < 127 || content_type[i]
            == 9 {
        assert forall|i: int| 0 <= i < content_type.len() implies is_visible(
            #[trigger] content_type[i],
        ) by {}
    } else {
        let i = choose|i: int|
            0 <= i < content_type.len() && !(32 <= #[trigger] content_type[i] < 127
                || content_type[i] == 9);
        assert(!is_visible(content_type[i]));
    }
}

/// Every redirection, whatever its status, comes to where its location leads from the URL
/// that was asked for; one that leads nowhere, and a location that is not visible ASCII,
/// are errors.
pub proof fn law_every_redirection_is_taken(
    url: Seq<char>,
    code: u16,
    content_type: Option<Seq<u8>>,
    location: Seq<u8>,
)
    requires
        300 <= code < 400,
    ensures
        ({
            let plan = get_plan(url, code, content_type, Some(location));
            let visible = forall|i: int|
                0 <= i < location.len() ==> 32 <= #[trigger] location[i] < 127 || location[i] == 9;
            let text = Seq::new(location.len(), |i: int| location[i] as char);
            &&& visible ==> match url_joined(url, text) {
                Ok(target) => plan == Ok::<GetPlanView, FetchErrorView>(
                    GetPlanView::Respond(HttpResponseView::Redirect(code, target)),
                ),
                Err(message) => plan == Err::<GetPlanView, FetchErrorView>(
                    FetchErrorView::BadLocation(message),
                ),
            }
            &&& !visible ==> plan == Err::<GetPlanView, FetchErrorView>(FetchErrorView::BadHeader)
        }),
{
    let text = Seq::new(location.len(), |i: int| location[i] as char);
    assert(location.map_values(|byte: u8| byte as char) =~= text);
    if forall|i: int|
        0 <= i < location.len() ==> 32 <= #[trigger] location[i] < 127 || location[i] == 9 {
        assert forall|i: int| 0 <= i < location.len() implies is_visible(
            #[trigger] location[i],
        ) by {}
    } else {
        let i = choose|i: int|
            0 <= i < location.len() && !(32 <= #[trigger] location[i] < 127 || location[i] == 9);
        assert(!is_visible(location[i]));
    }
}

/// A response is a failure of the server exactly where its status is below 200 or from
/// 400 on, and keeps that status. A response that met the request and does not say what
/// it holds, and a redirection that does not say where to, are errors.
pub proof fn law_the_status_decides(
    url: Seq<char>,
    code: u16,
    content_type: Option<Seq<u8>>,
    location: Option<Seq<u8>>,
)
    ensures
        code < 200 || 400 <= code ==> get_plan(url, code, content_type, location) == Ok::<
            GetPlanView,
            FetchErrorView,
        >(GetPlanView::ReadFailure(code)),
        200 <= code < 400 ==> !(get_plan(url, code, content_type, location) matches Ok(
            GetPlanView::ReadFailure(_),
        )),
        200 <= code < 300 ==> (get_plan(url, code, content_type, location) == Err::<
            GetPlanView,
            FetchErrorView,
        >(FetchErrorView::NoContentType) <==> content_type is None),
        300 <= code < 400 ==> (get_plan(url, code, content_type, location) == Err::<
            GetPlanView,
            FetchErrorView,
        >(FetchErrorView::NoLocation) <==> location is None),
{
}

/// A page comes to its body, a failure to its status and its body, and any other response
/// to what was planned, whatever its body.
pub proof fn law_a_plan_is_carried_out(code: u16, response: HttpResponseView, body: Seq<char>)
    ensures
        GetPlanView::ReadHtml.carried_out(body) == HttpResponseView::Html(body),
        GetPlanView::ReadFailure(code).carried_out(body) == HttpResponseView::ServerFailure(
            code,
            body,
        ),
        GetPlanView::Respond(response).carried_out(body) == response,
{
}

/// What the server answered is recorded as it is: a failure with its status and message,
/// a redirection with its status and target, other content with its type. Only a request
/// that failed is recorded as an error, and with its own message.
pub proof fn law_an_answer_is_recorded_as_it_is(
    url: Seq<char>,
    code: u16,
    text: Seq<char>,
    response: Result<HttpResponseView, Seq<char>>,
)
    ensures
        digested(url, Ok(HttpResponseView::ServerFailure(code, text))) == Ok::<
            PageResultView,
            IncompletePage,
        >(PageResultView::ServerFailure(code, text)),
        digested(url, Ok(HttpResponseView::Redirect(code, text))) == Ok::<
            PageResultView,
            IncompletePage,
        >(PageResultView::Redirect(code, text)),
        digested(url, Ok(HttpResponseView::OtherContent(text))) == Ok::<
            PageResultView,
            IncompletePage,
        >(PageResultView::OtherContent(text)),
        digested(url, Err(text)) == Ok::<PageResultView, IncompletePage>(
            PageResultView::Error(text),
        ),
        match digested(url, response) {
            Ok(PageResultView::ServerFailure(code, message)) => response == Ok::<
                HttpResponseView,
                Seq<char>,
            >(HttpResponseView::ServerFailure(code, message)),
            Ok(PageResultView::Redirect(code, target)) => response == Ok::<
                HttpResponseView,
                Seq<char>,
            >(HttpResponseView::Redirect(code, target)),
            Ok(PageResultView::OtherContent(content_type)) => response == Ok::<
                HttpResponseView,
                Seq<char>,
            >(HttpResponseView::OtherContent(content_type)),
            Ok(PageResultView::Error(message)) => response == Err::<HttpResponseView, Seq<char>>(
                message,
            ),
            Ok(PageResultView::Crawled(info)) => response matches Ok(HttpResponseView::Html(body))
                && info == links_of_tokens(url, html_tokenized(body).2),
            Ok(PageResultView::ExcludedByRobotsTxt) => false,
            Err(_) => response matches Ok(HttpResponseView::Html(body)) && !(html_tokenized(body).0
                && html_tokenized(body).1),
        },
{
}

/// A page that the tokenizer went through is recorded as crawled, with the links of its
/// tokens; and only of a page are there anchors without a link.
pub proof fn law_a_page_is_recorded_with_its_links(
    url: Seq<char>,
    body: Seq<char>,
    response: Result<HttpResponseView, Seq<char>>,
)
    ensures
        html_tokenized(body).0 && html_tokenized(body).1 ==> digested(
            url,
            Ok(HttpResponseView::Html(body)),
        ) == Ok::<PageResultView, IncompletePage>(
            PageResultView::Crawled(links_of_tokens(url, html_tokenized(body).2)),
        ),
        digested_anchors(url, Ok(HttpResponseView::Html(body))) == token_errors(
            url,
            html_tokenized(body).2,
        ),
        digested_anchors(url, response).len() > 0 ==> response matches Ok(HttpResponseView::Html(
            _,
        )),
{
}

/// Every page of up to 715,827,882 bytes can be read, and no longer one.
pub proof fn law_pages_are_read_up_to_a_length(page: Seq<char>)
    ensures
        page_fits(page) <==> encode_utf8(page).len() <= 715_827_882,
{
}

/// How the errors of a response read.
pub proof fn law_fetch_errors_in_words(text: Seq<char>)
    ensures
        FetchErrorView::NoContentType.message() == "No content type on OK response"@,
        FetchErrorView::BadHeader.message() == "failed to convert header to a str"@,
        FetchErrorView::BadContentType(text).message() == text,
        FetchErrorView::NoLocation.message() == "No Location header on redirect"@,
        FetchErrorView::BadLocation(text).message() == text,
        FetchErrorView::BadRobotsStatus(text).message() == "Got status "@ + text
            + " for robots.txt"@,
        AnchorErrorView::NoHref.message() == "No href"@,
        AnchorErrorView::BadHref(text).message() == text,
{
}

} // verus!
