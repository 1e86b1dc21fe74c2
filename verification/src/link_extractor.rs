//! Finds the links in the anchor elements of a page.
use vstd::prelude::*;

use crate::html::{
    Attribute, HtmlToken, Tag, TagKind, Tokenized, html_tokenized, page_fits, tokenize,
};
use crate::text::same_text;
use crate::urls::{ParseError, WebUrl, url_domain, url_joined};

verus! {

/// The links found on a page.
#[derive(Debug, Clone, PartialEq, Eq)]
pub struct PageInfo {
    /// Links found on the page with the same domain as the page
    pub internal_links: Vec<WebUrl>,
    /// Links found on the page with different domains to the page
    pub external_links: Vec<WebUrl>,
}

/// The texts of the links found on a page.
pub struct PageInfoView {
    pub internal_links: Seq<Seq<char>>,
    pub external_links: Seq<Seq<char>>,
}

/// The texts of URLs.
pub open spec fn url_texts(urls: Seq<WebUrl>) -> Seq<Seq<char>> {
    urls.map_values(|url: WebUrl| url@)
}

impl View for PageInfo {
    type V = PageInfoView;

    open spec fn view(&self) -> PageInfoView {
        PageInfoView {
            internal_links: url_texts(self.internal_links@),
            external_links: url_texts(self.external_links@),
        }
    }
}

impl PageInfoView {
    /// No links at all.
    pub open spec fn empty() -> PageInfoView {
        PageInfoView { internal_links: Seq::empty(), external_links: Seq::empty() }
    }
}

impl Default for PageInfo {
    fn default() -> (info: Self)
        ensures
            info@ == PageInfoView::empty(),
    {
        let info = PageInfo { internal_links: Vec::new(), external_links: Vec::new() };
        assert(info@.internal_links =~= Seq::<Seq<char>>::empty());
        assert(info@.external_links =~= Seq::<Seq<char>>::empty());
        info
    }
}

/// Whether two lists have the same URLs in the same order.
pub fn same_urls(left: &Vec<WebUrl>, right: &Vec<WebUrl>) -> (same: bool)
    ensures
        same == (url_texts(left@) == url_texts(right@)),
        same <==> left.len() == right.len() && forall|i: int|
            0 <= i < left.len() ==> (#[trigger] left@[i])@ == right@[i]@,
{
    if left.len() != right.len() {
        assert(url_texts(left@).len() != url_texts(right@).len());
        return false;
    }
    let mut i: usize = 0;
    while i < left.len()
        invariant
            i <= left.len() == right.len(),
            forall|j: int| 0 <= j < i ==> (#[trigger] left@[j])@ == right@[j]@,
        decreases left.len() - i,
    {
        if !left[i].same(&right[i]) {
            assert(url_texts(left@)[i as int] != url_texts(right@)[i as int]);
            return false;
        }
        i = i + 1;
    }
    assert(url_texts(left@) =~= url_texts(right@));
    true
}

impl PageInfo {
    /// Whether two pages have the same links in the same order.
    pub fn same(&self, other: &PageInfo) -> (same: bool)
        ensures
            same == (self@ == other@),
    {
        same_urls(&self.internal_links, &other.internal_links) && same_urls(
            &self.external_links,
            &other.external_links,
        )
    }
}

/// The value of the first attribute called `href`.
pub open spec fn first_href(attrs: Seq<(Seq<char>, Seq<char>)>) -> Option<Seq<char>>
    decreases attrs.len(),
{
    if attrs.len() == 0 {
        None
    } else if attrs[0].0 == "href"@ {
        Some(attrs[0].1)
    } else {
        first_href(attrs.drop_first())
    }
}

/// Whether a tag opens an anchor element.
pub open spec fn is_anchor(tag: (bool, Seq<char>, Seq<(Seq<char>, Seq<char>)>)) -> bool {
    tag.0 && tag.1 == "a"@
}

/// Where a token of a page links to: the first `href` of an anchor, followed from
/// the page. A token that is no anchor, an anchor without `href`, and a reference
/// that leads nowhere give nothing.
pub open spec fn token_link(
    page: Seq<char>,
    token: Option<(bool, Seq<char>, Seq<(Seq<char>, Seq<char>)>)>,
) -> Option<Seq<char>> {
    match token {
        Some(tag) => if is_anchor(tag) {
            match first_href(tag.2) {
                Some(href) => match url_joined(page, href) {
                    Ok(link) => Some(link),
                    Err(_) => None,
                },
                None => None,
            }
        } else {
            None
        },
        None => None,
    }
}

/// The links of the tokens of a page, in order.
pub open spec fn token_links(
    page: Seq<char>,
    tokens: Seq<Option<(bool, Seq<char>, Seq<(Seq<char>, Seq<char>)>)>>,
) -> Seq<Seq<char>>
    decreases tokens.len(),
{
    if tokens.len() == 0 {
        Seq::empty()
    } else {
        let before = token_links(page, tokens.drop_last());
        match token_link(page, tokens.last()) {
            Some(link) => before.push(link),
            None => before,
        }
    }
}

/// Whether a link stays on the domain of a page.
pub open spec fn is_internal(page: Seq<char>, link: Seq<char>) -> bool {
    url_domain(link) == url_domain(page)
}

/// Links sorted into those that stay on the domain of a page and those that
/// leave it, each kind in the order of the page.
pub open spec fn sorted_links(page: Seq<char>, links: Seq<Seq<char>>) -> PageInfoView {
    PageInfoView {
        internal_links: links.filter(|link: Seq<char>| is_internal(page, link)),
        external_links: links.filter(|link: Seq<char>| !is_internal(page, link)),
    }
}

/// The links of a page with these tokens.
pub open spec fn links_of_tokens(
    page: Seq<char>,
    tokens: Seq<Option<(bool, Seq<char>, Seq<(Seq<char>, Seq<char>)>)>>,
) -> PageInfoView {
    sorted_links(page, token_links(page, tokens))
}

/// Why an anchor gives no link.
#[derive(Debug, PartialEq, Eq)]
pub enum AnchorError {
    /// The anchor has no `href`.
    NoHref,
    /// The `href` leads nowhere.
    BadHref(ParseError),
}

/// Why an anchor gives no link, by its text.
pub enum AnchorErrorView {
    NoHref,
    BadHref(Seq<char>),
}

impl View for AnchorError {
    type V = AnchorErrorView;

    open spec fn view(&self) -> AnchorErrorView {
        match self {
            AnchorError::NoHref => AnchorErrorView::NoHref,
            AnchorError::BadHref(error) => AnchorErrorView::BadHref(error@),
        }
    }
}

impl AnchorErrorView {
    /// The error in words.
    pub open spec fn message(self) -> Seq<char> {
        match self {
            AnchorErrorView::NoHref => "No href"@,
            AnchorErrorView::BadHref(message) => message,
        }
    }
}

impl AnchorError {
    /// The error in words.
    pub fn message(&self) -> (message: String)
        ensures
            message@ == self@.message(),
            self is NoHref ==> message@ == "No href"@,
            self matches AnchorError::BadHref(error) ==> message@ == error@,
    {
        match self {
            AnchorError::NoHref => "No href".to_owned(),
            AnchorError::BadHref(error) => error.message(),
        }
    }
}

/// Why a token gives no link, where it is an anchor without one.
pub open spec fn token_error(
    page: Seq<char>,
    token: Option<(bool, Seq<char>, Seq<(Seq<char>, Seq<char>)>)>,
) -> Option<AnchorErrorView> {
    match token {
        Some(tag) => if is_anchor(tag) {
            match first_href(tag.2) {
                Some(href) => match url_joined(page, href) {
                    Ok(_) => None,
                    Err(message) => Some(AnchorErrorView::BadHref(message)),
                },
                None => Some(AnchorErrorView::NoHref),
            }
        } else {
            None
        },
        None => None,
    }
}

/// Why the anchors without a link give none, in the order of the page.
pub open spec fn token_errors(
    page: Seq<char>,
    tokens: Seq<Option<(bool, Seq<char>, Seq<(Seq<char>, Seq<char>)>)>>,
) -> Seq<AnchorErrorView>
    decreases tokens.len(),
{
    if tokens.len() == 0 {
        Seq::empty()
    } else {
        let before = token_errors(page, tokens.drop_last());
        match token_error(page, tokens.last()) {
            Some(error) => before.push(error),
            None => before,
        }
    }
}

/// What errors hold.
pub open spec fn error_views(errors: Seq<AnchorError>) -> Seq<AnchorErrorView> {
    errors.map_values(|error: AnchorError| error@)
}

/// Every anchor of a page gives a link or a reason why it gives none, and only anchors
/// do.
pub proof fn law_every_anchor_is_accounted_for(
    page: Seq<char>,
    tokens: Seq<Option<(bool, Seq<char>, Seq<(Seq<char>, Seq<char>)>)>>,
)
    ensures
        token_links(page, tokens).len() + token_errors(page, tokens).len() == tokens.filter(
            |token: Option<(bool, Seq<char>, Seq<(Seq<char>, Seq<char>)>)>|
                token matches Some(tag) && tag.0 && tag.1 == "a"@,
        ).len(),
    decreases tokens.len(),
{
    reveal(Seq::filter);
    if tokens.len() > 0 {
        law_every_anchor_is_accounted_for(page, tokens.drop_last());
    }
}

/// Collects the links of a page from its tokens.
pub struct PageInfoSink<'a> {
    pub url: &'a WebUrl,
    pub output: PageInfo,
    /// Why the anchors without a link give none.
    pub unlinked: Vec<AnchorError>,
}

pub proof fn lemma_push_text(urls: Seq<WebUrl>, url: WebUrl)
    ensures
        url_texts(urls.push(url)) == url_texts(urls).push(url@),
{
    assert(url_texts(urls.push(url)) =~= url_texts(urls).push(url@));
}

pub proof fn lemma_first_href(attrs: Seq<(Seq<char>, Seq<char>)>, at: int)
    requires
        0 <= at <= attrs.len(),
        forall|i: int| 0 <= i < at ==> (#[trigger] attrs[i]).0 != "href"@,
    ensures
        first_href(attrs) == first_href(attrs.skip(at)),
    decreases at,
{
    if at == 0 {
        assert(attrs.skip(0) =~= attrs);
    } else {
        assert(attrs[0].0 != "href"@);
        assert forall|i: int| 0 <= i < at - 1 implies (#[trigger] attrs.drop_first()[i]).0
            != "href"@ by {
            assert(attrs.drop_first()[i] == attrs[i + 1]);
        }
        lemma_first_href(attrs.drop_first(), at - 1);
        assert(attrs.drop_first().skip(at - 1) =~= attrs.skip(at));
    }
}

proof fn lemma_some_href(attrs: Seq<(Seq<char>, Seq<char>)>)
    requires
        exists|i: int| 0 <= i < attrs.len() && (#[trigger] attrs[i]).0 == "href"@,
    ensures
        first_href(attrs) is Some,
    decreases attrs.len(),
{
    if attrs[0].0 != "href"@ {
        let i = choose|i: int| 0 <= i < attrs.len() && (#[trigger] attrs[i]).0 == "href"@;
        assert(attrs.drop_first()[i - 1] == attrs[i]);
        lemma_some_href(attrs.drop_first());
    }
}

/// The value of the first attribute called `href`.
fn find_href(attrs: &Vec<Attribute>) -> (href: Option<&String>)
    ensures
        (match href {
            Some(href) => Some(href@),
            None => None,
        }) == first_href(attrs@.map_values(|attr: Attribute| attr@)),
{
    let ghost views = attrs@.map_values(|attr: Attribute| attr@);
    let mut i: usize = 0;
    while i < attrs.len()
        invariant
            i <= attrs.len(),
            views == attrs@.map_values(|attr: Attribute| attr@),
            forall|j: int| 0 <= j < i ==> (#[trigger] views[j]).0 != "href"@,
        decreases attrs.len() - i,
    {
        if same_text(attrs[i].name.as_str(), "href") {
            proof {
                lemma_first_href(views, i as int);
                assert(views.skip(i as int)[0] == views[i as int]);
            }
            return Some(&attrs[i].value);
        }
        i = i + 1;
    }
    proof {
        lemma_first_href(views, views.len() as int);
    }
    None
}

impl<'a> PageInfoSink<'a> {
    /// A sink for the page at a URL that has seen no tokens.
    pub fn new(url: &'a WebUrl) -> (sink: Self)
        ensures
            sink.url@ == url@,
            sink.output@ == PageInfoView::empty(),
            error_views(sink.unlinked@) == Seq::<AnchorErrorView>::empty(),
    {
        let sink = PageInfoSink { url, output: PageInfo::default(), unlinked: Vec::new() };
        assert(error_views(sink.unlinked@) =~= Seq::<AnchorErrorView>::empty());
        sink
    }

    /// Takes the link of an anchor: into the internal links where it stays on the
    /// domain of the page, into the external links where it leaves it.
    pub fn process_anchor(&mut self, tag: &Tag) -> (processed: Result<(), AnchorError>)
        ensures
            final(self).url == old(self).url,
            final(self).unlinked == old(self).unlinked,
            match first_href(tag@.2) {
                None => {
                    &&& processed == Err::<(), AnchorError>(AnchorError::NoHref)
                    &&& final(self).output == old(self).output
                },
                Some(href) => match url_joined(old(self).url@, href) {
                    Err(message) => {
                        &&& processed matches Err(AnchorError::BadHref(error))
                        &&& error@ == message
                        &&& final(self).output == old(self).output
                    },
                    Ok(link) => {
                        &&& processed is Ok
                        &&& final(self).output@ == (if is_internal(old(self).url@, link) {
                            PageInfoView {
                                internal_links: old(self).output@.internal_links.push(link),
                                external_links: old(self).output@.external_links,
                            }
                        } else {
                            PageInfoView {
                                internal_links: old(self).output@.internal_links,
                                external_links: old(self).output@.external_links.push(link),
                            }
                        })
                    },
                },
            },
            processed == Err::<(), AnchorError>(AnchorError::NoHref) <==> (forall|i: int|
                0 <= i < tag.attrs.len() ==> (#[trigger] tag.attrs@[i]).name@ != "href"@),
            forall|at: int|
                {
                    &&& 0 <= at < tag.attrs.len()
                    &&& (#[trigger] tag.attrs@[at]).name@ == "href"@
                    &&& forall|i: int| 0 <= i < at ==> (#[trigger] tag.attrs@[i]).name@ != "href"@
                } ==> match url_joined(old(self).url@, tag.attrs@[at].value@) {
                    Ok(link) => {
                        &&& processed is Ok
                        &&& url_domain(link) == url_domain(old(self).url@) ==> {
                            let before = old(self).output@;
                            &&& final(self).output@.internal_links == before.internal_links.push(link)
                            &&& final(self).output@.external_links == before.external_links
                        }
                        &&& url_domain(link) != url_domain(old(self).url@) ==> {
                            let before = old(self).output@;
                            &&& final(self).output@.internal_links == before.internal_links
                            &&& final(self).output@.external_links == before.external_links.push(link)
                        }
                    },
                    Err(_) => processed is Err && final(self).output == old(self).output,
                },
    {
        let ghost attrs = tag@.2;
        proof {
            assert forall|at: int|
                {
                    &&& 0 <= at < tag.attrs.len()
                    &&& (#[trigger] tag.attrs@[at]).name@ == "href"@
                    &&& forall|i: int| 0 <= i < at ==> (#[trigger] tag.attrs@[i]).name@ != "href"@
                } implies first_href(attrs) == Some(tag.attrs@[at].value@) by {
                lemma_first_href(attrs, at);
                assert(attrs.skip(at)[0] == attrs[at]);
            }
            if forall|i: int| 0 <= i < tag.attrs.len() ==> (#[trigger] tag.attrs@[i]).name@
                != "href"@ {
                lemma_first_href(attrs, attrs.len() as int);
            } else {
                let i = choose|i: int|
                    0 <= i < tag.attrs.len() && (#[trigger] tag.attrs@[i]).name@ == "href"@;
                assert(attrs[i].0 == "href"@);
                lemma_some_href(attrs);
            }
        }
        let href: &String = match find_href(&tag.attrs) {
            Some(href) => href,
            None => {
                return Err(AnchorError::NoHref);
            },
        };
        let url: WebUrl = match self.url.join(href.as_str()) {
            Ok(url) => url,
            Err(error) => {
                return Err(AnchorError::BadHref(error));
            },
        };
        if url.same_domain(self.url) {
            proof {
                lemma_push_text(self.output.internal_links@, url);
            }
            self.output.internal_links.push(url);
        } else {
            proof {
                lemma_push_text(self.output.external_links@, url);
            }
            self.output.external_links.push(url);
        }
        Ok(())
    }

    /// Takes the link of a token, where it is an anchor with one, or the reason, where it is
    /// an anchor without.
    pub fn process_token(&mut self, token: &HtmlToken)
        ensures
            final(self).url == old(self).url,
            final(self).output@ == (match token_link(old(self).url@, token@) {
                None => old(self).output@,
                Some(link) => if is_internal(old(self).url@, link) {
                    PageInfoView {
                        internal_links: old(self).output@.internal_links.push(link),
                        external_links: old(self).output@.external_links,
                    }
                } else {
                    PageInfoView {
                        internal_links: old(self).output@.internal_links,
                        external_links: old(self).output@.external_links.push(link),
                    }
                },
            }),
            error_views(final(self).unlinked@) == (match token_error(old(self).url@, token@) {
                None => error_views(old(self).unlinked@),
                Some(error) => error_views(old(self).unlinked@).push(error),
            }),
            token matches HtmlToken::TagToken(tag) ==> forall|at: int|
                {
                    &&& tag.kind == TagKind::StartTag
                    &&& tag.name@ == "a"@
                    &&& 0 <= at < tag.attrs.len()
                    &&& (#[trigger] tag.attrs@[at]).name@ == "href"@
                    &&& forall|i: int| 0 <= i < at ==> (#[trigger] tag.attrs@[i]).name@ != "href"@
                } ==> match url_joined(old(self).url@, tag.attrs@[at].value@) {
                    Ok(link) => {
                        &&& url_domain(link) == url_domain(old(self).url@) ==> {
                            let before = old(self).output@;
                            &&& final(self).output@.internal_links == before.internal_links.push(link)
                            &&& final(self).output@.external_links == before.external_links
                        }
                        &&& url_domain(link) != url_domain(old(self).url@) ==> {
                            let before = old(self).output@;
                            &&& final(self).output@.internal_links == before.internal_links
                            &&& final(self).output@.external_links == before.external_links.push(link)
                        }
                        &&& final(self).unlinked@ == old(self).unlinked@
                    },
                    Err(_) => {
                        &&& final(self).output == old(self).output
                        &&& final(self).unlinked.len() == old(self).unlinked.len() + 1
                        &&& final(self).unlinked@.drop_last() == old(self).unlinked@
                        &&& final(self).unlinked@.last() is BadHref
                    },
                },
            token matches HtmlToken::TagToken(tag) ==> tag.kind == TagKind::StartTag && tag.name@
                == "a"@ && (forall|i: int|
                0 <= i < tag.attrs.len() ==> (#[trigger] tag.attrs@[i]).name@ != "href"@) ==> {
                &&& final(self).output == old(self).output
                &&& final(self).unlinked@ == old(self).unlinked@.push(AnchorError::NoHref)
            },
            !(token matches HtmlToken::TagToken(tag) && tag.kind == TagKind::StartTag
                && tag.name@ == "a"@) ==> {
                &&& final(self).output == old(self).output
                &&& final(self).unlinked == old(self).unlinked
            },
    {
        if let HtmlToken::TagToken(tag) = token {
            if tag.kind == TagKind::StartTag && same_text(tag.name.as_str(), "a") {
                if let Err(error) = self.process_anchor(tag) {
                    proof {
                        assert(error_views(self.unlinked@.push(error)) =~= error_views(
                            self.unlinked@,
                        ).push(error@));
                    }
                    self.unlinked.push(error);
                }
            }
        }
    }
}

pub proof fn lemma_sorted_push(page: Seq<char>, links: Seq<Seq<char>>, link: Seq<char>)
    ensures
        sorted_links(page, links.push(link)) == (if is_internal(page, link) {
            PageInfoView {
                internal_links: sorted_links(page, links).internal_links.push(link),
                external_links: sorted_links(page, links).external_links,
            }
        } else {
            PageInfoView {
                internal_links: sorted_links(page, links).internal_links,
                external_links: sorted_links(page, links).external_links.push(link),
            }
        }),
{
    reveal(Seq::filter);
    assert(links.push(link).drop_last() =~= links);
}

/// The internal links of a page stay on its domain, the external links leave it,
/// and together they are the links of the page, each as often as it is there.
pub proof fn law_links_are_sorted(page: Seq<char>, links: Seq<Seq<char>>)
    ensures
        forall|i: int|
            0 <= i < sorted_links(page, links).internal_links.len() ==> url_domain(
                #[trigger] sorted_links(page, links).internal_links[i],
            ) == url_domain(page),
        forall|i: int|
            0 <= i < sorted_links(page, links).external_links.len() ==> url_domain(
                #[trigger] sorted_links(page, links).external_links[i],
            ) != url_domain(page),
        sorted_links(page, links).internal_links.to_multiset().add(
            sorted_links(page, links).external_links.to_multiset(),
        ) == links.to_multiset(),
    decreases links.len(),
{
    broadcast use vstd::seq_lib::group_to_multiset_ensures;

    reveal(Seq::filter);
    let sorted = sorted_links(page, links);
    if links.len() == 0 {
        assert(sorted.internal_links =~= Seq::empty());
        assert(sorted.external_links =~= Seq::empty());
        assert(links =~= Seq::empty());
        assert(sorted.internal_links.to_multiset().add(sorted.external_links.to_multiset())
            =~= links.to_multiset());
    } else {
        let rest = links.drop_last();
        law_links_are_sorted(page, rest);
        lemma_sorted_push(page, rest, links.last());
        assert(links =~= rest.push(links.last()));
        let before = sorted_links(page, rest);
        assert(before.internal_links.to_multiset().add(before.external_links.to_multiset())
            == rest.to_multiset());
        assert(sorted.internal_links.to_multiset().add(sorted.external_links.to_multiset())
            =~= links.to_multiset());
    }
}

/// The links of a page, and why the anchors without a link give none.
#[derive(Debug, PartialEq, Eq)]
pub struct PageAnchors {
    pub info: PageInfo,
    /// Why the anchors without a link give none, in the order of the page.
    pub unlinked: Vec<AnchorError>,
}

impl View for PageAnchors {
    type V = (PageInfoView, Seq<AnchorErrorView>);

    open spec fn view(&self) -> (PageInfoView, Seq<AnchorErrorView>) {
        (self.info@, error_views(self.unlinked@))
    }
}

/// The links of the page at a URL, and why its anchors without a link give none, from
/// its tokens.
pub fn extract_anchors(url: &WebUrl, tokens: &Vec<HtmlToken>) -> (anchors: PageAnchors)
    ensures
        anchors@.0 == links_of_tokens(url@, tokens@.map_values(|token: HtmlToken| token@)),
        anchors@.1 == token_errors(url@, tokens@.map_values(|token: HtmlToken| token@)),
        anchors.info@ == anchors@.0,
        error_views(anchors.unlinked@) == anchors@.1,
{
    let ghost views = tokens@.map_values(|token: HtmlToken| token@);
    let mut sink = PageInfoSink::new(url);
    let mut i: usize = 0;
    proof {
        reveal(Seq::filter);
        assert(views.take(0) =~= Seq::empty());
        assert(sink.output@ == links_of_tokens(url@, views.take(0)));
    }
    while i < tokens.len()
        invariant
            i <= tokens.len(),
            views == tokens@.map_values(|token: HtmlToken| token@),
            sink.url@ == url@,
            sink.output@ == links_of_tokens(url@, views.take(i as int)),
            error_views(sink.unlinked@) == token_errors(url@, views.take(i as int)),
        decreases tokens.len() - i,
    {
        proof {
            assert(views.take(i + 1).drop_last() =~= views.take(i as int));
            assert(views.take(i + 1).last() == tokens[i as int]@);
            if let Some(link) = token_link(url@, tokens[i as int]@) {
                lemma_sorted_push(url@, token_links(url@, views.take(i as int)), link);
            }
        }
        sink.process_token(&tokens[i]);
        i = i + 1;
    }
    assert(views.take(views.len() as int) =~= views);
    PageAnchors { info: sink.output, unlinked: sink.unlinked }
}

/// The links of the page at a URL, from its tokens.
pub fn extract_links(url: &WebUrl, tokens: &Vec<HtmlToken>) -> (info: PageInfo)
    ensures
        info@ == links_of_tokens(url@, tokens@.map_values(|token: HtmlToken| token@)),
{
    extract_anchors(url, tokens).info
}

/// The tokenizer did not process all of a page.
#[derive(Debug, PartialEq, Eq, Clone, Copy, Structural)]
pub struct IncompletePage;

impl IncompletePage {
    /// The error in words.
    pub fn message(&self) -> (message: String)
        ensures
            message@ == "parse_page didn't process all of input buffer"@,
    {
        "parse_page didn't process all of input buffer".to_owned()
    }
}

/// What a result of reading a page holds.
pub open spec fn page_result(value: Result<PageInfo, IncompletePage>) -> Result<
    PageInfoView,
    IncompletePage,
> {
    match value {
        Ok(info) => Ok(info@),
        Err(error) => Err(error),
    }
}

/// The links of a page, given what the tokenizer made of it.
pub open spec fn tokenized_links(
    page: Seq<char>,
    tokenized: (bool, bool, Seq<Option<(bool, Seq<char>, Seq<(Seq<char>, Seq<char>)>)>>),
) -> Result<PageInfoView, IncompletePage> {
    if tokenized.0 && tokenized.1 {
        Ok(links_of_tokens(page, tokenized.2))
    } else {
        Err(IncompletePage)
    }
}

/// The links of the page at a URL, given what the tokenizer made of it.
pub fn read_tokenized(url: &WebUrl, tokenized: &Tokenized) -> (info: Result<
    PageInfo,
    IncompletePage,
>)
    ensures
        page_result(info) == tokenized_links(url@, tokenized@),
        info is Ok <==> tokenized.done && tokenized.used_up,
        info matches Ok(info) ==> info@ == links_of_tokens(url@, tokenized@.2),
{
    if !tokenized.used_up || !tokenized.done {
        return Err(IncompletePage);
    }
    Ok(extract_links(url, &tokenized.tokens))
}

/// What a result of reading a page with its anchors holds.
pub open spec fn anchors_result(value: Result<PageAnchors, IncompletePage>) -> Result<
    (PageInfoView, Seq<AnchorErrorView>),
    IncompletePage,
> {
    match value {
        Ok(anchors) => Ok(anchors@),
        Err(error) => Err(error),
    }
}

/// The links of a page, and why its anchors without a link give none, given what the
/// tokenizer made of it.
pub open spec fn tokenized_anchors(
    page: Seq<char>,
    tokenized: (bool, bool, Seq<Option<(bool, Seq<char>, Seq<(Seq<char>, Seq<char>)>)>>),
) -> Result<(PageInfoView, Seq<AnchorErrorView>), IncompletePage> {
    match tokenized_links(page, tokenized) {
        Ok(info) => Ok((info, token_errors(page, tokenized.2))),
        Err(error) => Err(error),
    }
}

/// The links of the page at a URL, and why its anchors without a link give none, given
/// what the tokenizer made of it.
pub fn read_anchors(url: &WebUrl, tokenized: &Tokenized) -> (anchors: Result<
    PageAnchors,
    IncompletePage,
>)
    ensures
        anchors_result(anchors) == tokenized_anchors(url@, tokenized@),
        anchors is Ok <==> tokenized.done && tokenized.used_up,
        anchors matches Ok(anchors) ==> anchors.info@ == links_of_tokens(url@, tokenized@.2)
            && error_views(anchors.unlinked@) == token_errors(url@, tokenized@.2),
{
    if !tokenized.used_up || !tokenized.done {
        return Err(IncompletePage);
    }
    Ok(extract_anchors(url, &tokenized.tokens))
}

/// The links of the page at a URL, and why its anchors without a link give none. The
/// tokenizer processes all of the page.
pub fn parse_anchors(url: &WebUrl, page: &str) -> (anchors: Result<PageAnchors, IncompletePage>)
    requires
        page_fits(page@),
    ensures
        anchors_result(anchors) == tokenized_anchors(url@, html_tokenized(page@)),
        anchors is Ok,
        anchors matches Ok(anchors) ==> anchors.info@ == links_of_tokens(
            url@,
            html_tokenized(page@).2,
        ) && error_views(anchors.unlinked@) == token_errors(url@, html_tokenized(page@).2),
{
    read_anchors(url, &tokenize(page))
}

/// The links of the page at a URL. The tokenizer processes all of the page.
pub fn parse_page(url: &WebUrl, page: &str) -> (info: Result<PageInfo, IncompletePage>)
    requires
        page_fits(page@),
    ensures
        page_result(info) == tokenized_links(url@, html_tokenized(page@)),
        info is Ok,
        info matches Ok(info) ==> info@ == links_of_tokens(url@, html_tokenized(page@).2),
{
    match parse_anchors(url, page) {
        Ok(anchors) => Ok(anchors.info),
        Err(error) => Err(error),
    }
}

} // verus!
